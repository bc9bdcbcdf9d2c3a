//! The state of a game and the three things a player can do: draw tiles,
//! click a cell, have the move validated.

use vstd::prelude::*;
use crate::bag::{bag_after, can_draw, tiles_drawn, Bag};
use crate::board::{
    cell_index, is_grid, with_letter_score, BoardGrid, Cell, PlacementError, EMPTY_VALUE,
};
use crate::engine::{move_result, validate_and_score, MoveResult, MoveView, RACK_SIZE};
use crate::tile::{letters_of, Tile};

verus! {

/// A game in progress: the bag, the player's rack, the board, the cell chosen
/// last and what the last validation reported.
pub struct GameState {
    bag: Vec<Tile>,
    rack: Vec<Tile>,
    move_rack: Vec<Tile>,
    board: BoardGrid,
    selected: (usize, usize),
    last_move: Option<MoveResult>,
}

/// A `GameState` as a mathematical value.
pub struct GameView {
    /// The tiles not drawn yet.
    pub bag: Seq<Tile>,
    /// The tiles in hand. A placement uses the first of them.
    pub rack: Seq<Tile>,
    /// The rack as it was drawn, before any placement. Validation reads it.
    pub move_rack: Seq<Tile>,
    /// The cells of the board, row after row.
    pub board: Seq<Cell>,
    /// The coordinate chosen last.
    pub selected: (usize, usize),
    /// What the last validation reported, if there was one.
    pub last_move: Option<MoveView>,
}

/// What a validation report is as a mathematical value, if there is one.
pub open spec fn report_view(report: Option<MoveResult>) -> Option<MoveView> {
    match report {
        Some(result) => Some(result@),
        None => None,
    }
}

/// The game after a click on `coord`. A click on a header, or beyond the grid,
/// changes nothing. Any other click takes the first tile of the rack and puts
/// it on the square; with no tile in hand it empties the square. Either way
/// the square becomes the one chosen last.
pub open spec fn after_click(game: GameView, coord: (usize, usize)) -> GameView {
    let at = cell_index(coord.0 as int, coord.1 as int);
    if BoardGrid::spec_check_playable(coord) is Err {
        game
    } else if game.rack.len() > 0 {
        GameView {
            rack: game.rack.drop_first(),
            board: game.board.update(
                at,
                with_letter_score(game.board[at], (game.rack[0].0, game.rack[0].1)),
            ),
            selected: coord,
            ..game
        }
    } else {
        GameView {
            board: game.board.update(at, with_letter_score(game.board[at], (' ', EMPTY_VALUE))),
            selected: coord,
            ..game
        }
    }
}

/// The game after a click on each of `coords` in turn.
pub open spec fn after_clicks(game: GameView, coords: Seq<(usize, usize)>) -> GameView
    decreases coords.len(),
{
    if coords.len() == 0 {
        game
    } else {
        after_click(after_clicks(game, coords.drop_last()), coords.last())
    }
}

/// The game after a validation: the report is new, the rest is as it was.
pub open spec fn after_validate(game: GameView) -> GameView {
    GameView { last_move: Some(move_result(game.board, game.move_rack)), ..game }
}

/// Whether `after` can be the game that a draw makes of `before`: the rack is
/// replaced by up to seven tiles taken from the bag, which is not refilled
/// with the tiles that were in hand.
pub open spec fn is_draw(before: GameView, after: GameView) -> bool {
    &&& after.rack.len() == if RACK_SIZE <= before.bag.len() {
        RACK_SIZE as nat
    } else {
        before.bag.len()
    }
    &&& can_draw(before.bag, letters_of(after.rack))
    &&& after.rack == tiles_drawn(before.bag, letters_of(after.rack))
    &&& after.bag == bag_after(before.bag, letters_of(after.rack))
    &&& after.move_rack == after.rack
    &&& after.board == before.board
    &&& after.selected == before.selected
    &&& after.last_move == before.last_move
}

/// Whether each of `coords` is a square of the board and none occurs twice.
pub open spec fn distinct_squares(coords: Seq<(usize, usize)>) -> bool {
    &&& forall|k: int|
        0 <= k < coords.len() ==> BoardGrid::spec_check_playable(#[trigger] coords[k]) is Ok
    &&& forall|k: int, l: int|
        0 <= k < l < coords.len() ==> #[trigger] coords[k] != #[trigger] coords[l]
}

/// Tiles leave the rack first in, first out: after clicks on distinct squares,
/// no more of them than there are tiles in hand, the first square holds the
/// first tile of the rack, the second square the second, and so on, whichever
/// squares they are; and the rack has lost just those tiles.
pub proof fn lemma_fifo_placement(game: GameView, coords: Seq<(usize, usize)>)
    requires
        is_grid(game.board),
        distinct_squares(coords),
        coords.len() <= game.rack.len(),
    ensures
        after_clicks(game, coords).rack == game.rack.skip(coords.len() as int),
        after_clicks(game, coords).board.len() == game.board.len(),
        forall|k: int|
            0 <= k < coords.len() ==> after_clicks(game, coords).board[cell_index(
                (#[trigger] coords[k]).0 as int,
                coords[k].1 as int,
            )].letter_score == (game.rack[k].0, game.rack[k].1),
    decreases coords.len(),
{
    if coords.len() == 0 {
        assert(game.rack.skip(0) =~= game.rack);
    } else {
        let n = coords.len() - 1;
        let earlier = coords.drop_last();
        let coord = coords.last();
        lemma_fifo_placement(game, earlier);
        let mid = after_clicks(game, earlier);
        let end = after_clicks(game, coords);
        assert(end == after_click(mid, coord));
        assert(BoardGrid::spec_check_playable(coords[n]) is Ok);
        assert(mid.rack.len() > 0);
        assert(mid.rack[0] == game.rack[n]);
        assert(end.rack =~= game.rack.skip(coords.len() as int));
        let at = cell_index(coord.0 as int, coord.1 as int);
        assert forall|k: int| 0 <= k < coords.len() implies end.board[cell_index(
            (#[trigger] coords[k]).0 as int,
            coords[k].1 as int,
        )].letter_score == (game.rack[k].0, game.rack[k].1) by {
            if k < n {
                assert(earlier[k] == coords[k]);
                assert(BoardGrid::spec_check_playable(coords[k]) is Ok);
                assert(coords[k] != coords[n]);
                assert(cell_index(coords[k].0 as int, coords[k].1 as int) != at);
            }
        }
    }
}

/// Validating again, with nothing changed in between, changes nothing: the
/// second report is the first.
pub proof fn lemma_validate_idempotent(game: GameView)
    ensures
        after_validate(after_validate(game)) == after_validate(game),
        after_validate(game).bag == game.bag,
        after_validate(game).rack == game.rack,
        after_validate(game).move_rack == game.move_rack,
        after_validate(game).board == game.board,
{
}

/// A draw loses no tile and makes none: the tiles left in the bag and the
/// tiles of the new rack are, taken together, the tiles that were in the bag.
pub proof fn lemma_draw_keeps_tiles(before: GameView, after: GameView)
    requires
        is_draw(before, after),
    ensures
        after.bag.len() + after.rack.len() == before.bag.len(),
        before.bag.to_multiset() == after.bag.to_multiset().add(after.rack.to_multiset()),
        after.rack.to_multiset().subset_of(before.bag.to_multiset()),
        before.bag.len() == 0 ==> after.rack.len() == 0,
{
    crate::bag::lemma_draw_conserves(before.bag, letters_of(after.rack));
}

impl View for GameState {
    type V = GameView;

    closed spec fn view(&self) -> GameView {
        GameView {
            bag: self.bag@,
            rack: self.rack@,
            move_rack: self.move_rack@,
            board: self.board@,
            selected: self.selected,
            last_move: report_view(self.last_move),
        }
    }
}

impl GameState {
    /// The board of the game is a grid.
    pub open spec fn wf(&self) -> bool {
        is_grid(self@.board)
    }

    /// A new game: a full bag, an empty rack, an empty board, the corner
    /// chosen, and no validation yet.
    pub fn new() -> (game: Self)
        ensures
            game.wf(),
            game@.bag == crate::bag::canonical_tiles(),
            game@.rack.len() == 0,
            game@.move_rack.len() == 0,
            forall|i: int|
                0 <= i < game@.board.len() ==> (#[trigger] game@.board[i]).letter_score == (
                    ' ',
                    EMPTY_VALUE,
                ),
            game@.selected == (0usize, 0usize),
            game@.last_move is None,
    {
        GameState {
            bag: Bag::new().0,
            rack: Vec::new(),
            move_rack: Vec::new(),
            board: BoardGrid::new(),
            selected: (0, 0),
            last_move: None,
        }
    }

    /// A game that starts with the given bag and the given rack in hand, on an
    /// empty board.
    pub fn with_tiles(bag: Vec<Tile>, rack: Vec<Tile>) -> (game: Self)
        ensures
            game.wf(),
            game@.bag == bag@,
            game@.rack == rack@,
            game@.move_rack == rack@,
            forall|i: int|
                0 <= i < game@.board.len() ==> (#[trigger] game@.board[i]).letter_score == (
                    ' ',
                    EMPTY_VALUE,
                ),
            game@.selected == (0usize, 0usize),
            game@.last_move is None,
    {
        GameState {
            bag,
            move_rack: Self::copy_of(&rack),
            rack,
            board: BoardGrid::new(),
            selected: (0, 0),
            last_move: None,
        }
    }

    /// Draws a new rack of up to seven tiles from the bag. The tiles that were
    /// in hand do not go back into the bag.
    pub fn on_draw_tiles(&mut self)
        requires
            old(self).wf(),
        ensures
            final(self).wf(),
            is_draw(old(self)@, final(self)@),
    {
        let rack = Bag::draw_tiles(RACK_SIZE as u8, &mut self.bag);
        self.move_rack = Self::copy_of(&rack);
        self.rack = rack;
    }

    /// A copy of the tiles.
    fn copy_of(tiles: &Vec<Tile>) -> (copy: Vec<Tile>)
        ensures
            copy@ == tiles@,
    {
        let mut copy: Vec<Tile> = Vec::new();
        let mut i: usize = 0;
        while i < tiles.len()
            invariant
                i <= tiles@.len(),
                copy@ == tiles@.take(i as int),
            decreases tiles.len() - i,
        {
            copy.push(tiles[i]);
            proof {
                assert(tiles@.take(i + 1) =~= tiles@.take(i as int).push(tiles@[i as int]));
            }
            i += 1;
        }
        proof {
            assert(tiles@.take(i as int) =~= tiles@);
        }
        copy
    }

    /// A click on the cell at `coord`. The first tile of the rack goes onto
    /// the square, whichever square it is; with no tile in hand the square is
    /// emptied. A header, or a coordinate beyond the grid, is refused and
    /// nothing changes.
    pub fn on_cell_clicked(&mut self, coord: (usize, usize)) -> (r: Result<(), PlacementError>)
        requires
            old(self).wf(),
        ensures
            final(self).wf(),
            r == BoardGrid::spec_check_playable(coord),
            final(self)@ == after_click(old(self)@, coord),
    {
        match BoardGrid::check_playable(coord) {
            Err(e) => Err(e),
            Ok(()) => {
                if self.rack.len() > 0 {
                    let tile = self.rack.remove(0);
                    proof {
                        assert(self.rack@ =~= old(self).rack@.drop_first());
                    }
                    let _ = self.board.place(coord, tile);
                } else {
                    let _ = self.board.clear(coord);
                }
                self.selected = coord;
                Ok(())
            },
        }
    }

    /// Validates and scores the move on the board against the rack as it was
    /// drawn, and keeps the report. Bag, rack and board stay as they are.
    pub fn on_validate_move(&mut self)
        requires
            old(self).wf(),
        ensures
            final(self).wf(),
            final(self)@ == after_validate(old(self)@),
    {
        let result = validate_and_score(&self.board, &self.move_rack);
        self.last_move = Some(result);
    }

    /// The tiles not drawn yet.
    pub fn bag(&self) -> (bag: &Vec<Tile>)
        ensures
            bag@ == self@.bag,
    {
        &self.bag
    }

    /// The tiles in hand.
    pub fn rack(&self) -> (rack: &Vec<Tile>)
        ensures
            rack@ == self@.rack,
    {
        &self.rack
    }

    /// The rack as it was drawn.
    pub fn move_rack(&self) -> (rack: &Vec<Tile>)
        ensures
            rack@ == self@.move_rack,
    {
        &self.move_rack
    }

    /// The board.
    pub fn board(&self) -> (board: &BoardGrid)
        ensures
            board@ == self@.board,
    {
        &self.board
    }

    /// The coordinate chosen last.
    pub fn selected(&self) -> (coord: (usize, usize))
        ensures
            coord == self@.selected,
    {
        self.selected
    }

    /// What the last validation reported, if there was one.
    pub fn last_move(&self) -> (report: &Option<MoveResult>)
        ensures
            report_view(*report) == self@.last_move,
    {
        &self.last_move
    }
}

} // verus!
