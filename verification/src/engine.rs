//! Validation and scoring of the move that lies on the board.

use vstd::multiset::Multiset;
use vstd::prelude::*;
use vstd::relations::sorted_by;
use crate::adjacency::{
    all_adjacent, are_adjacent, chain_touching, coord_order, lemma_sorted_coords_adjacent,
};
use crate::board::{is_grid, premium_kind, BoardGrid, Cell, CellKind, EMPTY_VALUE, GRID_SIDE};
use crate::tile::{letters_of, Tile};

verus! {

/// Number of tiles in a full rack.
pub const RACK_SIZE: usize = 7;

/// Points added to a move that uses every tile of the rack.
pub const SCRABBLE_BONUS: u128 = 50;

/// What the validation of a move reports.
#[derive(Clone, Debug, PartialEq, Eq)]
pub struct MoveResult {
    /// The letters on the board, row after row.
    pub formed_word: String,
    /// Whether the rack holds every letter that lies on the board.
    pub letters_in_rack: bool,
    /// Whether the occupied squares satisfy the adjacency rule.
    pub cells_adjacent: bool,
    /// Whether the move stands: its letters are in the rack and its squares are adjacent.
    pub is_valid: bool,
    /// Whether the letters on the board use up the rack.
    pub used_all_rack_tiles: bool,
    /// The points of the move.
    pub score: u128,
}

/// A `MoveResult` as a mathematical value.
pub struct MoveView {
    pub formed_word: Seq<char>,
    pub letters_in_rack: bool,
    pub cells_adjacent: bool,
    pub is_valid: bool,
    pub used_all_rack_tiles: bool,
    pub score: nat,
}

impl View for MoveResult {
    type V = MoveView;

    open spec fn view(&self) -> MoveView {
        MoveView {
            formed_word: self.formed_word@,
            letters_in_rack: self.letters_in_rack,
            cells_adjacent: self.cells_adjacent,
            is_valid: self.is_valid,
            used_all_rack_tiles: self.used_all_rack_tiles,
            score: self.score as nat,
        }
    }
}

/// The test for a cell that holds a tile.
pub open spec fn is_placed() -> spec_fn(Cell) -> bool {
    |c: Cell| c.occupied()
}

/// The cells that hold a tile, in the order of `cells`.
pub open spec fn placed_cells(cells: Seq<Cell>) -> Seq<Cell> {
    cells.filter(is_placed())
}

/// The letters that lie on `cells`, in the order of `cells`.
pub open spec fn formed_word(cells: Seq<Cell>) -> Seq<char> {
    placed_cells(cells).map_values(|c: Cell| c.letter_score.0)
}

/// The coordinates of the cells that hold a tile, in the order of `cells`.
pub open spec fn placed_coords(cells: Seq<Cell>) -> Seq<(usize, usize)> {
    placed_cells(cells).map_values(|c: Cell| c.coord)
}

/// Whether the letters of `rack` cover the letters of `word`: each letter
/// occurs in the rack at least as often as in the word.
pub open spec fn rack_covers(word: Seq<char>, rack: Seq<Tile>) -> bool {
    word.to_multiset().subset_of(letters_of(rack).to_multiset())
}

/// Whether the letters of `word` use up `rack`: each letter occurs in the word
/// at least as often as in the rack.
pub open spec fn rack_used_up(word: Seq<char>, rack: Seq<Tile>) -> bool {
    letters_of(rack).to_multiset().subset_of(word.to_multiset())
}

/// By how much a square of this kind multiplies the letter on it.
pub open spec fn letter_factor(kind: CellKind) -> nat {
    match kind {
        CellKind::DoubleLetter => 2,
        CellKind::TripleLetter => 3,
        _ => 1,
    }
}

/// By how much a square of this kind multiplies the word that covers it.
pub open spec fn word_factor(kind: CellKind) -> nat {
    match kind {
        CellKind::DoubleWord => 2,
        CellKind::TripleWord => 3,
        _ => 1,
    }
}

/// The points that the letter on `cell` brings, none if the cell is empty.
pub open spec fn letter_points(cell: Cell) -> nat {
    if cell.occupied() {
        cell.letter_score.1 as nat * letter_factor(cell.cell_kind)
    } else {
        0
    }
}

/// By how much `cell` multiplies the word: by nothing if it is empty.
pub open spec fn cell_word_factor(cell: Cell) -> nat {
    if cell.occupied() {
        word_factor(cell.cell_kind)
    } else {
        1
    }
}

/// The sum of the letter points of `cells`.
pub open spec fn letter_sum(cells: Seq<Cell>) -> nat
    decreases cells.len(),
{
    if cells.len() == 0 {
        0
    } else {
        letter_sum(cells.drop_last()) + letter_points(cells.last())
    }
}

/// The product of the word factors of `cells`.
pub open spec fn word_multiplier(cells: Seq<Cell>) -> nat
    decreases cells.len(),
{
    if cells.len() == 0 {
        1
    } else {
        word_multiplier(cells.drop_last()) * cell_word_factor(cells.last())
    }
}

/// The points of the move that lies on `cells`, played from `rack`: the letter
/// points, times every word factor, plus the bonus if the rack is used up.
pub open spec fn move_score(cells: Seq<Cell>, rack: Seq<Tile>) -> nat {
    letter_sum(cells) * word_multiplier(cells) + if rack_used_up(formed_word(cells), rack) {
        SCRABBLE_BONUS as nat
    } else {
        0
    }
}

/// What validation reports of the move that lies on `cells`, played from `rack`.
pub open spec fn move_result(cells: Seq<Cell>, rack: Seq<Tile>) -> MoveView {
    MoveView {
        formed_word: formed_word(cells),
        letters_in_rack: rack_covers(formed_word(cells), rack),
        cells_adjacent: all_adjacent(placed_coords(cells)),
        is_valid: rack_covers(formed_word(cells), rack) && all_adjacent(placed_coords(cells)),
        used_all_rack_tiles: rack_used_up(formed_word(cells), rack),
        score: move_score(cells, rack),
    }
}

/// Adding a cell to the end of `cells` adds its letter and its coordinate to
/// the end of the word and of the coordinates if it holds a tile, and nothing
/// otherwise.
pub proof fn lemma_placed_push(cells: Seq<Cell>, cell: Cell)
    ensures
        formed_word(cells.push(cell)) == if cell.occupied() {
            formed_word(cells).push(cell.letter_score.0)
        } else {
            formed_word(cells)
        },
        placed_coords(cells.push(cell)) == if cell.occupied() {
            placed_coords(cells).push(cell.coord)
        } else {
            placed_coords(cells)
        },
{
    cells.lemma_filter_push(cell, is_placed());
    if cell.occupied() {
        assert(placed_cells(cells).push(cell).map_values(|c: Cell| c.letter_score.0)
            =~= formed_word(cells).push(cell.letter_score.0));
        assert(placed_cells(cells).push(cell).map_values(|c: Cell| c.coord) =~= placed_coords(
            cells,
        ).push(cell.coord));
    }
}

/// Whether `coord` is the coordinate of one of the first `n` cells of a grid.
pub open spec fn lies_before(coord: (usize, usize), n: int) -> bool {
    coord.1 < GRID_SIDE && coord.0 * GRID_SIDE + coord.1 < n
}

/// Among the first `n` cells of a grid, the occupied ones have their
/// coordinates in order, by row and then by column.
proof fn lemma_placed_coords_in_order(cells: Seq<Cell>, n: int)
    requires
        is_grid(cells),
        0 <= n <= cells.len(),
    ensures
        sorted_by(placed_coords(cells.take(n)), coord_order()),
        forall|k: int|
            0 <= k < placed_coords(cells.take(n)).len() ==> lies_before(
                #[trigger] placed_coords(cells.take(n))[k],
                n,
            ),
    decreases n,
{
    if n == 0 {
        reveal(Seq::filter);
        assert(placed_coords(cells.take(0)) =~= Seq::<(usize, usize)>::empty());
    } else {
        let m = n - 1;
        let cell = cells[m];
        lemma_placed_coords_in_order(cells, m);
        assert(cells.take(n) =~= cells.take(m).push(cell));
        lemma_placed_push(cells.take(m), cell);
        assert(crate::board::is_cell_of(cell, m / (GRID_SIDE as int), m % (GRID_SIDE as int)));
        let earlier = placed_coords(cells.take(m));
        let now = placed_coords(cells.take(n));
        assert forall|k: int| 0 <= k < now.len() implies lies_before(#[trigger] now[k], n) by {
            if k < earlier.len() {
                assert(lies_before(earlier[k], m));
            }
        }
        assert forall|i: int, j: int| 0 <= i < j < now.len() implies #[trigger] coord_order()(
            now[i],
            now[j],
        ) by {
            if j < earlier.len() {
                assert(coord_order()(earlier[i], earlier[j]));
            } else {
                assert(lies_before(earlier[i], m));
                assert(now[j] == cell.coord);
            }
        }
    }
}

/// On a grid the squares are read in order, so the adjacency rule compares
/// each occupied square with the occupied square that is read next.
pub proof fn lemma_adjacency_on_grid(cells: Seq<Cell>)
    requires
        is_grid(cells),
    ensures
        sorted_by(placed_coords(cells), coord_order()),
        all_adjacent(placed_coords(cells)) == chain_touching(placed_coords(cells)),
{
    lemma_placed_coords_in_order(cells, cells.len() as int);
    assert(cells.take(cells.len() as int) =~= cells);
    lemma_sorted_coords_adjacent(placed_coords(cells));
}

/// The letters and the coordinates of the occupied cells of the board, row
/// after row.
pub fn placed_letters(board: &BoardGrid) -> (placed: (Vec<char>, Vec<(usize, usize)>))
    ensures
        placed.0@ == formed_word(board@),
        placed.1@ == placed_coords(board@),
{
    let cells = board.cells();
    let mut word: Vec<char> = Vec::new();
    let mut cells_coords: Vec<(usize, usize)> = Vec::new();
    proof {
        reveal(Seq::filter);
        assert(cells@.take(0).len() == 0);
        assert(formed_word(cells@.take(0)) =~= Seq::<char>::empty());
        assert(placed_coords(cells@.take(0)) =~= Seq::<(usize, usize)>::empty());
    }
    let mut i: usize = 0;
    while i < cells.len()
        invariant
            i <= cells@.len(),
            word@ == formed_word(cells@.take(i as int)),
            cells_coords@ == placed_coords(cells@.take(i as int)),
        decreases cells.len() - i,
    {
        let cell = cells[i];
        proof {
            assert(cells@.take(i + 1) =~= cells@.take(i as int).push(cell));
            lemma_placed_push(cells@.take(i as int), cell);
        }
        if cell.letter_score.1 != EMPTY_VALUE {
            word.push(cell.letter_score.0);
            cells_coords.push(cell.coord);
        }
        i += 1;
    }
    proof {
        assert(cells@.take(i as int) =~= cells@);
    }
    (word, cells_coords)
}

/// Where `letter` first stands in `letters`, if it stands there at all.
pub fn position_of(letters: &Vec<char>, letter: char) -> (found: Option<usize>)
    ensures
        found is None <==> !letters@.contains(letter),
        found matches Some(i) ==> i < letters@.len() && letters@[i as int] == letter && forall|
            j: int,
        | 0 <= j < i ==> letters@[j] != letter,
{
    let mut i: usize = 0;
    while i < letters.len()
        invariant
            i <= letters@.len(),
            forall|j: int| 0 <= j < i ==> letters@[j] != letter,
        decreases letters.len() - i,
    {
        if letters[i] == letter {
            return Some(i);
        }
        i += 1;
    }
    None
}

/// The letters of the tiles of a rack, in the order of the rack.
pub fn rack_letters(rack: &Vec<Tile>) -> (letters: Vec<char>)
    ensures
        letters@ == letters_of(rack@),
{
    let mut letters: Vec<char> = Vec::new();
    let mut i: usize = 0;
    while i < rack.len()
        invariant
            i <= rack@.len(),
            letters@.len() == i,
            forall|j: int| 0 <= j < i ==> letters@[j] == rack@[j].0,
        decreases rack.len() - i,
    {
        letters.push(rack[i].0);
        i += 1;
    }
    proof {
        assert(letters@ =~= letters_of(rack@));
    }
    letters
}

/// Taking a tile with `letter` out of what is left of the rack, after the
/// letters `seen` were served, leaves what is left after `letter` is served
/// too; and the letters served are covered as before.
proof fn lemma_letter_served(
    left: Seq<char>,
    all: Multiset<char>,
    seen: Multiset<char>,
    idx: int,
)
    requires
        left.to_multiset() == all.sub(seen),
        0 <= idx < left.len(),
    ensures
        left.remove(idx).to_multiset() == all.sub(seen.insert(left[idx])),
        seen.insert(left[idx]).subset_of(all) == seen.subset_of(all),
{
    broadcast use vstd::multiset::group_multiset_axioms;

    let letter = left[idx];
    vstd::seq_lib::to_multiset_remove(left, idx);
    vstd::seq_lib::to_multiset_contains(left, letter);
    assert(left.contains(letter));
    assert(all.sub(seen).count(letter) > 0);
    assert(left.to_multiset().remove(letter) =~= all.sub(seen.insert(letter)));
    if seen.subset_of(all) {
        assert forall|c: char| seen.insert(letter).count(c) <= all.count(c) by {
            assert(seen.count(c) <= all.count(c));
        }
    } else {
        let c = choose|c: char| seen.count(c) > all.count(c);
        assert(seen.insert(letter).count(c) > all.count(c));
    }
}

/// When no tile with `letter` is left of the rack, after the letters `seen`
/// were served, then with `letter` the letters are no longer covered, and what
/// is left stays.
proof fn lemma_letter_missed(
    left: Seq<char>,
    all: Multiset<char>,
    seen: Multiset<char>,
    letter: char,
)
    requires
        left.to_multiset() == all.sub(seen),
        !left.contains(letter),
    ensures
        left.to_multiset() == all.sub(seen.insert(letter)),
        !seen.insert(letter).subset_of(all),
{
    broadcast use vstd::multiset::group_multiset_axioms;

    vstd::seq_lib::to_multiset_contains(left, letter);
    assert(all.sub(seen).count(letter) == 0);
    assert(seen.insert(letter).count(letter) > all.count(letter));
    assert(left.to_multiset() =~= all.sub(seen.insert(letter)));
}

/// Nothing is left of the rack, after the letters `seen` were served, exactly
/// when the letters served use the rack up.
proof fn lemma_rack_left(left: Seq<char>, all: Multiset<char>, seen: Multiset<char>)
    requires
        left.to_multiset() == all.sub(seen),
    ensures
        left.len() == 0 <==> all.subset_of(seen),
{
    broadcast use vstd::multiset::group_multiset_axioms;

    if left.len() == 0 {
        vstd::seq_lib::to_multiset_len(left);
        vstd::multiset::lemma_multiset_empty_len(left.to_multiset());
        assert forall|c: char| all.count(c) <= seen.count(c) by {
            assert(all.sub(seen).count(c) == 0);
        }
    } else {
        vstd::seq_lib::to_multiset_contains(left, left[0]);
        assert(left.contains(left[0]));
        assert(all.sub(seen).count(left[0]) > 0);
        assert(all.count(left[0]) > seen.count(left[0]));
    }
}

/// Holds the letters of a word against a rack. Each letter of the word, in
/// turn, takes one tile with that letter from a copy of the rack, if there is
/// one left. The first answer says whether every letter found its tile, the
/// second whether no tile is left over.
pub fn check_rack(word: &Vec<char>, rack: &Vec<Tile>) -> (answer: (bool, bool))
    ensures
        answer.0 == rack_covers(word@, rack@),
        answer.1 == rack_used_up(word@, rack@),
{
    let mut in_rack = true;
    let mut left = rack_letters(rack);
    let ghost all = letters_of(rack@).to_multiset();
    proof {
        broadcast use vstd::multiset::group_multiset_axioms;

        vstd::seq_lib::to_multiset_len(word@.take(0));
        vstd::multiset::lemma_multiset_empty_len(word@.take(0).to_multiset());
        assert(left@.to_multiset() =~= all.sub(word@.take(0).to_multiset()));
    }
    let mut i: usize = 0;
    while i < word.len()
        invariant
            i <= word@.len(),
            all == letters_of(rack@).to_multiset(),
            left@.to_multiset() == all.sub(word@.take(i as int).to_multiset()),
            in_rack == word@.take(i as int).to_multiset().subset_of(all),
        decreases word.len() - i,
    {
        let letter = word[i];
        let ghost seen = word@.take(i as int).to_multiset();
        proof {
            assert(word@.take(i + 1) =~= word@.take(i as int).push(letter));
            vstd::seq_lib::to_multiset_build(word@.take(i as int), letter);
        }
        match position_of(&left, letter) {
            Some(idx) => {
                proof {
                    lemma_letter_served(left@, all, seen, idx as int);
                }
                left.remove(idx);
            },
            None => {
                proof {
                    lemma_letter_missed(left@, all, seen, letter);
                }
                in_rack = false;
            },
        }
        i += 1;
    }
    proof {
        assert(word@.take(i as int) =~= word@);
        lemma_rack_left(left@, all, word@.to_multiset());
    }
    (in_rack, left.len() == 0)
}

/// The largest product of word factors that the board allows: that of its
/// seventeen doubling and eight tripling squares.
pub const MAX_WORD_MULTIPLIER: u128 = 859_963_392;

/// The word factor of the square at `row` and `col`, read off the pattern in
/// which the word squares lie: the tripling ones where rows 1, 8 and 15 meet
/// columns 1, 8 and 15, the doubling ones on the two diagonals, four from each
/// corner, and in the centre.
pub open spec fn word_factor_at(row: int, col: int) -> nat {
    if row <= 0 || col <= 0 {
        1
    } else if row == 8 && col == 8 {
        2
    } else if (row == 1 || row == 8 || row == 15) && (col == 1 || col == 8 || col == 15) {
        3
    } else if (row == col || row + col == 16) && (2 <= row <= 5 || 11 <= row <= 14) {
        2
    } else {
        1
    }
}

/// The pattern of `word_factor_at` is that of the tables of premium squares.
pub proof fn lemma_word_factor_at(row: int, col: int)
    requires
        0 <= row,
        0 <= col,
    ensures
        word_factor(premium_kind(row, col)) == word_factor_at(row, col),
{
}

/// The product of the word factors of the first `n` squares of the grid, row
/// after row, as if each held a tile.
pub open spec fn full_multiplier(n: nat) -> nat
    decreases n,
{
    if n == 0 {
        1
    } else {
        let before = full_multiplier((n - 1) as nat);
        let factor = word_factor_at((n - 1) / (GRID_SIDE as int), (n - 1) % (GRID_SIDE as int));
        if factor == 3 {
            3 * before
        } else if factor == 2 {
            2 * before
        } else {
            before
        }
    }
}

/// The product of the word factors of the first 64 squares of the grid.
proof fn lemma_full_multiplier_rows_0_to_3()
    ensures
        full_multiplier(64) == 432,
{
    assert(full_multiplier(8) == 1) by {
        reveal_with_fuel(full_multiplier, 9);
    }
    assert(full_multiplier(16) == 1) by {
        reveal_with_fuel(full_multiplier, 9);
    }
    assert(full_multiplier(24) == 3) by {
        reveal_with_fuel(full_multiplier, 9);
    }
    assert(full_multiplier(32) == 27) by {
        reveal_with_fuel(full_multiplier, 9);
    }
    assert(full_multiplier(40) == 54) by {
        reveal_with_fuel(full_multiplier, 9);
    }
    assert(full_multiplier(48) == 108) by {
        reveal_with_fuel(full_multiplier, 9);
    }
    assert(full_multiplier(56) == 216) by {
        reveal_with_fuel(full_multiplier, 9);
    }
    assert(full_multiplier(64) == 432) by {
        reveal_with_fuel(full_multiplier, 9);
    }
}

/// The product of the word factors of the first 128 squares of the grid.
proof fn lemma_full_multiplier_rows_4_to_7()
    requires
        full_multiplier(64) == 432,
    ensures
        full_multiplier(128) == 6912,
{
    assert(full_multiplier(72) == 864) by {
        reveal_with_fuel(full_multiplier, 9);
    }
    assert(full_multiplier(80) == 1728) by {
        reveal_with_fuel(full_multiplier, 9);
    }
    assert(full_multiplier(88) == 3456) by {
        reveal_with_fuel(full_multiplier, 9);
    }
    assert(full_multiplier(96) == 6912) by {
        reveal_with_fuel(full_multiplier, 9);
    }
    assert(full_multiplier(104) == 6912) by {
        reveal_with_fuel(full_multiplier, 9);
    }
    assert(full_multiplier(112) == 6912) by {
        reveal_with_fuel(full_multiplier, 9);
    }
    assert(full_multiplier(120) == 6912) by {
        reveal_with_fuel(full_multiplier, 9);
    }
    assert(full_multiplier(128) == 6912) by {
        reveal_with_fuel(full_multiplier, 9);
    }
}

/// The product of the word factors of the first 192 squares of the grid.
proof fn lemma_full_multiplier_rows_8_to_11()
    requires
        full_multiplier(128) == 6912,
    ensures
        full_multiplier(192) == 497664,
{
    assert(full_multiplier(136) == 20736) by {
        reveal_with_fuel(full_multiplier, 9);
    }
    assert(full_multiplier(144) == 124416) by {
        reveal_with_fuel(full_multiplier, 9);
    }
    assert(full_multiplier(152) == 124416) by {
        reveal_with_fuel(full_multiplier, 9);
    }
    assert(full_multiplier(160) == 124416) by {
        reveal_with_fuel(full_multiplier, 9);
    }
    assert(full_multiplier(168) == 124416) by {
        reveal_with_fuel(full_multiplier, 9);
    }
    assert(full_multiplier(176) == 124416) by {
        reveal_with_fuel(full_multiplier, 9);
    }
    assert(full_multiplier(184) == 248832) by {
        reveal_with_fuel(full_multiplier, 9);
    }
    assert(full_multiplier(192) == 497664) by {
        reveal_with_fuel(full_multiplier, 9);
    }
}

/// The product of the word factors of the first 256 squares of the grid.
proof fn lemma_full_multiplier_rows_12_to_15()
    requires
        full_multiplier(192) == 497664,
    ensures
        full_multiplier(256) == 859963392,
{
    assert(full_multiplier(200) == 995328) by {
        reveal_with_fuel(full_multiplier, 9);
    }
    assert(full_multiplier(208) == 1990656) by {
        reveal_with_fuel(full_multiplier, 9);
    }
    assert(full_multiplier(216) == 3981312) by {
        reveal_with_fuel(full_multiplier, 9);
    }
    assert(full_multiplier(224) == 7962624) by {
        reveal_with_fuel(full_multiplier, 9);
    }
    assert(full_multiplier(232) == 15925248) by {
        reveal_with_fuel(full_multiplier, 9);
    }
    assert(full_multiplier(240) == 31850496) by {
        reveal_with_fuel(full_multiplier, 9);
    }
    assert(full_multiplier(248) == 95551488) by {
        reveal_with_fuel(full_multiplier, 9);
    }
    assert(full_multiplier(256) == 859963392) by {
        reveal_with_fuel(full_multiplier, 9);
    }
}

/// The word factors of the whole grid multiply to `MAX_WORD_MULTIPLIER`.
pub proof fn lemma_full_multiplier_of_grid()
    ensures
        full_multiplier(256) == MAX_WORD_MULTIPLIER,
{
    lemma_full_multiplier_rows_0_to_3();
    lemma_full_multiplier_rows_4_to_7();
    lemma_full_multiplier_rows_8_to_11();
    lemma_full_multiplier_rows_12_to_15();
}

/// The product over fewer squares is no larger, and never less than 1.
pub proof fn lemma_full_multiplier_grows(n: nat, m: nat)
    requires
        n <= m,
    ensures
        1 <= full_multiplier(n) <= full_multiplier(m),
    decreases m,
{
    if m > 0 {
        let k = (m - 1) as nat;
        lemma_full_multiplier_grows(if n <= k { n } else { k }, k);
    }
}

/// Whether each of `cells` has the kind of the square where it stands in the grid.
pub open spec fn kinds_of_grid(cells: Seq<Cell>) -> bool {
    forall|i: int|
        0 <= i < cells.len() ==> (#[trigger] cells[i]).cell_kind == premium_kind(
            i / (GRID_SIDE as int),
            i % (GRID_SIDE as int),
        )
}

/// On the grid, the word factors of the first `n` cells multiply to no more
/// than those of the first `n` squares would if each held a tile.
pub proof fn lemma_word_multiplier_bound(cells: Seq<Cell>, n: nat)
    requires
        kinds_of_grid(cells),
        n <= cells.len(),
    ensures
        1 <= word_multiplier(cells.take(n as int)) <= full_multiplier(n),
    decreases n,
{
    if n == 0 {
    } else {
        let m = (n - 1) as nat;
        lemma_word_multiplier_bound(cells, m);
        assert(cells.take(n as int).drop_last() =~= cells.take(m as int));
        assert(cells.take(n as int).last() == cells[m as int]);
        lemma_word_factor_at(m as int / (GRID_SIDE as int), m as int % (GRID_SIDE as int));
        let before = word_multiplier(cells.take(m as int));
        let factor = cell_word_factor(cells[m as int]);
        let full_before = full_multiplier(m);
        let full_factor = word_factor_at(m as int / (GRID_SIDE as int), m as int % (GRID_SIDE as int));
        assert(1 <= factor <= full_factor <= 3);
        assert(full_multiplier(n) == full_before * full_factor) by {
            if full_factor == 3 {
            } else if full_factor == 2 {
            } else {
            }
        }
        assert(1 <= before * factor <= full_before * full_factor) by (nonlinear_arith)
            requires
                1 <= before <= full_before,
                1 <= factor <= full_factor,
        ;
    }
}

/// The letter points of `cells` sum to no more than three times the largest
/// value for each cell.
pub proof fn lemma_letter_sum_bound(cells: Seq<Cell>)
    ensures
        letter_sum(cells) <= cells.len() * (3 * usize::MAX),
    decreases cells.len(),
{
    if cells.len() > 0 {
        lemma_letter_sum_bound(cells.drop_last());
        let cell = cells.last();
        assert(letter_points(cell) <= 3 * usize::MAX) by (nonlinear_arith)
            requires
                letter_points(cell) == 0 || letter_points(cell) == cell.letter_score.1
                    * letter_factor(cell.cell_kind),
                letter_factor(cell.cell_kind) <= 3,
                cell.letter_score.1 <= usize::MAX,
        ;
        assert(cells.len() * (3 * usize::MAX) == (cells.len() - 1) * (3 * usize::MAX) + 3
            * usize::MAX) by (nonlinear_arith);
    }
}

/// By how much a square of this kind multiplies the letter on it.
pub fn letter_factor_of(kind: CellKind) -> (factor: u128)
    ensures
        factor == letter_factor(kind),
{
    match kind {
        CellKind::DoubleLetter => 2,
        CellKind::TripleLetter => 3,
        _ => 1,
    }
}

/// By how much a square of this kind multiplies the word that covers it.
pub fn word_factor_of(kind: CellKind) -> (factor: u128)
    ensures
        factor == word_factor(kind),
{
    match kind {
        CellKind::DoubleWord => 2,
        CellKind::TripleWord => 3,
        _ => 1,
    }
}

/// The points of the letters on the board before any bonus: the sum of the
/// letter points, multiplied by the word factor of each occupied square in turn.
pub fn board_points(board: &BoardGrid) -> (points: u128)
    requires
        board.wf(),
    ensures
        points == letter_sum(board@) * word_multiplier(board@),
        points <= 256 * (3 * usize::MAX) * MAX_WORD_MULTIPLIER,
{
    let cells = board.cells();
    let mut score: u128 = 0;
    let mut i: usize = 0;
    while i < cells.len()
        invariant
            i <= cells@.len(),
            cells@.len() == 256,
            score == letter_sum(cells@.take(i as int)),
            score <= i * (3 * usize::MAX),
        decreases cells.len() - i,
    {
        let cell = cells[i];
        proof {
            assert(cells@.take(i + 1).drop_last() =~= cells@.take(i as int));
            assert(cells@.take(i + 1).last() == cell);
            lemma_letter_sum_bound(cells@.take(i + 1));
        }
        if cell.letter_score.1 != EMPTY_VALUE {
            let factor = letter_factor_of(cell.cell_kind);
            assert(cell.letter_score.1 * factor <= 3 * usize::MAX && i * (3 * usize::MAX) <= 255
                * (3 * usize::MAX)) by (nonlinear_arith)
                requires
                    factor <= 3,
                    cell.letter_score.1 <= usize::MAX,
                    i <= 255,
            ;
            score = score + (cell.letter_score.1 as u128) * factor;
        }
        i += 1;
    }
    proof {
        assert(cells@.take(i as int) =~= cells@);
        assert(kinds_of_grid(cells@));
        lemma_full_multiplier_of_grid();
        assert(word_multiplier(cells@.take(0)) == 1);
        assert(score * 1 == score) by (nonlinear_arith);
    }
    let ghost letters = score as nat;
    let mut j: usize = 0;
    while j < cells.len()
        invariant
            j <= cells@.len(),
            cells@.len() == 256,
            kinds_of_grid(cells@),
            letters == letter_sum(cells@),
            letters <= 256 * (3 * usize::MAX),
            full_multiplier(256) == MAX_WORD_MULTIPLIER,
            score == letters * word_multiplier(cells@.take(j as int)),
        decreases cells.len() - j,
    {
        let cell = cells[j];
        proof {
            assert(cells@.take(j + 1).drop_last() =~= cells@.take(j as int));
            assert(cells@.take(j + 1).last() == cell);
            lemma_word_multiplier_bound(cells@, (j + 1) as nat);
            lemma_full_multiplier_grows((j + 1) as nat, 256);
            let before = word_multiplier(cells@.take(j as int));
            let after = word_multiplier(cells@.take(j + 1));
            let factor = cell_word_factor(cell);
            assert(letters * after == score * factor && letters * after <= 256 * (3 * usize::MAX)
                * MAX_WORD_MULTIPLIER && score * 1 == score) by (nonlinear_arith)
                requires
                    score == letters * before,
                    after == before * factor,
                    after <= MAX_WORD_MULTIPLIER,
                    letters <= 256 * (3 * usize::MAX),
            ;
        }
        if cell.letter_score.1 != EMPTY_VALUE {
            score = score * word_factor_of(cell.cell_kind);
        }
        j += 1;
    }
    proof {
        assert(cells@.take(j as int) =~= cells@);
        lemma_word_multiplier_bound(cells@, 256);
        assert(letters * word_multiplier(cells@) <= 256 * (3 * usize::MAX) * MAX_WORD_MULTIPLIER)
            by (nonlinear_arith)
            requires
                word_multiplier(cells@) <= MAX_WORD_MULTIPLIER,
                letters <= 256 * (3 * usize::MAX),
        ;
    }
    score
}

/// `String::push` of std appends the character to the end of the string.
pub assume_specification[ String::push ](word: &mut String, letter: char)
    ensures
        final(word)@ == old(word)@.push(letter),
;

/// The word that the letters spell.
pub fn word_of(letters: &Vec<char>) -> (word: String)
    ensures
        word@ == letters@,
{
    let mut word = String::new();
    let mut i: usize = 0;
    while i < letters.len()
        invariant
            i <= letters@.len(),
            word@ == letters@.take(i as int),
        decreases letters.len() - i,
    {
        word.push(letters[i]);
        proof {
            assert(letters@.take(i + 1) =~= letters@.take(i as int).push(letters@[i as int]));
        }
        i += 1;
    }
    proof {
        assert(letters@.take(i as int) =~= letters@);
    }
    word
}

/// Validates the move that lies on the board, played from `rack`, and scores
/// it. The letters on the board are read row after row; they must all be in
/// the rack, and their squares must satisfy the adjacency rule. The score is
/// given whether or not the move stands. Neither the board nor the rack is
/// changed.
pub fn validate_and_score(board: &BoardGrid, rack: &Vec<Tile>) -> (result: MoveResult)
    requires
        board.wf(),
    ensures
        result@ == move_result(board@, rack@),
{
    let (letters, cells_coords) = placed_letters(board);
    let (in_rack, scrabble) = check_rack(&letters, rack);
    let adjacent = are_adjacent(cells_coords.as_slice());
    let mut score = board_points(board);
    if scrabble {
        score = score + SCRABBLE_BONUS;
    }
    MoveResult {
        formed_word: word_of(&letters),
        letters_in_rack: in_rack,
        cells_adjacent: adjacent,
        is_valid: in_rack && adjacent,
        used_all_rack_tiles: scrabble,
        score,
    }
}

/// Validation reads and does not write, so it can be repeated: any two
/// reports on the same board and rack are the same report.
pub proof fn lemma_validation_repeats(
    first: MoveResult,
    second: MoveResult,
    cells: Seq<Cell>,
    rack: Seq<Tile>,
)
    requires
        first@ == move_result(cells, rack),
        second@ == move_result(cells, rack),
    ensures
        first@ == second@,
{
}

/// A move whose letters are the letters of the rack, each as often as the rack
/// has it, is covered by the rack, uses the rack up, and earns the bonus on
/// top of its points.
pub proof fn lemma_rack_exhausted(cells: Seq<Cell>, rack: Seq<Tile>)
    requires
        formed_word(cells).to_multiset() == letters_of(rack).to_multiset(),
    ensures
        move_result(cells, rack).letters_in_rack,
        move_result(cells, rack).used_all_rack_tiles,
        move_result(cells, rack).score == letter_sum(cells) * word_multiplier(cells)
            + SCRABBLE_BONUS,
{
}

/// A move with fewer letters than the rack has tiles leaves tiles over, and
/// earns no bonus.
pub proof fn lemma_leftover_no_bonus(cells: Seq<Cell>, rack: Seq<Tile>)
    requires
        formed_word(cells).len() < rack.len(),
    ensures
        !move_result(cells, rack).used_all_rack_tiles,
        move_result(cells, rack).score == letter_sum(cells) * word_multiplier(cells),
{
    broadcast use vstd::multiset::group_multiset_axioms;

    let word = formed_word(cells).to_multiset();
    let all = letters_of(rack).to_multiset();
    vstd::seq_lib::to_multiset_len(formed_word(cells));
    vstd::seq_lib::to_multiset_len(letters_of(rack));
    if all.subset_of(word) {
        assert(word =~= all.add(word.sub(all)));
        assert(word.len() == all.len() + word.sub(all).len());
    }
}

} // verus!
