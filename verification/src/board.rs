//! The grid of cells: headers, premium squares, and the tiles that lie on them.

use vstd::prelude::*;
use crate::tile::Tile;

verus! {

/// Number of playable rows, and of playable columns.
pub const BOARD_SIZE: usize = 15;

/// Number of cells in one row of the grid: the playable columns and the header column.
pub const GRID_SIDE: usize = 16;

/// The value that marks a cell as holding no tile. No tile is worth this much.
pub const EMPTY_VALUE: usize = 9;

/// Which of the three kinds of header a header cell is.
#[derive(Clone, Copy, PartialEq, Eq, Structural, Debug)]
pub enum Header {
    /// The corner, at row 0 and column 0.
    Zero,
    /// Above a column: row 0.
    Top,
    /// Left of a row: column 0.
    Left,
}

/// What a cell is: a header, or a playable square with its premium.
#[derive(Clone, Copy, PartialEq, Eq, Structural, Debug)]
pub enum CellKind {
    Header(Header),
    Normal,
    DoubleLetter,
    TripleLetter,
    DoubleWord,
    TripleWord,
}

/// Why a tile could not be put on, or taken from, a coordinate.
#[derive(Clone, Copy, PartialEq, Eq, Structural, Debug)]
pub enum PlacementError {
    /// The row or the column lies beyond the grid.
    OutOfRange,
    /// The coordinate is a header cell.
    Header,
}

/// The centre square, which doubles the word and shows a star.
pub open spec fn is_center(row: int, col: int) -> bool {
    row == 8 && col == 8
}

/// The squares that double the letter on them.
pub open spec fn double_letter_squares() -> Set<(int, int)> {
    set![
        (1, 4), (1, 12), (3, 7), (3, 9), (4, 1), (4, 8), (4, 15), (7, 3),
        (7, 7), (7, 9), (7, 13), (8, 4), (8, 12), (9, 3), (9, 7), (9, 9),
        (9, 13), (12, 1), (12, 8), (12, 15), (13, 7), (13, 9), (15, 4), (15, 12)
    ]
}

/// The squares that triple the letter on them.
pub open spec fn triple_letter_squares() -> Set<(int, int)> {
    set![
        (2, 6), (2, 10), (6, 2), (6, 6), (6, 10), (6, 14),
        (10, 2), (10, 6), (10, 10), (10, 14), (14, 6), (14, 10)
    ]
}

/// The squares, other than the centre, that double the word.
pub open spec fn double_word_squares() -> Set<(int, int)> {
    set![
        (2, 2), (2, 14), (3, 3), (3, 13), (4, 4), (4, 12), (5, 5), (5, 11),
        (11, 5), (11, 11), (12, 4), (12, 12), (13, 3), (13, 13), (14, 2), (14, 14)
    ]
}

/// The squares that triple the word.
pub open spec fn triple_word_squares() -> Set<(int, int)> {
    set![(1, 1), (1, 8), (1, 15), (8, 1), (8, 15), (15, 1), (15, 8), (15, 15)]
}

/// The kind of the cell at a coordinate. Headers come first, then the centre,
/// then the four premium tables; every other coordinate is an ordinary square.
pub open spec fn premium_kind(row: int, col: int) -> CellKind {
    if row == 0 && col == 0 {
        CellKind::Header(Header::Zero)
    } else if row == 0 {
        CellKind::Header(Header::Top)
    } else if col == 0 {
        CellKind::Header(Header::Left)
    } else if is_center(row, col) {
        CellKind::DoubleWord
    } else if double_letter_squares().contains((row, col)) {
        CellKind::DoubleLetter
    } else if triple_letter_squares().contains((row, col)) {
        CellKind::TripleLetter
    } else if double_word_squares().contains((row, col)) {
        CellKind::DoubleWord
    } else if triple_word_squares().contains((row, col)) {
        CellKind::TripleWord
    } else {
        CellKind::Normal
    }
}

/// The character of the digit `d`.
pub open spec fn digit(d: int) -> char {
    (48 + d) as char
}

/// The letter that stands left of a row: `A` for row 1, `B` for row 2, and so on.
pub open spec fn row_letter(row: int) -> char {
    (65 + (row - 1)) as char
}

/// What stands above a column of the board: its number, in decimal digits.
pub open spec fn column_caption(col: int) -> Seq<char> {
    if 1 <= col <= 9 {
        seq![digit(col)]
    } else if 10 <= col <= BOARD_SIZE {
        seq![digit(1), digit(col - 10)]
    } else {
        Seq::<char>::empty()
    }
}

/// What stands left of a row of the board: its letter.
pub open spec fn row_caption(row: int) -> Seq<char> {
    if 1 <= row <= BOARD_SIZE {
        seq![row_letter(row)]
    } else {
        Seq::<char>::empty()
    }
}

/// The text that the cell at a coordinate shows while it holds no tile: the
/// caption of a header, the mark of a premium square, nothing on an ordinary
/// square.
pub open spec fn premium_label(row: int, col: int) -> Seq<char> {
    match premium_kind(row, col) {
        CellKind::Header(Header::Zero) => "krabs"@,
        CellKind::Header(Header::Top) => column_caption(col),
        CellKind::Header(Header::Left) => row_caption(row),
        CellKind::DoubleLetter => "LD"@,
        CellKind::TripleLetter => "LT"@,
        CellKind::DoubleWord => if is_center(row, col) { "\u{2605}"@ } else { "MD"@ },
        CellKind::TripleWord => "MT"@,
        CellKind::Normal => Seq::<char>::empty(),
    }
}

/// Whether a coordinate is a square of the grid on which a tile can lie.
pub open spec fn is_playable(row: int, col: int) -> bool {
    1 <= row <= BOARD_SIZE && 1 <= col <= BOARD_SIZE
}

/// One position of the grid. Outside a board a cell is a plain value; a board
/// hands its cells out for reading only, so that the coordinate, the kind and
/// the label of a cell on a board never change.
#[derive(Clone, Copy, Debug, PartialEq, Eq)]
pub struct Cell {
    /// Row and column.
    pub coord: (usize, usize),
    /// Header, ordinary square or premium square.
    pub cell_kind: CellKind,
    /// The text shown while the cell holds no tile.
    pub label: &'static str,
    /// The letter on the cell and its value; the value `EMPTY_VALUE` says that
    /// there is none.
    pub letter_score: (char, usize),
}

impl Cell {
    /// Whether the cell holds a tile.
    pub open spec fn occupied(&self) -> bool {
        self.letter_score.1 != EMPTY_VALUE
    }

    /// An ordinary, empty cell at `coord`, with no label.
    pub fn new(coord: (usize, usize)) -> (cell: Self)
        ensures
            cell.coord == coord,
            cell.cell_kind == CellKind::Normal,
            cell.label@ == Seq::<char>::empty(),
            cell.letter_score == (' ', EMPTY_VALUE),
    {
        proof {
            reveal_strlit("");
        }
        Self { coord, cell_kind: CellKind::Normal, label: "", letter_score: (' ', EMPTY_VALUE) }
    }

    /// Whether the cell holds a tile.
    pub fn is_occupied(&self) -> (held: bool)
        ensures
            held == self.occupied(),
    {
        self.letter_score.1 != EMPTY_VALUE
    }

    /// The letter for row number `num`, counted from 1.
    pub fn num_to_char(num: &usize) -> (letter: char)
        requires
            1 <= *num <= 26,
        ensures
            letter == row_letter(*num as int),
    {
        let offset: u8 = (*num - 1) as u8;
        (offset + 65u8) as char
    }

    fn set_cell_kind(&mut self, new_kind: CellKind)
        ensures
            *final(self) == (Cell { cell_kind: new_kind, ..*old(self) }),
    {
        self.cell_kind = new_kind;
    }
}

/// The kind of the cell at a coordinate.
pub fn kind_at(row: usize, col: usize) -> (kind: CellKind)
    ensures
        kind == premium_kind(row as int, col as int),
{
    match (row, col) {
        (0, 0) => CellKind::Header(Header::Zero),
        (0, _) => CellKind::Header(Header::Top),
        (_, 0) => CellKind::Header(Header::Left),
        (8, 8) => CellKind::DoubleWord,
        (1, 4) | (1, 12) | (3, 7) | (3, 9) | (4, 1) | (4, 8) | (4, 15) | (7, 3) | (7, 7)
        | (7, 9) | (7, 13) | (8, 4) | (8, 12) | (9, 3) | (9, 7) | (9, 9) | (9, 13) | (12, 1)
        | (12, 8) | (12, 15) | (13, 7) | (13, 9) | (15, 4) | (15, 12) => CellKind::DoubleLetter,
        (2, 6) | (2, 10) | (6, 2) | (6, 6) | (6, 10) | (6, 14) | (10, 2) | (10, 6) | (10, 10)
        | (10, 14) | (14, 6) | (14, 10) => CellKind::TripleLetter,
        (2, 2) | (2, 14) | (3, 3) | (3, 13) | (4, 4) | (4, 12) | (5, 5) | (5, 11) | (11, 5)
        | (11, 11) | (12, 4) | (12, 12) | (13, 3) | (13, 13) | (14, 2) | (14, 14) => {
            CellKind::DoubleWord
        },
        (1, 1) | (1, 8) | (1, 15) | (8, 1) | (8, 15) | (15, 1) | (15, 8) | (15, 15) => {
            CellKind::TripleWord
        },
        _ => CellKind::Normal,
    }
}

/// What stands above column `col` of the board.
pub fn column_text(col: usize) -> (text: &'static str)
    ensures
        text@ == column_caption(col as int),
{
    proof {
        reveal_strlit("");
        reveal_strlit("1");
        reveal_strlit("2");
        reveal_strlit("3");
        reveal_strlit("4");
        reveal_strlit("5");
        reveal_strlit("6");
        reveal_strlit("7");
        reveal_strlit("8");
        reveal_strlit("9");
        reveal_strlit("10");
        reveal_strlit("11");
        reveal_strlit("12");
        reveal_strlit("13");
        reveal_strlit("14");
        reveal_strlit("15");
    }
    match col {
        1 => "1",
        2 => "2",
        3 => "3",
        4 => "4",
        5 => "5",
        6 => "6",
        7 => "7",
        8 => "8",
        9 => "9",
        10 => "10",
        11 => "11",
        12 => "12",
        13 => "13",
        14 => "14",
        15 => "15",
        _ => "",
    }
}

/// What stands left of row `row` of the board.
pub fn row_text(row: usize) -> (text: &'static str)
    ensures
        text@ == row_caption(row as int),
{
    proof {
        reveal_strlit("");
        reveal_strlit("A");
        reveal_strlit("B");
        reveal_strlit("C");
        reveal_strlit("D");
        reveal_strlit("E");
        reveal_strlit("F");
        reveal_strlit("G");
        reveal_strlit("H");
        reveal_strlit("I");
        reveal_strlit("J");
        reveal_strlit("K");
        reveal_strlit("L");
        reveal_strlit("M");
        reveal_strlit("N");
        reveal_strlit("O");
    }
    match row {
        1 => "A",
        2 => "B",
        3 => "C",
        4 => "D",
        5 => "E",
        6 => "F",
        7 => "G",
        8 => "H",
        9 => "I",
        10 => "J",
        11 => "K",
        12 => "L",
        13 => "M",
        14 => "N",
        15 => "O",
        _ => "",
    }
}

/// The text that the cell at a coordinate shows while it holds no tile.
pub fn label_at(row: usize, col: usize) -> (label: &'static str)
    ensures
        label@ == premium_label(row as int, col as int),
{
    match kind_at(row, col) {
        CellKind::Header(Header::Zero) => "krabs",
        CellKind::Header(Header::Top) => column_text(col),
        CellKind::Header(Header::Left) => row_text(row),
        CellKind::DoubleLetter => "LD",
        CellKind::TripleLetter => "LT",
        CellKind::DoubleWord => if row == 8 && col == 8 {
            "\u{2605}"
        } else {
            "MD"
        },
        CellKind::TripleWord => "MT",
        CellKind::Normal => {
            proof {
                reveal_strlit("");
            }
            ""
        },
    }
}

/// Where the cell of a coordinate stands among the cells of the grid, which
/// are kept row after row.
pub open spec fn cell_index(row: int, col: int) -> int {
    row * GRID_SIDE + col
}

/// Whether `cell` is, but for the tile on it, the cell that the grid has at `row` and `col`.
pub open spec fn is_cell_of(cell: Cell, row: int, col: int) -> bool {
    &&& cell.coord.0 == row
    &&& cell.coord.1 == col
    &&& cell.cell_kind == premium_kind(row, col)
    &&& cell.label@ == premium_label(row, col)
}

/// `cell` with `letter_score` on it.
pub open spec fn with_letter_score(cell: Cell, letter_score: (char, usize)) -> Cell {
    Cell { letter_score, ..cell }
}

/// Whether `cells` are the cells of a grid, row after row: every cell stands
/// where its coordinate says, has the kind and the label of that coordinate,
/// and no header holds a tile.
pub open spec fn is_grid(cells: Seq<Cell>) -> bool {
    &&& cells.len() == GRID_SIDE * GRID_SIDE
    &&& forall|i: int|
        0 <= i < cells.len() ==> is_cell_of(
            #[trigger] cells[i],
            i / (GRID_SIDE as int),
            i % (GRID_SIDE as int),
        )
    &&& forall|i: int|
        0 <= i < cells.len() && (#[trigger] cells[i]).cell_kind is Header ==> !cells[i].occupied()
}

/// On a grid, the cell of a coordinate has that coordinate, and the kind and
/// the label that the tables give for it.
pub proof fn lemma_cell_at(cells: Seq<Cell>, row: int, col: int)
    requires
        is_grid(cells),
        0 <= row < GRID_SIDE,
        0 <= col < GRID_SIDE,
    ensures
        0 <= cell_index(row, col) < cells.len(),
        is_cell_of(cells[cell_index(row, col)], row, col),
{
    let i = cell_index(row, col);
    assert(i / (GRID_SIDE as int) == row && i % (GRID_SIDE as int) == col);
}

/// The layout of the grid is fixed: any two grids have, place by place, cells
/// of the same coordinate, the same kind and the same label, whatever tiles
/// lie on them.
pub proof fn lemma_layout_is_fixed(a: Seq<Cell>, b: Seq<Cell>)
    requires
        is_grid(a),
        is_grid(b),
    ensures
        a.len() == b.len(),
        forall|i: int|
            0 <= i < a.len() ==> {
                &&& (#[trigger] a[i]).coord == b[i].coord
                &&& a[i].cell_kind == b[i].cell_kind
                &&& a[i].label@ == b[i].label@
            },
{
    assert forall|i: int| 0 <= i < a.len() implies {
        &&& (#[trigger] a[i]).coord == b[i].coord
        &&& a[i].cell_kind == b[i].cell_kind
        &&& a[i].label@ == b[i].label@
    } by {
        assert(is_cell_of(a[i], i / (GRID_SIDE as int), i % (GRID_SIDE as int)));
        assert(is_cell_of(b[i], i / (GRID_SIDE as int), i % (GRID_SIDE as int)));
    }
}

/// The grid: sixteen rows of sixteen cells. Row 0 and column 0 are headers, the
/// rest are the squares of the board.
pub struct BoardGrid {
    cells: Vec<Cell>,
}

impl View for BoardGrid {
    type V = Seq<Cell>;

    /// The cells, row after row.
    closed spec fn view(&self) -> Seq<Cell> {
        self.cells@
    }
}

impl BoardGrid {
    /// The cells are those of a grid.
    pub open spec fn wf(&self) -> bool {
        is_grid(self@)
    }

    /// The cell at `row` and `col`.
    pub open spec fn spec_cell(&self, row: int, col: int) -> Cell {
        self@[cell_index(row, col)]
    }

    /// The grid with all its headers and premium squares, and no tile on it.
    pub fn new() -> (board: Self)
        ensures
            board.wf(),
            forall|i: int|
                0 <= i < board@.len() ==> (#[trigger] board@[i]).letter_score == (
                    ' ',
                    EMPTY_VALUE,
                ),
    {
        let mut cells: Vec<Cell> = Vec::new();
        let mut row: usize = 0;
        while row < GRID_SIDE
            invariant
                row <= GRID_SIDE,
                cells@.len() == row * GRID_SIDE,
                forall|i: int|
                    0 <= i < cells@.len() ==> is_cell_of(
                        #[trigger] cells@[i],
                        i / (GRID_SIDE as int),
                        i % (GRID_SIDE as int),
                    ),
                forall|i: int|
                    0 <= i < cells@.len() ==> (#[trigger] cells@[i]).letter_score == (
                        ' ',
                        EMPTY_VALUE,
                    ),
            decreases GRID_SIDE - row,
        {
            let mut col: usize = 0;
            while col < GRID_SIDE
                invariant
                    row < GRID_SIDE,
                    col <= GRID_SIDE,
                    cells@.len() == row * GRID_SIDE + col,
                    forall|i: int|
                        0 <= i < cells@.len() ==> is_cell_of(
                            #[trigger] cells@[i],
                            i / (GRID_SIDE as int),
                            i % (GRID_SIDE as int),
                        ),
                    forall|i: int|
                        0 <= i < cells@.len() ==> (#[trigger] cells@[i]).letter_score == (
                            ' ',
                            EMPTY_VALUE,
                        ),
                decreases GRID_SIDE - col,
            {
                let mut cell = Cell::new((row, col));
                cell.set_cell_kind(kind_at(row, col));
                cell.label = label_at(row, col);
                cells.push(cell);
                col += 1;
            }
            row += 1;
        }
        BoardGrid { cells }
    }

    /// The cells, row after row.
    pub fn cells(&self) -> (cells: &Vec<Cell>)
        ensures
            cells@ == self@,
    {
        &self.cells
    }

    /// The cell at `coord`, if the grid has one there.
    pub fn cell(&self, coord: (usize, usize)) -> (cell: Option<Cell>)
        requires
            self.wf(),
        ensures
            cell is Some <==> coord.0 < GRID_SIDE && coord.1 < GRID_SIDE,
            cell matches Some(c) ==> c == self.spec_cell(coord.0 as int, coord.1 as int),
    {
        if coord.0 < GRID_SIDE && coord.1 < GRID_SIDE {
            Some(self.cells[coord.0 * GRID_SIDE + coord.1])
        } else {
            None
        }
    }

    /// Whether a tile can lie on `coord`, and if not, why: beyond the grid,
    /// or else a header.
    #[verifier::when_used_as_spec(spec_check_playable)]
    pub fn check_playable(coord: (usize, usize)) -> (r: Result<(), PlacementError>)
        ensures
            r == Self::spec_check_playable(coord),
            r is Ok <==> is_playable(coord.0 as int, coord.1 as int),
    {
        if coord.0 > BOARD_SIZE || coord.1 > BOARD_SIZE {
            Err(PlacementError::OutOfRange)
        } else if coord.0 == 0 || coord.1 == 0 {
            Err(PlacementError::Header)
        } else {
            Ok(())
        }
    }

    fn write(&mut self, coord: (usize, usize), letter_score: (char, usize)) -> (r: Result<
        (),
        PlacementError,
    >)
        requires
            old(self).wf(),
        ensures
            final(self).wf(),
            r == Self::spec_check_playable(coord),
            r is Ok ==> final(self)@ == old(self)@.update(
                cell_index(coord.0 as int, coord.1 as int),
                with_letter_score(
                    old(self).spec_cell(coord.0 as int, coord.1 as int),
                    letter_score,
                ),
            ),
            r is Err ==> final(self)@ == old(self)@,
    {
        match Self::check_playable(coord) {
            Ok(()) => {
                let idx: usize = coord.0 * GRID_SIDE + coord.1;
                let mut cell = self.cells[idx];
                cell.letter_score = letter_score;
                self.cells.set(idx, cell);
                proof {
                    assert(idx as int / (GRID_SIDE as int) == coord.0);
                    assert(idx as int % (GRID_SIDE as int) == coord.1);
                    assert(!(premium_kind(coord.0 as int, coord.1 as int) is Header));
                }
                Ok(())
            },
            Err(e) => Err(e),
        }
    }

    /// What `check_playable` answers for `coord`.
    pub open spec fn spec_check_playable(coord: (usize, usize)) -> Result<(), PlacementError> {
        if coord.0 > BOARD_SIZE || coord.1 > BOARD_SIZE {
            Err(PlacementError::OutOfRange)
        } else if coord.0 == 0 || coord.1 == 0 {
            Err(PlacementError::Header)
        } else {
            Ok(())
        }
    }

    /// Puts the letter and the value of `tile` on the square at `coord`. A
    /// header or a coordinate beyond the grid is refused, and the grid stays as
    /// it was.
    pub fn place(&mut self, coord: (usize, usize), tile: Tile) -> (r: Result<(), PlacementError>)
        requires
            old(self).wf(),
        ensures
            final(self).wf(),
            r == Self::spec_check_playable(coord),
            r is Ok ==> final(self)@ == old(self)@.update(
                cell_index(coord.0 as int, coord.1 as int),
                with_letter_score(
                    old(self).spec_cell(coord.0 as int, coord.1 as int),
                    (tile.0, tile.1),
                ),
            ),
            r is Err ==> final(self)@ == old(self)@,
    {
        self.write(coord, (tile.0, tile.1))
    }

    /// Takes the tile, if any, off the square at `coord`. A header or a
    /// coordinate beyond the grid is refused, and the grid stays as it was.
    pub fn clear(&mut self, coord: (usize, usize)) -> (r: Result<(), PlacementError>)
        requires
            old(self).wf(),
        ensures
            final(self).wf(),
            r == Self::spec_check_playable(coord),
            r is Ok ==> final(self)@ == old(self)@.update(
                cell_index(coord.0 as int, coord.1 as int),
                with_letter_score(
                    old(self).spec_cell(coord.0 as int, coord.1 as int),
                    (' ', EMPTY_VALUE),
                ),
            ),
            r is Err ==> final(self)@ == old(self)@,
    {
        self.write(coord, (' ', EMPTY_VALUE))
    }
}

} // verus!
