use krabbels::board::{
    column_text, kind_at, label_at, row_text, BoardGrid, Cell, CellKind, Header, PlacementError,
    BOARD_SIZE, EMPTY_VALUE, GRID_SIDE,
};
use krabbels::tile::Tile;

fn count_kind(board: &BoardGrid, kind: CellKind) -> usize {
    board.cells().iter().filter(|c| c.cell_kind == kind).count()
}

#[test]
fn constants_are_those_of_the_game() {
    assert_eq!(BOARD_SIZE, 15);
    assert_eq!(GRID_SIDE, 16);
    assert_eq!(EMPTY_VALUE, 9);
}

#[test]
fn new_cell_is_an_empty_ordinary_square() {
    let cell = Cell::new((3, 4));
    assert_eq!(cell.coord, (3, 4));
    assert_eq!(cell.cell_kind, CellKind::Normal);
    assert_eq!(cell.label, "");
    assert_eq!(cell.letter_score, (' ', 9));
    assert!(!cell.is_occupied());
}

#[test]
fn new_board_has_all_cells_in_row_order() {
    let board = BoardGrid::new();
    let cells = board.cells();
    assert_eq!(cells.len(), 256);
    for row in 0..16 {
        for col in 0..16 {
            let cell = cells[row * 16 + col];
            assert_eq!(cell.coord, (row, col));
            assert_eq!(cell.letter_score, (' ', 9));
            assert!(!cell.is_occupied());
            assert_eq!(cell.cell_kind, kind_at(row, col));
            assert_eq!(cell.label, label_at(row, col));
        }
    }
}

#[test]
fn centre_doubles_the_word_and_shows_a_star() {
    let board = BoardGrid::new();
    let centre = board.cell((8, 8)).unwrap();
    assert_eq!(centre.cell_kind, CellKind::DoubleWord);
    assert_eq!(centre.label, "\u{2605}");
}

#[test]
fn corner_square_triples_the_word() {
    let board = BoardGrid::new();
    let cell = board.cell((1, 1)).unwrap();
    assert_eq!(cell.cell_kind, CellKind::TripleWord);
    assert_eq!(cell.label, "MT");
}

#[test]
fn row_zero_is_a_top_header() {
    let board = BoardGrid::new();
    assert_eq!(board.cell((0, 5)).unwrap().cell_kind, CellKind::Header(Header::Top));
    assert_eq!(board.cell((0, 5)).unwrap().coord.1, 5);
    assert_eq!(board.cell((0, 0)).unwrap().cell_kind, CellKind::Header(Header::Zero));
    assert_eq!(board.cell((5, 0)).unwrap().cell_kind, CellKind::Header(Header::Left));
    assert_eq!(board.cell((0, 15)).unwrap().cell_kind, CellKind::Header(Header::Top));
    assert_eq!(board.cell((15, 0)).unwrap().cell_kind, CellKind::Header(Header::Left));
    assert_eq!(board.cell((0, 5)).unwrap().label, "5");
}

#[test]
fn headers_are_captioned() {
    let board = BoardGrid::new();
    assert_eq!(board.cell((0, 0)).unwrap().label, "krabs");
    let numbers = [
        "1", "2", "3", "4", "5", "6", "7", "8", "9", "10", "11", "12", "13", "14", "15",
    ];
    let letters = ["A", "B", "C", "D", "E", "F", "G", "H", "I", "J", "K", "L", "M", "N", "O"];
    for i in 1..16 {
        assert_eq!(board.cell((0, i)).unwrap().label, numbers[i - 1]);
        assert_eq!(board.cell((0, i)).unwrap().label, i.to_string());
        assert_eq!(board.cell((i, 0)).unwrap().label, letters[i - 1]);
        assert_eq!(
            board.cell((i, 0)).unwrap().label,
            Cell::num_to_char(&i).to_string()
        );
        assert_eq!(column_text(i), numbers[i - 1]);
        assert_eq!(row_text(i), letters[i - 1]);
    }
    assert_eq!(column_text(0), "");
    assert_eq!(column_text(16), "");
    assert_eq!(row_text(0), "");
    assert_eq!(row_text(16), "");
}

#[test]
fn two_boards_have_the_same_layout() {
    let a = BoardGrid::new();
    let b = BoardGrid::new();
    assert_eq!(a.cells(), b.cells());
    for (x, y) in a.cells().iter().zip(b.cells().iter()) {
        assert_eq!(x.coord, y.coord);
        assert_eq!(x.cell_kind, y.cell_kind);
        assert_eq!(x.label, y.label);
    }
}

#[test]
fn premium_squares_are_as_many_as_the_tables_say() {
    let board = BoardGrid::new();
    assert_eq!(count_kind(&board, CellKind::DoubleLetter), 24);
    assert_eq!(count_kind(&board, CellKind::TripleLetter), 12);
    assert_eq!(count_kind(&board, CellKind::DoubleWord), 17);
    assert_eq!(count_kind(&board, CellKind::TripleWord), 8);
    assert_eq!(count_kind(&board, CellKind::Header(Header::Zero)), 1);
    assert_eq!(count_kind(&board, CellKind::Header(Header::Top)), 15);
    assert_eq!(count_kind(&board, CellKind::Header(Header::Left)), 15);
    assert_eq!(count_kind(&board, CellKind::Normal), 225 - 24 - 12 - 17 - 8);
}

#[test]
fn premium_squares_lie_where_the_tables_say() {
    let double_letter = [
        (1, 4), (1, 12), (3, 7), (3, 9), (4, 1), (4, 8), (4, 15), (7, 3), (7, 7), (7, 9),
        (7, 13), (8, 4), (8, 12), (9, 3), (9, 7), (9, 9), (9, 13), (12, 1), (12, 8), (12, 15),
        (13, 7), (13, 9), (15, 4), (15, 12),
    ];
    let triple_letter = [
        (2, 6), (2, 10), (6, 2), (6, 6), (6, 10), (6, 14), (10, 2), (10, 6), (10, 10),
        (10, 14), (14, 6), (14, 10),
    ];
    let double_word = [
        (2, 2), (2, 14), (3, 3), (3, 13), (4, 4), (4, 12), (5, 5), (5, 11), (11, 5), (11, 11),
        (12, 4), (12, 12), (13, 3), (13, 13), (14, 2), (14, 14),
    ];
    let triple_word = [(1, 1), (1, 8), (1, 15), (8, 1), (8, 15), (15, 1), (15, 8), (15, 15)];
    for (r, c) in double_letter {
        assert_eq!(kind_at(r, c), CellKind::DoubleLetter);
        assert_eq!(label_at(r, c), "LD");
    }
    for (r, c) in triple_letter {
        assert_eq!(kind_at(r, c), CellKind::TripleLetter);
        assert_eq!(label_at(r, c), "LT");
    }
    for (r, c) in double_word {
        assert_eq!(kind_at(r, c), CellKind::DoubleWord);
        assert_eq!(label_at(r, c), "MD");
    }
    for (r, c) in triple_word {
        assert_eq!(kind_at(r, c), CellKind::TripleWord);
        assert_eq!(label_at(r, c), "MT");
    }
    assert_eq!(kind_at(1, 2), CellKind::Normal);
    assert_eq!(label_at(1, 2), "");
    assert_eq!(kind_at(16, 16), CellKind::Normal);
    assert_eq!(kind_at(200, 3), CellKind::Normal);
}

#[test]
fn cell_beyond_the_grid_is_none() {
    let board = BoardGrid::new();
    assert!(board.cell((16, 1)).is_none());
    assert!(board.cell((1, 16)).is_none());
    assert!(board.cell((15, 15)).is_some());
}

#[test]
fn place_stores_letter_and_value() {
    let mut board = BoardGrid::new();
    assert_eq!(board.place((3, 4), Tile('K', 10)), Ok(()));
    let cell = board.cell((3, 4)).unwrap();
    assert_eq!(cell.letter_score, ('K', 10));
    assert!(cell.is_occupied());
    assert_eq!(cell.coord, (3, 4));
    assert_eq!(cell.cell_kind, CellKind::Normal);
    let occupied = board.cells().iter().filter(|c| c.is_occupied()).count();
    assert_eq!(occupied, 1);
}

#[test]
fn place_keeps_kind_and_label() {
    let mut board = BoardGrid::new();
    assert_eq!(board.place((8, 8), Tile('A', 1)), Ok(()));
    let cell = board.cell((8, 8)).unwrap();
    assert_eq!(cell.cell_kind, CellKind::DoubleWord);
    assert_eq!(cell.label, "\u{2605}");
    assert_eq!(cell.letter_score, ('A', 1));
}

#[test]
fn place_over_a_tile_replaces_it() {
    let mut board = BoardGrid::new();
    assert_eq!(board.place((2, 2), Tile('A', 1)), Ok(()));
    assert_eq!(board.place((2, 2), Tile('Z', 10)), Ok(()));
    assert_eq!(board.cell((2, 2)).unwrap().letter_score, ('Z', 10));
}

#[test]
fn blank_tile_occupies_its_square() {
    let mut board = BoardGrid::new();
    assert_eq!(board.place((2, 2), Tile::blank()), Ok(()));
    assert!(board.cell((2, 2)).unwrap().is_occupied());
    assert_eq!(board.cell((2, 2)).unwrap().letter_score, (' ', 0));
}

#[test]
fn clear_empties_the_square() {
    let mut board = BoardGrid::new();
    assert_eq!(board.place((3, 4), Tile('K', 10)), Ok(()));
    assert_eq!(board.clear((3, 4)), Ok(()));
    let cell = board.cell((3, 4)).unwrap();
    assert_eq!(cell.letter_score, (' ', 9));
    assert!(!cell.is_occupied());
    assert_eq!(board.clear((3, 4)), Ok(()));
    assert!(!board.cell((3, 4)).unwrap().is_occupied());
}

#[test]
fn place_on_a_header_is_refused() {
    let mut board = BoardGrid::new();
    assert_eq!(board.place((0, 0), Tile('A', 1)), Err(PlacementError::Header));
    assert_eq!(board.place((0, 5), Tile('A', 1)), Err(PlacementError::Header));
    assert_eq!(board.place((5, 0), Tile('A', 1)), Err(PlacementError::Header));
    assert_eq!(board.clear((0, 5)), Err(PlacementError::Header));
    assert!(board.cells().iter().all(|c| !c.is_occupied()));
}

#[test]
fn place_beyond_the_grid_is_refused() {
    let mut board = BoardGrid::new();
    assert_eq!(board.place((16, 1), Tile('A', 1)), Err(PlacementError::OutOfRange));
    assert_eq!(board.place((1, 16), Tile('A', 1)), Err(PlacementError::OutOfRange));
    assert_eq!(board.place((0, 16), Tile('A', 1)), Err(PlacementError::OutOfRange));
    assert_eq!(
        board.place((usize::MAX, usize::MAX), Tile('A', 1)),
        Err(PlacementError::OutOfRange)
    );
    assert_eq!(board.clear((16, 16)), Err(PlacementError::OutOfRange));
    assert!(board.cells().iter().all(|c| !c.is_occupied()));
}

#[test]
fn check_playable_tells_squares_from_the_rest() {
    assert_eq!(BoardGrid::check_playable((1, 1)), Ok(()));
    assert_eq!(BoardGrid::check_playable((15, 15)), Ok(()));
    assert_eq!(BoardGrid::check_playable((0, 1)), Err(PlacementError::Header));
    assert_eq!(BoardGrid::check_playable((16, 0)), Err(PlacementError::OutOfRange));
}

#[test]
fn rows_are_lettered_from_a() {
    assert_eq!(Cell::num_to_char(&1), 'A');
    assert_eq!(Cell::num_to_char(&2), 'B');
    assert_eq!(Cell::num_to_char(&15), 'O');
    assert_eq!(Cell::num_to_char(&26), 'Z');
}
