use krabbels::adjacency::{are_adjacent, is_touching};

#[test]
fn single_tile_is_adjacent() {
    assert!(are_adjacent(&[(2, 2)]));
}

#[test]
fn horizontal_run_is_adjacent() {
    assert!(are_adjacent(&[(2, 2), (2, 3), (2, 4)]));
}

#[test]
fn vertical_pair_is_adjacent() {
    assert!(are_adjacent(&[(2, 2), (3, 2)]));
}

#[test]
fn gap_is_not_adjacent() {
    assert!(!are_adjacent(&[(2, 2), (4, 2)]));
}

#[test]
fn diagonal_is_not_adjacent() {
    assert!(!are_adjacent(&[(2, 2), (3, 3)]));
}

#[test]
fn no_tile_is_adjacent() {
    assert!(are_adjacent(&[]));
}

#[test]
fn coordinates_are_sorted_before_they_are_compared() {
    assert!(are_adjacent(&[(2, 4), (2, 2), (2, 3)]));
    assert!(are_adjacent(&[(5, 7), (3, 7), (4, 7)]));
    assert!(!are_adjacent(&[(2, 5), (2, 2), (2, 3)]));
}

#[test]
fn only_neighbours_in_sorted_order_are_compared() {
    // A corner: each coordinate is a neighbour of the next one in sorted order.
    assert!(are_adjacent(&[(2, 2), (2, 3), (3, 3)]));
    // A vertical run of three is sorted row by row, so it passes too.
    assert!(are_adjacent(&[(2, 2), (3, 2), (4, 2)]));
    // The other corner does not: (2, 2) is followed by (3, 2), then by (3, 3).
    assert!(are_adjacent(&[(2, 2), (3, 2), (3, 3)]));
    // Here (2, 3) is followed by (3, 2), which is no neighbour of it.
    assert!(!are_adjacent(&[(2, 2), (2, 3), (3, 2)]));
}

#[test]
fn a_coordinate_given_twice_is_not_adjacent_to_itself() {
    assert!(!are_adjacent(&[(2, 2), (2, 2)]));
}

#[test]
fn touching_is_one_step_in_one_direction() {
    assert!(is_touching((2, 2), (2, 3)));
    assert!(is_touching((2, 3), (2, 2)));
    assert!(is_touching((2, 2), (3, 2)));
    assert!(is_touching((3, 2), (2, 2)));
    assert!(!is_touching((2, 2), (2, 2)));
    assert!(!is_touching((2, 2), (2, 4)));
    assert!(!is_touching((2, 2), (3, 3)));
    assert!(!is_touching((0, 0), (usize::MAX, 0)));
    assert!(is_touching((usize::MAX, 5), (usize::MAX - 1, 5)));
}
