use krabbels::bag::{Bag, BAG_SIZE};
use krabbels::tile::Tile;

fn count_of(tiles: &[Tile], letter: char, value: usize) -> usize {
    tiles.iter().filter(|t| t.0 == letter && t.1 == value).count()
}

fn sorted(tiles: &[Tile]) -> Vec<(char, usize)> {
    let mut v: Vec<(char, usize)> = tiles.iter().map(|t| (t.0, t.1)).collect();
    v.sort();
    v
}

#[test]
fn new_bag_holds_the_canonical_distribution() {
    let bag = Bag::new().0;
    let table: [(char, usize, usize); 27] = [
        ('A', 1, 9),
        ('B', 3, 2),
        ('C', 3, 2),
        ('D', 2, 3),
        ('E', 1, 15),
        ('F', 4, 2),
        ('G', 2, 2),
        ('H', 4, 2),
        ('I', 1, 8),
        ('J', 8, 1),
        ('K', 10, 1),
        ('L', 1, 5),
        ('M', 2, 3),
        ('N', 1, 6),
        ('O', 1, 6),
        ('P', 3, 2),
        ('Q', 8, 1),
        ('R', 1, 6),
        ('S', 1, 6),
        ('T', 1, 6),
        ('U', 1, 6),
        ('V', 4, 2),
        ('W', 10, 1),
        ('X', 10, 1),
        ('Y', 10, 1),
        ('Z', 10, 1),
        (' ', 0, 2),
    ];
    let mut total = 0;
    for (letter, value, count) in table {
        assert_eq!(count_of(&bag, letter, value), count, "letter {:?}", letter);
        total += count;
    }
    assert_eq!(bag.len(), total);
    assert_eq!(bag.len(), BAG_SIZE);
    assert_eq!(bag.len(), 102);
}

#[test]
fn new_bag_is_laid_out_letter_after_letter() {
    let bag = Bag::new().0;
    assert_eq!(bag[0], Tile('A', 1));
    assert_eq!(bag[8], Tile('A', 1));
    assert_eq!(bag[9], Tile('B', 3));
    assert_eq!(bag[11], Tile('C', 3));
    assert_eq!(bag[99], Tile('Z', 10));
    assert_eq!(bag[100], Tile(' ', 0));
    assert_eq!(bag[101], Tile(' ', 0));
}

#[test]
fn extend_run_appends_equal_tiles() {
    let mut bag = vec![Tile('Q', 8)];
    Bag::extend_run(&mut bag, 'E', 1, 3);
    assert_eq!(bag, vec![Tile('Q', 8), Tile('E', 1), Tile('E', 1), Tile('E', 1)]);
    Bag::extend_run(&mut bag, 'Z', 10, 0);
    assert_eq!(bag.len(), 4);
}

#[test]
fn draw_conserves_the_tiles() {
    let mut bag = Bag::new().0;
    let before = bag.clone();
    let rack = Bag::draw_tiles(7, &mut bag);
    assert_eq!(rack.len(), 7);
    assert_eq!(bag.len() + rack.len(), before.len());
    let mut together = bag.clone();
    together.extend(rack.iter().copied());
    assert_eq!(sorted(&together), sorted(&before));
    for tile in &rack {
        assert!(before.contains(tile));
    }
}

#[test]
fn draw_keeps_the_order_of_what_is_left() {
    let mut bag = Bag::new().0;
    let before = bag.clone();
    let rack = Bag::draw_tiles(20, &mut bag);
    let mut expected = before.clone();
    for tile in &rack {
        let at = expected.iter().position(|t| t.0 == tile.0).unwrap();
        assert_eq!(expected.remove(at), *tile);
    }
    assert_eq!(bag, expected);
}

#[test]
fn draw_from_an_empty_bag_gives_nothing() {
    let mut bag: Vec<Tile> = Vec::new();
    let rack = Bag::draw_tiles(7, &mut bag);
    assert!(rack.is_empty());
    assert!(bag.is_empty());
}

#[test]
fn draw_of_nothing_changes_nothing() {
    let mut bag = Bag::new().0;
    let rack = Bag::draw_tiles(0, &mut bag);
    assert!(rack.is_empty());
    assert_eq!(bag, Bag::new().0);
}

#[test]
fn draw_gives_what_is_left_when_the_bag_is_short() {
    let mut bag = vec![Tile('A', 1), Tile('B', 3), Tile('A', 1)];
    let rack = Bag::draw_tiles(7, &mut bag);
    assert_eq!(rack.len(), 3);
    assert!(bag.is_empty());
    assert_eq!(sorted(&rack), vec![('A', 1), ('A', 1), ('B', 3)]);
}

#[test]
fn draw_of_one_tile_from_one_gives_that_tile() {
    let mut bag = vec![Tile('K', 10)];
    let rack = Bag::draw_tiles(1, &mut bag);
    assert_eq!(rack, vec![Tile('K', 10)]);
    assert!(bag.is_empty());
}

#[test]
fn drawing_the_whole_bag_empties_it() {
    let mut bag = Bag::new().0;
    let rack = Bag::draw_tiles(255, &mut bag);
    assert_eq!(rack.len(), 102);
    assert!(bag.is_empty());
    assert_eq!(sorted(&rack), sorted(&Bag::new().0));
}

#[test]
fn successive_draws_do_not_refill_the_bag() {
    let mut bag = Bag::new().0;
    let first = Bag::draw_tiles(7, &mut bag);
    let second = Bag::draw_tiles(7, &mut bag);
    assert_eq!(first.len(), 7);
    assert_eq!(second.len(), 7);
    assert_eq!(bag.len(), 88);
}

#[test]
fn position_of_finds_the_first_tile_with_the_letter() {
    let bag = vec![Tile('A', 1), Tile('B', 3), Tile('B', 4), Tile('C', 3)];
    assert_eq!(Bag::position_of(&bag, 'B'), Some(1));
    assert_eq!(Bag::position_of(&bag, 'A'), Some(0));
    assert_eq!(Bag::position_of(&bag, 'C'), Some(3));
    assert_eq!(Bag::position_of(&bag, 'Z'), None);
    assert_eq!(Bag::position_of(&Vec::new(), 'A'), None);
}

#[test]
fn take_tile_takes_the_first_tile_with_the_letter() {
    let mut bag = vec![Tile('A', 1), Tile('B', 3), Tile('B', 4), Tile('C', 3)];
    assert_eq!(Bag::take_tile(&mut bag, 'B'), Some(Tile('B', 3)));
    assert_eq!(bag, vec![Tile('A', 1), Tile('B', 4), Tile('C', 3)]);
    assert_eq!(Bag::take_tile(&mut bag, 'B'), Some(Tile('B', 4)));
    assert_eq!(bag, vec![Tile('A', 1), Tile('C', 3)]);
}

#[test]
fn take_tile_of_a_missing_letter_takes_nothing() {
    let mut bag = vec![Tile('A', 1), Tile('C', 3)];
    assert_eq!(Bag::take_tile(&mut bag, 'B'), None);
    assert_eq!(bag, vec![Tile('A', 1), Tile('C', 3)]);
}

#[test]
fn blank_tile_is_the_space_worth_nothing() {
    assert_eq!(Tile::blank(), Tile(' ', 0));
    assert!(Tile::blank().is_blank());
    assert!(!Tile('A', 1).is_blank());
    assert_eq!(Tile('A', 1), Tile('A', 1));
    assert_ne!(Tile('A', 1), Tile('A', 2));
}
