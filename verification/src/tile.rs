//! The letter tile.

use vstd::prelude::*;

verus! {

/// The letter that a blank tile carries.
pub const BLANK_LETTER: char = ' ';

/// A letter tile: its letter and the points it is worth. Two tiles are the
/// same tile when both agree.
#[derive(Clone, Copy, PartialEq, Eq, Structural, Debug)]
pub struct Tile(pub char, pub usize);

impl Tile {
    /// The blank tile: the blank letter, worth nothing.
    pub fn blank() -> (tile: Tile)
        ensures
            tile == Tile(BLANK_LETTER, 0),
    {
        Tile(BLANK_LETTER, 0)
    }

    /// Whether this is a blank tile, that is, whether it carries the blank letter.
    pub fn is_blank(&self) -> (blank: bool)
        ensures
            blank == (self.0 == BLANK_LETTER),
    {
        self.0 == BLANK_LETTER
    }
}

/// The letters of a sequence of tiles, in the same order.
pub open spec fn letters_of(tiles: Seq<Tile>) -> Seq<char> {
    tiles.map_values(|t: Tile| t.0)
}

} // verus!
