//! The bag of tiles: what a full bag holds, and drawing from it at random.

use vstd::prelude::*;
use rand::rngs::ThreadRng;
use rand::seq::SliceRandom;
use crate::tile::{letters_of, Tile};

verus! {

/// The tiles that have not been drawn yet.
pub struct Bag(pub Vec<Tile>);

/// `count` tiles with the same letter and value.
pub open spec fn run_of(letter: char, value: usize, count: nat) -> Seq<Tile> {
    Seq::new(count, |i: int| Tile(letter, value))
}

/// The tiles of a new bag, letter after letter: a hundred letter tiles and two blanks.
pub open spec fn canonical_tiles() -> Seq<Tile> {
    Seq::<Tile>::empty() + run_of('A', 1, 9) + run_of('B', 3, 2) + run_of('C', 3, 2) + run_of(
        'D',
        2,
        3,
    ) + run_of('E', 1, 15) + run_of('F', 4, 2) + run_of('G', 2, 2) + run_of('H', 4, 2) + run_of(
        'I',
        1,
        8,
    ) + run_of('J', 8, 1) + run_of('K', 10, 1) + run_of('L', 1, 5) + run_of('M', 2, 3) + run_of(
        'N',
        1,
        6,
    ) + run_of('O', 1, 6) + run_of('P', 3, 2) + run_of('Q', 8, 1) + run_of('R', 1, 6) + run_of(
        'S',
        1,
        6,
    ) + run_of('T', 1, 6) + run_of('U', 1, 6) + run_of('V', 4, 2) + run_of('W', 10, 1) + run_of(
        'X',
        10,
        1,
    ) + run_of('Y', 10, 1) + run_of('Z', 10, 1) + run_of(' ', 0, 2)
}

/// Number of tiles in a new bag.
pub const BAG_SIZE: usize = 102;

/// Whether `i` is the place of the first tile of `bag` that carries `letter`.
pub open spec fn is_first_with_letter(bag: Seq<Tile>, letter: char, i: int) -> bool {
    &&& 0 <= i < bag.len()
    &&& bag[i].0 == letter
    &&& forall|j: int| 0 <= j < i ==> bag[j].0 != letter
}

/// Whether some tile of `bag` carries `letter`.
pub open spec fn holds_letter(bag: Seq<Tile>, letter: char) -> bool {
    exists|i: int| 0 <= i < bag.len() && bag[i].0 == letter
}

/// The place of the first tile of `bag` that carries `letter`. It means
/// something only where the bag holds such a tile.
pub open spec fn first_index(bag: Seq<Tile>, letter: char) -> int {
    choose|i: int| is_first_with_letter(bag, letter, i)
}

/// The bag after a tile was taken for each of `letters` in turn, each time the
/// first tile that carries the letter.
pub open spec fn bag_after(before: Seq<Tile>, letters: Seq<char>) -> Seq<Tile>
    decreases letters.len(),
{
    if letters.len() == 0 {
        before
    } else {
        let bag = bag_after(before, letters.drop_last());
        bag.remove(first_index(bag, letters.last()))
    }
}

/// The tile taken for the letter at place `k` of `letters`.
pub open spec fn tile_drawn(before: Seq<Tile>, letters: Seq<char>, k: int) -> Tile {
    let bag = bag_after(before, letters.take(k));
    bag[first_index(bag, letters[k])]
}

/// The tiles taken for `letters`, in turn.
pub open spec fn tiles_drawn(before: Seq<Tile>, letters: Seq<char>) -> Seq<Tile> {
    Seq::new(letters.len(), |k: int| tile_drawn(before, letters, k))
}

/// Whether a tile can be taken for each of `letters` in turn: when its turn
/// comes, the bag still holds a tile with that letter.
pub open spec fn can_draw(before: Seq<Tile>, letters: Seq<char>) -> bool {
    forall|k: int|
        0 <= k < letters.len() ==> holds_letter(
            bag_after(before, #[trigger] letters.take(k)),
            letters[k],
        )
}

/// The first place of a letter is the only place that is its first.
pub proof fn lemma_first_index(bag: Seq<Tile>, letter: char, i: int)
    requires
        is_first_with_letter(bag, letter, i),
    ensures
        first_index(bag, letter) == i,
{
    let f = first_index(bag, letter);
    assert(is_first_with_letter(bag, letter, f));
    if f < i {
        assert(bag[f].0 != letter);
    } else if i < f {
        assert(bag[i].0 != letter);
    }
}

/// Taking a tile for one more letter: the bag after it, and the tiles drawn so far.
pub proof fn lemma_draw_one_more(before: Seq<Tile>, letters: Seq<char>, letter: char)
    ensures
        bag_after(before, letters.push(letter)) == bag_after(before, letters).remove(
            first_index(bag_after(before, letters), letter),
        ),
        tiles_drawn(before, letters.push(letter)) == tiles_drawn(before, letters).push(
            bag_after(before, letters)[first_index(bag_after(before, letters), letter)],
        ),
        can_draw(before, letters.push(letter)) <==> can_draw(before, letters) && holds_letter(
            bag_after(before, letters),
            letter,
        ),
{
    let more = letters.push(letter);
    assert(more.drop_last() =~= letters);
    assert(more.take(letters.len() as int) =~= letters);
    assert forall|k: int| 0 <= k < letters.len() implies #[trigger] more.take(k) == letters.take(
        k,
    ) by {
        assert(more.take(k) =~= letters.take(k));
    }
    assert(tiles_drawn(before, more) =~= tiles_drawn(before, letters).push(
        bag_after(before, letters)[first_index(bag_after(before, letters), letter)],
    )) by {
        assert forall|k: int| 0 <= k < letters.len() implies tile_drawn(before, more, k)
            == tile_drawn(before, letters, k) by {
            assert(more.take(k) == letters.take(k));
        }
    }
    if can_draw(before, more) {
        assert forall|k: int| 0 <= k < letters.len() implies holds_letter(
            bag_after(before, #[trigger] letters.take(k)),
            letters[k],
        ) by {
            assert(more.take(k) == letters.take(k));
            assert(holds_letter(bag_after(before, more.take(k)), more[k]));
        }
        assert(holds_letter(
            bag_after(before, more.take(letters.len() as int)),
            more[letters.len() as int],
        ));
    }
    if can_draw(before, letters) && holds_letter(bag_after(before, letters), letter) {
        assert forall|k: int| 0 <= k < more.len() implies holds_letter(
            bag_after(before, #[trigger] more.take(k)),
            more[k],
        ) by {
            if k < letters.len() {
                assert(more.take(k) == letters.take(k));
                assert(holds_letter(bag_after(before, letters.take(k)), letters[k]));
            }
        }
    }
}

/// Drawing loses no tile and makes none: the tiles left and the tiles drawn
/// are, taken together, the tiles that were in the bag.
pub proof fn lemma_draw_conserves(before: Seq<Tile>, letters: Seq<char>)
    requires
        can_draw(before, letters),
    ensures
        bag_after(before, letters).len() + letters.len() == before.len(),
        tiles_drawn(before, letters).len() == letters.len(),
        letters_of(tiles_drawn(before, letters)) == letters,
        before.to_multiset() == bag_after(before, letters).to_multiset().add(
            tiles_drawn(before, letters).to_multiset(),
        ),
        tiles_drawn(before, letters).to_multiset().subset_of(before.to_multiset()),
    decreases letters.len(),
{
    broadcast use vstd::multiset::group_multiset_axioms;

    if letters.len() == 0 {
        assert(tiles_drawn(before, letters) =~= Seq::<Tile>::empty());
        vstd::seq_lib::to_multiset_len(tiles_drawn(before, letters));
        vstd::multiset::lemma_multiset_empty_len(tiles_drawn(before, letters).to_multiset());
        assert(before.to_multiset() =~= bag_after(before, letters).to_multiset().add(
            tiles_drawn(before, letters).to_multiset(),
        ));
        assert(letters_of(tiles_drawn(before, letters)) =~= letters);
    } else {
        let fewer = letters.drop_last();
        let letter = letters.last();
        assert(fewer.push(letter) =~= letters);
        lemma_draw_one_more(before, fewer, letter);
        lemma_draw_conserves(before, fewer);
        let bag = bag_after(before, fewer);
        let i = first_index(bag, letter);
        let w = choose|j: int| 0 <= j < bag.len() && bag[j].0 == letter;
        lemma_first_exists(bag, letter, w);
        assert(is_first_with_letter(bag, letter, i));
        vstd::seq_lib::to_multiset_remove(bag, i);
        vstd::seq_lib::to_multiset_build(tiles_drawn(before, fewer), bag[i]);
        vstd::seq_lib::to_multiset_contains(bag, bag[i]);
        assert(bag.contains(bag[i]));
        assert(before.to_multiset() =~= bag_after(before, letters).to_multiset().add(
            tiles_drawn(before, letters).to_multiset(),
        ));
        assert(letters_of(tiles_drawn(before, letters)) =~= letters);
    }
}

/// A bag that holds a letter has a first tile with it.
pub proof fn lemma_first_exists(bag: Seq<Tile>, letter: char, at: int)
    requires
        0 <= at < bag.len(),
        bag[at].0 == letter,
    ensures
        is_first_with_letter(bag, letter, first_index(bag, letter)),
        first_index(bag, letter) <= at,
    decreases at,
{
    if exists|j: int| 0 <= j < at && bag[j].0 == letter {
        let j = choose|j: int| 0 <= j < at && bag[j].0 == letter;
        lemma_first_exists(bag, letter, j);
    } else {
        assert(is_first_with_letter(bag, letter, at));
        lemma_first_index(bag, letter, at);
    }
}

/// The generator of random numbers that `rand` keeps for each thread. Nothing
/// is known of its state.
#[verifier::external_type_specification]
#[verifier::external_body]
pub struct ExThreadRng(rand::rngs::ThreadRng);

/// `rand::thread_rng` hands out the generator of the calling thread. Nothing
/// is claimed of it.
pub assume_specification[ rand::thread_rng ]() -> (rng: rand::rngs::ThreadRng)
;

/// Picks a tile of the bag at random, with `SliceRandom::choose` of `rand`,
/// and hands out a copy of it. The contract says what holds of every pick:
/// there is none exactly when the bag is empty, and a tile picked is one of
/// the tiles in the bag. That every tile is as likely as another is not stated.
#[verifier::external_body]
fn choose_tile(bag: &Vec<Tile>, rng: &mut ThreadRng) -> (picked: Option<Tile>)
    ensures
        picked is None <==> bag@.len() == 0,
        picked matches Some(tile) ==> bag@.contains(tile),
{
    bag.choose(rng).copied()
}

impl Bag {
    /// A full bag.
    pub fn new() -> (bag: Self)
        ensures
            bag.0@ == canonical_tiles(),
            bag.0@.len() == BAG_SIZE,
    {
        let mut bag: Vec<Tile> = Vec::new();
        proof {
            assert(bag@ =~= Seq::<Tile>::empty());
        }
        Self::extend_run(&mut bag, 'A', 1, 9);
        Self::extend_run(&mut bag, 'B', 3, 2);
        Self::extend_run(&mut bag, 'C', 3, 2);
        Self::extend_run(&mut bag, 'D', 2, 3);
        Self::extend_run(&mut bag, 'E', 1, 15);
        Self::extend_run(&mut bag, 'F', 4, 2);
        Self::extend_run(&mut bag, 'G', 2, 2);
        Self::extend_run(&mut bag, 'H', 4, 2);
        Self::extend_run(&mut bag, 'I', 1, 8);
        Self::extend_run(&mut bag, 'J', 8, 1);
        Self::extend_run(&mut bag, 'K', 10, 1);
        Self::extend_run(&mut bag, 'L', 1, 5);
        Self::extend_run(&mut bag, 'M', 2, 3);
        Self::extend_run(&mut bag, 'N', 1, 6);
        Self::extend_run(&mut bag, 'O', 1, 6);
        Self::extend_run(&mut bag, 'P', 3, 2);
        Self::extend_run(&mut bag, 'Q', 8, 1);
        Self::extend_run(&mut bag, 'R', 1, 6);
        Self::extend_run(&mut bag, 'S', 1, 6);
        Self::extend_run(&mut bag, 'T', 1, 6);
        Self::extend_run(&mut bag, 'U', 1, 6);
        Self::extend_run(&mut bag, 'V', 4, 2);
        Self::extend_run(&mut bag, 'W', 10, 1);
        Self::extend_run(&mut bag, 'X', 10, 1);
        Self::extend_run(&mut bag, 'Y', 10, 1);
        Self::extend_run(&mut bag, 'Z', 10, 1);
        Self::extend_run(&mut bag, ' ', 0, 2);
        Self(bag)
    }

    /// Adds `count` tiles with `letter` and `value` to the end of `bag`.
    pub fn extend_run(bag: &mut Vec<Tile>, letter: char, value: usize, count: usize)
        ensures
            final(bag)@ == old(bag)@ + run_of(letter, value, count as nat),
            final(bag)@.len() == old(bag)@.len() + count,
    {
        let mut i: usize = 0;
        proof {
            assert(bag@ =~= old(bag)@ + run_of(letter, value, 0));
        }
        while i < count
            invariant
                i <= count,
                bag@ == old(bag)@ + run_of(letter, value, i as nat),
            decreases count - i,
        {
            bag.push(Tile(letter, value));
            proof {
                assert(bag@ =~= old(bag)@ + run_of(letter, value, (i + 1) as nat));
            }
            i += 1;
        }
    }

    /// Where the first tile with `letter` lies in `bag`, if there is one.
    pub fn position_of(bag: &Vec<Tile>, letter: char) -> (found: Option<usize>)
        ensures
            found is Some <==> holds_letter(bag@, letter),
            found matches Some(i) ==> is_first_with_letter(bag@, letter, i as int) && i
                == first_index(bag@, letter),
    {
        let mut i: usize = 0;
        while i < bag.len()
            invariant
                i <= bag@.len(),
                forall|j: int| 0 <= j < i ==> bag@[j].0 != letter,
            decreases bag.len() - i,
        {
            if bag[i].0 == letter {
                proof {
                    lemma_first_index(bag@, letter, i as int);
                }
                return Some(i);
            }
            i += 1;
        }
        None
    }

    /// Takes the first tile with `letter` out of `bag`. The tiles that stay
    /// keep their order. Where no tile carries the letter, nothing is taken.
    pub fn take_tile(bag: &mut Vec<Tile>, letter: char) -> (taken: Option<Tile>)
        ensures
            taken is Some <==> holds_letter(old(bag)@, letter),
            taken matches Some(tile) ==> {
                &&& is_first_with_letter(old(bag)@, letter, first_index(old(bag)@, letter))
                &&& tile == old(bag)@[first_index(old(bag)@, letter)]
                &&& final(bag)@ == old(bag)@.remove(first_index(old(bag)@, letter))
            },
            taken is None ==> final(bag)@ == old(bag)@,
    {
        match Self::position_of(bag, letter) {
            Some(tile_index) => Some(bag.remove(tile_index)),
            None => None,
        }
    }

    /// Draws up to `amount` tiles from `bag`, each picked at random among the
    /// tiles that are left, and hands them out in the order drawn. A bag with
    /// fewer tiles gives what it has. For each pick the first tile of the bag
    /// with the letter picked is taken, so what is left keeps its order.
    pub fn draw_tiles(amount: u8, bag: &mut Vec<Tile>) -> (rack: Vec<Tile>)
        ensures
            rack@.len() == if amount <= old(bag)@.len() {
                amount as nat
            } else {
                old(bag)@.len()
            },
            can_draw(old(bag)@, letters_of(rack@)),
            rack@ == tiles_drawn(old(bag)@, letters_of(rack@)),
            final(bag)@ == bag_after(old(bag)@, letters_of(rack@)),
            final(bag)@.len() + rack@.len() == old(bag)@.len(),
            old(bag)@.to_multiset() == final(bag)@.to_multiset().add(rack@.to_multiset()),
            rack@.to_multiset().subset_of(old(bag)@.to_multiset()),
    {
        let mut rack: Vec<Tile> = Vec::new();
        let mut rng = rand::thread_rng();
        let mut drawn: u8 = 0;
        proof {
            assert(letters_of(rack@) =~= Seq::<char>::empty());
            assert(rack@ =~= tiles_drawn(old(bag)@, letters_of(rack@)));
        }
        while drawn < amount
            invariant
                drawn <= amount,
                rack@.len() == drawn,
                can_draw(old(bag)@, letters_of(rack@)),
                rack@ == tiles_drawn(old(bag)@, letters_of(rack@)),
                bag@ == bag_after(old(bag)@, letters_of(rack@)),
                bag@.len() + rack@.len() == old(bag)@.len(),
            ensures
                rack@.len() == if amount <= old(bag)@.len() {
                    amount as nat
                } else {
                    old(bag)@.len()
                },
                can_draw(old(bag)@, letters_of(rack@)),
                rack@ == tiles_drawn(old(bag)@, letters_of(rack@)),
                bag@ == bag_after(old(bag)@, letters_of(rack@)),
            decreases amount - drawn,
        {
            let picked = choose_tile(bag, &mut rng);
            match picked {
                Some(tile) => {
                    let ghost letters = letters_of(rack@);
                    proof {
                        let at = choose|j: int| 0 <= j < bag@.len() && bag@[j] == tile;
                        assert(holds_letter(bag@, tile.0)) by {
                            assert(bag@[at].0 == tile.0);
                        }
                        lemma_draw_one_more(old(bag)@, letters, tile.0);
                    }
                    // The pick came from the bag, so there is a tile to take.
                    if let Some(tile_out) = Self::take_tile(bag, tile.0) {
                        rack.push(tile_out);
                        proof {
                            assert(letters_of(rack@) =~= letters.push(tile.0));
                        }
                    }
                },
                None => {
                    break ;
                },
            }
            drawn += 1;
        }
        proof {
            lemma_draw_conserves(old(bag)@, letters_of(rack@));
        }
        rack
    }
}

} // verus!
