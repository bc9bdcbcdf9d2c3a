//! The adjacency rule for the squares of a move.

use vstd::prelude::*;
use vstd::relations::{sorted_by, total_ordering};
use vstd::seq_lib::lemma_sorted_unique;
use vstd::slice::slice_to_vec;

verus! {

/// Whether `a` comes no later than `b` when coordinates are ordered by row and,
/// within a row, by column.
pub open spec fn coord_leq(a: (usize, usize), b: (usize, usize)) -> bool {
    a.0 < b.0 || (a.0 == b.0 && a.1 <= b.1)
}

/// The order of `coord_leq`, as a relation.
pub open spec fn coord_order() -> spec_fn((usize, usize), (usize, usize)) -> bool {
    |a: (usize, usize), b: (usize, usize)| coord_leq(a, b)
}

/// Whether two coordinates are neighbours: in one row, one column apart, or in
/// one column, one row apart.
pub open spec fn touching(a: (usize, usize), b: (usize, usize)) -> bool {
    ||| a.0 == b.0 && (a.1 + 1 == b.1 || a.1 == b.1 + 1)
    ||| a.1 == b.1 && (a.0 + 1 == b.0 || a.0 == b.0 + 1)
}

/// Whether each coordinate of `s` but the last is a neighbour of the one that follows it.
pub open spec fn chain_touching(s: Seq<(usize, usize)>) -> bool {
    forall|i: int, j: int|
        0 <= i && j == i + 1 && j < s.len() ==> touching(#[trigger] s[i], #[trigger] s[j])
}

/// The adjacency rule of a move: put the coordinates in order, by row and then
/// by column; each must then be a neighbour of the next. Nothing more is asked,
/// so the coordinates need not all lie in one row or in one column.
pub open spec fn all_adjacent(coords: Seq<(usize, usize)>) -> bool {
    chain_touching(coords.sort_by(coord_order()))
}

/// The order by row and then by column is a total order.
pub proof fn lemma_coord_order_total()
    ensures
        total_ordering(coord_order()),
{
    let r = coord_order();
    assert forall|x: (usize, usize), y: (usize, usize)| #[trigger] r(x, y) && #[trigger] r(y, x)
        implies x == y by {}
}

/// A sequence of coordinates that is already in order is its own sorted form,
/// so the adjacency rule reads it as it stands.
pub proof fn lemma_sorted_coords_adjacent(coords: Seq<(usize, usize)>)
    requires
        sorted_by(coords, coord_order()),
    ensures
        coords.sort_by(coord_order()) == coords,
        all_adjacent(coords) == chain_touching(coords),
{
    lemma_coord_order_total();
    coords.lemma_sort_by_ensures(coord_order());
    lemma_sorted_unique(coords.sort_by(coord_order()), coords, coord_order());
}

/// The adjacency rule looks at which coordinates there are, not at the order
/// in which they are given.
pub proof fn lemma_adjacency_ignores_order(a: Seq<(usize, usize)>, b: Seq<(usize, usize)>)
    requires
        a.to_multiset() == b.to_multiset(),
    ensures
        all_adjacent(a) == all_adjacent(b),
{
    lemma_coord_order_total();
    a.lemma_sort_by_ensures(coord_order());
    b.lemma_sort_by_ensures(coord_order());
    lemma_sorted_unique(a.sort_by(coord_order()), b.sort_by(coord_order()), coord_order());
}

/// Sorts with `sort` of std's slices. The contract says what std documents of
/// it, for tuples, which std orders by their first component and then by their
/// second: afterwards the coordinates are in that order, and they are the
/// coordinates that were there before, each as often as before.
#[verifier::external_body]
fn sort_coords(coords: &mut Vec<(usize, usize)>)
    ensures
        sorted_by(final(coords)@, coord_order()),
        final(coords)@.to_multiset() == old(coords)@.to_multiset(),
{
    coords.sort();
}

/// Whether two coordinates are neighbours.
pub fn is_touching(a: (usize, usize), b: (usize, usize)) -> (near: bool)
    ensures
        near == touching(a, b),
{
    if a.0 == b.0 {
        (a.1 < b.1 && b.1 - a.1 == 1) || (b.1 < a.1 && a.1 - b.1 == 1)
    } else if a.1 == b.1 {
        (a.0 < b.0 && b.0 - a.0 == 1) || (b.0 < a.0 && a.0 - b.0 == 1)
    } else {
        false
    }
}

/// Whether the coordinates of a move satisfy the adjacency rule. One
/// coordinate alone does, and so does none.
pub fn are_adjacent(coords: &[(usize, usize)]) -> (adjacent: bool)
    ensures
        adjacent == all_adjacent(coords@),
{
    let mut sorted_coords = slice_to_vec(coords);
    sort_coords(&mut sorted_coords);
    proof {
        lemma_coord_order_total();
        coords@.lemma_sort_by_ensures(coord_order());
        lemma_sorted_unique(sorted_coords@, coords@.sort_by(coord_order()), coord_order());
    }
    let mut i: usize = 1;
    while i < sorted_coords.len()
        invariant
            1 <= i,
            sorted_coords@ == coords@.sort_by(coord_order()),
            forall|k: int, l: int|
                0 <= k && l == k + 1 && l < i ==> touching(
                    #[trigger] sorted_coords@[k],
                    #[trigger] sorted_coords@[l],
                ),
        decreases sorted_coords.len() - i,
    {
        if !is_touching(sorted_coords[i - 1], sorted_coords[i]) {
            return false;
        }
        i += 1;
    }
    true
}

} // verus!
