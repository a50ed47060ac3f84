//! How cells are kept in hash sets.

use crate::grid::Position;
use vstd::prelude::*;

verus! {

/// The number under which a cell is kept in a hash set: the column in the
/// upper 64 bits, the row in the lower.
pub(crate) open spec fn key_of(p: Position) -> u128 {
    (p.0 * 0x1_0000_0000_0000_0000 + p.1) as u128
}

/// The cells whose keys are in `keys`.
pub(crate) open spec fn cells(keys: Set<u128>) -> Set<Position> {
    Set::new(|p: Position| keys.contains(key_of(p)))
}

pub(crate) fn key(p: Position) -> (k: u128)
    ensures
        k == key_of(p),
{
    (p.0 as u128) * 0x1_0000_0000_0000_0000u128 + (p.1 as u128)
}

/// Different cells have different keys.
pub(crate) proof fn lemma_key_injective(p: Position, q: Position)
    ensures
        key_of(p) == key_of(q) <==> p == q,
{
}

/// Adding a cell's key adds the cell, and nothing else.
pub(crate) proof fn lemma_cells_insert(keys: Set<u128>, p: Position)
    ensures
        cells(keys.insert(key_of(p))) == cells(keys).insert(p),
{
    assert forall|q: Position| cells(keys.insert(key_of(p))).contains(q) <==> cells(keys).insert(
        p,
    ).contains(q) by {
        lemma_key_injective(p, q);
    }
    assert(cells(keys.insert(key_of(p))) =~= cells(keys).insert(p));
}

/// Removing a cell's key removes the cell, and nothing else.
pub(crate) proof fn lemma_cells_remove(keys: Set<u128>, p: Position)
    ensures
        cells(keys.remove(key_of(p))) == cells(keys).remove(p),
{
    assert forall|q: Position| cells(keys.remove(key_of(p))).contains(q) <==> cells(keys).remove(
        p,
    ).contains(q) by {
        lemma_key_injective(p, q);
    }
    assert(cells(keys.remove(key_of(p))) =~= cells(keys).remove(p));
}

/// No keys, no cells.
pub(crate) proof fn lemma_cells_empty()
    ensures
        cells(Set::empty()) == Set::<Position>::empty(),
{
    assert(cells(Set::empty()) =~= Set::<Position>::empty());
}

} // verus!
