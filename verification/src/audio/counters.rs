//! The arithmetic of two counters that only grow, one per end of a wait-free
//! crossing: how many items lie between them, how much room that leaves, and
//! how much a call takes.
//!
//! Each end owns one counter and loads the other, which the thread at the far
//! end keeps moving. What a call does is therefore decided by a value this
//! thread cannot name in advance; everything it does with that value is
//! worked out here, for every value it could be.

use vstd::prelude::*;

verus! {

/// How many items lie between a counter of items put in and a counter of
/// items taken out, counted round the word as both counters are.
pub open spec fn occupancy(put: usize, taken: usize) -> int {
    if taken <= put {
        put - taken
    } else {
        put - taken + usize::MAX + 1
    }
}

/// How many more items fit in `capacity` slots at those counters.
pub open spec fn room(capacity: nat, put: usize, taken: usize) -> int {
    if occupancy(put, taken) <= capacity {
        capacity - occupancy(put, taken)
    } else {
        0
    }
}

/// The lesser of two counts.
pub open spec fn least(one: int, other: int) -> int {
    if one <= other {
        one
    } else {
        other
    }
}

/// A counter moved on by `by`, round the word.
pub open spec fn counted_on(counter: usize, by: usize) -> usize {
    if counter + by <= usize::MAX {
        (counter + by) as usize
    } else {
        (counter + by - usize::MAX - 1) as usize
    }
}

/// How many items lie between the counters `put` and `taken`.
pub fn occupied_of(put: usize, taken: usize) -> (occupied: usize)
    ensures
        occupied == occupancy(put, taken),
{
    put.wrapping_sub(taken)
}

/// How many more items fit in `capacity` slots at the counters `put` and
/// `taken`.
pub fn room_of(capacity: usize, put: usize, taken: usize) -> (left: usize)
    ensures
        left == room(capacity as nat, put, taken),
{
    capacity.saturating_sub(occupied_of(put, taken))
}

/// The counter `counter` moved on by `by`.
pub fn count_on(counter: usize, by: usize) -> (next: usize)
    ensures
        next == counted_on(counter, by),
{
    counter.wrapping_add(by)
}

/// The slot the item a counter stands at goes in, in `capacity` slots.
pub fn slot_at(counter: usize, capacity: usize) -> (slot: usize)
    requires
        capacity > 0,
    ensures
        slot == counter % capacity,
        slot < capacity,
{
    counter % capacity
}

} // verus!
