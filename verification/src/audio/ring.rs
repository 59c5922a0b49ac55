//! Moving samples between the audio callback and the application thread.
//!
//! One end of the ring lives on the real-time thread, which may not allocate,
//! lock or wait, so every operation here is wait-free: it takes what fits,
//! reports how much that was, and returns. A full ring on the producing end
//! and an empty one on the consuming end are ordinary results, not conditions
//! to retry until they clear.
//!
//! Samples are held as [`AtomicU32`] bit patterns, which is what keeps the
//! whole ring in safe code: a sample crosses as the bits of its `f32`. The
//! slots are read and written relaxed; the index publication either side of
//! them orders the data, and the indices only ever grow, which is what tells a
//! full ring from an empty one.

use std::sync::Arc;
use std::sync::atomic::{AtomicU32, AtomicUsize, Ordering};
use vstd::prelude::*;

use super::counters::{count_on, counted_on, least, occupancy, occupied_of, room, room_of};

verus! {

struct Ring {
    slots: Vec<AtomicU32>,
    written: AtomicUsize,
    read: AtomicUsize,
}

/// The slot the sample `offset` places past `position` lands in, in a ring of
/// `capacity` slots.
pub open spec fn slot_of(position: int, offset: int, capacity: int) -> int {
    (position + offset) % capacity
}

/// Where a run of `length` samples from `position` lands in a ring of
/// `capacity` slots: the slot it starts at, how many fit before the end, and
/// how many wrap round to the front.
pub fn split_at_offset(capacity: usize, position: usize, length: usize) -> (split: (
    usize,
    usize,
    usize,
))
    requires
        capacity > 0,
        length <= capacity,
    ensures
        split.0 == position % capacity,
        split.1 == if length <= capacity - split.0 { length as int } else { capacity - split.0 },
        split.2 == length - split.1,
        split.0 + split.1 <= capacity,
        split.2 <= split.0,
        forall|offset: int|
            0 <= offset < length ==> #[trigger] slot_of(position as int, offset, capacity as int) == if offset
                < split.1 {
                split.0 + offset
            } else {
                offset - split.1
            },
{
    let start = position % capacity;
    let contiguous = if length <= capacity - start { length } else { capacity - start };
    let wrapped = length - contiguous;
    assert forall|offset: int| 0 <= offset < length implies #[trigger] slot_of(
        position as int,
        offset,
        capacity as int,
    ) == if offset < contiguous { start + offset } else { offset - contiguous } by {
        lemma_slot(position as int, offset, capacity as int, start as int);
    }
    (start, contiguous, wrapped)
}

proof fn lemma_slot(position: int, offset: int, capacity: int, start: int)
    requires
        capacity > 0,
        0 <= position,
        0 <= offset < capacity,
        start == position % capacity,
    ensures
        slot_of(position, offset, capacity) == if start + offset < capacity {
            start + offset
        } else {
            start + offset - capacity
        },
{
    vstd::arithmetic::div_mod::lemma_add_mod_noop(position, offset, capacity);
    vstd::arithmetic::div_mod::lemma_mod_bound(position, capacity);
    vstd::arithmetic::div_mod::lemma_mod_bound(offset, capacity);
    vstd::arithmetic::div_mod::lemma_small_mod(offset as nat, capacity as nat);
    if start + offset < capacity {
        vstd::arithmetic::div_mod::lemma_small_mod((start + offset) as nat, capacity as nat);
    } else {
        vstd::arithmetic::div_mod::lemma_mod_sub_multiples_vanish(start + offset, capacity);
        vstd::arithmetic::div_mod::lemma_small_mod((start + offset - capacity) as nat, capacity as nat);
    }
}

/// Build a ring holding at most `capacity` samples, and split it into the end
/// that writes and the end that reads.
///
/// The storage is allocated here and never again, so this belongs in setup,
/// before the stream starts. A ring of no capacity would drop every sample
/// handed to it, which is a mistake in setup, so `capacity` is never zero.
pub fn sample_ring(capacity: usize) -> (ends: (SampleProducer, SampleConsumer))
    requires
        capacity > 0,
    ensures
        ends.0.spec_capacity() == capacity,
        ends.1.spec_capacity() == capacity,
        ends.0.spec_written() == 0,
        ends.1.spec_read() == 0,
{
    let mut slots: Vec<AtomicU32> = Vec::new();
    let mut made: usize = 0;
    while made < capacity
        invariant
            made <= capacity,
            slots@.len() == made,
        decreases capacity - made,
    {
        slots.push(AtomicU32::new(0));
        made = made + 1;
    }
    let ring = Arc::new(Ring { slots, written: AtomicUsize::new(0), read: AtomicUsize::new(0) });
    (
        SampleProducer { ring: Arc::clone(&ring), primed: Ghost(Seq::empty()), written: 0 },
        SampleConsumer { ring, read: 0 },
    )
}

/// Build a ring as [`sample_ring`] does, already holding `lead` copies of the
/// sample bits `fill`, as if they had been written and not yet read.
///
/// This is how a reader is started a fixed distance behind the writer: it
/// has that much to read before anything written reaches it.
pub fn primed_ring(capacity: usize, lead: usize, fill: u32) -> (ends: (SampleProducer, SampleConsumer))
    requires
        0 < capacity,
        lead <= capacity,
    ensures
        ends.0.spec_capacity() == capacity,
        ends.1.spec_capacity() == capacity,
        ends.0.spec_primed() == Seq::new(lead as nat, |index: int| fill),
        ends.0.spec_written() == lead,
        ends.1.spec_read() == 0,
{
    let mut slots: Vec<AtomicU32> = Vec::new();
    let mut made: usize = 0;
    while made < capacity
        invariant
            made <= capacity,
            slots@.len() == made,
        decreases capacity - made,
    {
        let held = if made < lead { fill } else { 0 };
        slots.push(AtomicU32::new(held));
        made = made + 1;
    }
    let ring = Arc::new(Ring { slots, written: AtomicUsize::new(lead), read: AtomicUsize::new(0) });
    (
        SampleProducer {
            ring: Arc::clone(&ring),
            primed: Ghost(Seq::new(lead as nat, |index: int| fill)),
            written: lead,
        },
        SampleConsumer { ring, read: 0 },
    )
}

/// How many of `wanted` samples a write takes at the counters `written` and
/// `read`: as many as there is room for in `capacity` slots.
pub fn writable(wanted: usize, capacity: usize, written: usize, read: usize) -> (taken: usize)
    ensures
        taken == write_count(wanted as nat, capacity as nat, written, read),
{
    let space = room_of(capacity, written, read);
    if wanted <= space {
        wanted
    } else {
        space
    }
}

/// How many of `wanted` samples a write into `capacity` slots takes at the
/// counters `written` and `read`: as many as there is room for.
pub open spec fn write_count(wanted: nat, capacity: nat, written: usize, read: usize) -> int {
    least(wanted as int, room(capacity, written, read))
}

/// How many samples a read into `wanted` places takes from `capacity` slots
/// at the counters `written` and `read`: no more than the slots hold, nor
/// than are waiting.
pub open spec fn read_count(wanted: nat, capacity: nat, written: usize, read: usize) -> int {
    least(wanted as int, least(capacity as int, occupancy(written, read)))
}

/// How many samples a read into `wanted` places, at most `limit` of them,
/// takes from `capacity` slots at the counters `written` and `read`.
pub open spec fn readable_count(wanted: nat, limit: usize, capacity: nat, written: usize, read: usize) -> int {
    read_count(if wanted <= limit { wanted } else { limit as nat }, capacity, written, read)
}

/// How many of `count` samples a skip drops at the counters `written` and
/// `read`: no more than are waiting.
pub open spec fn skip_count(count: usize, written: usize, read: usize) -> int {
    least(count as int, occupancy(written, read))
}

/// How many samples a read into `wanted` places, at most `limit` of them,
/// takes at the counters `written` and `read`: no more than `capacity` slots
/// hold, nor than are waiting.
pub fn readable(wanted: usize, limit: usize, capacity: usize, written: usize, read: usize) -> (taken:
    usize)
    ensures
        taken == readable_count(wanted as nat, limit, capacity as nat, written, read),
{
    let asked = if wanted <= limit { wanted } else { limit };
    let held = occupied_of(written, read);
    let waiting = if capacity <= held { capacity } else { held };
    if asked <= waiting {
        asked
    } else {
        waiting
    }
}

/// How many of `count` samples a skip drops at the counters `written` and
/// `read`: no more than are waiting.
pub fn skippable(count: usize, written: usize, read: usize) -> (dropped: usize)
    ensures
        dropped == skip_count(count, written, read),
{
    let held = occupied_of(written, read);
    if count <= held {
        count
    } else {
        held
    }
}

/// The writing end of a ring, held by whichever thread produces samples.
///
/// This is the end the audio callback holds when it captures input.
pub struct SampleProducer {
    ring: Arc<Ring>,
    primed: Ghost<Seq<u32>>,
    written: usize,
}

impl SampleProducer {
    /// How many samples this end has put in the ring, counted round the
    /// word: the counter it publishes to the consumer.
    pub closed spec fn spec_written(&self) -> usize {
        self.written
    }

    /// The samples the ring was built holding, ahead of anything written.
    pub closed spec fn spec_primed(&self) -> Seq<u32> {
        self.primed@
    }

    /// The most samples the ring holds at once.
    pub closed spec fn spec_capacity(&self) -> nat {
        self.ring.slots@.len()
    }

    #[verifier::type_invariant]
    spec fn holds_something(&self) -> bool {
        self.ring.slots@.len() > 0
    }

    /// Write as many of the sample bit patterns in `samples` as there is room
    /// for, and report how many that was.
    ///
    /// A result below `samples.len()` means the ring was full and the rest were
    /// dropped: the consumer is not keeping up, and the caller decides what
    /// that means.
    pub fn write_bits(&mut self, samples: &[u32]) -> (taken: usize)
        ensures
            exists|read: usize|
                taken == #[trigger] write_count(
                    samples@.len(),
                    old(self).spec_capacity(),
                    old(self).spec_written(),
                    read,
                ),
            taken <= samples@.len(),
            taken <= old(self).spec_capacity(),
            final(self).spec_written() == counted_on(old(self).spec_written(), taken),
            final(self).spec_capacity() == old(self).spec_capacity(),
            final(self).spec_primed() == old(self).spec_primed(),
    {
        let read = self.ring.read.load(Ordering::Acquire);
        self.write_at(samples, read)
    }

    /// Write as many of `samples` as there is room for with the consumer's
    /// counter at `read`.
    fn write_at(&mut self, samples: &[u32], read: usize) -> (taken: usize)
        ensures
            taken == write_count(
                samples@.len(),
                old(self).spec_capacity(),
                old(self).spec_written(),
                read,
            ),
            taken <= samples@.len(),
            taken <= old(self).spec_capacity(),
            final(self).spec_written() == counted_on(old(self).spec_written(), taken),
            final(self).spec_capacity() == old(self).spec_capacity(),
            final(self).spec_primed() == old(self).spec_primed(),
    {
        proof {
            use_type_invariant(&*self);
        }
        let capacity = self.ring.slots.len();
        let written = self.written;
        let taken = writable(samples.len(), capacity, written, read);
        assert(taken == write_count(
            samples@.len(),
            old(self).spec_capacity(),
            old(self).spec_written(),
            read,
        ));
        if taken == 0 {
            assert(counted_on(written, 0) == written);
            return 0;
        }
        let (start, contiguous, wrapped) = split_at_offset(capacity, written, taken);
        let mut index: usize = 0;
        while index < contiguous
            invariant
                index <= contiguous,
                start + contiguous <= capacity,
                capacity == self.ring.slots@.len(),
                contiguous <= taken <= samples@.len(),
            decreases contiguous - index,
        {
            self.ring.slots[start + index].store(samples[index], Ordering::Relaxed);
            index = index + 1;
        }
        let mut index: usize = 0;
        while index < wrapped
            invariant
                index <= wrapped,
                wrapped <= start < capacity,
                capacity == self.ring.slots@.len(),
                contiguous + wrapped == taken,
                taken <= samples@.len(),
            decreases wrapped - index,
        {
            self.ring.slots[index].store(samples[contiguous + index], Ordering::Relaxed);
            index = index + 1;
        }
        let next = count_on(written, taken);
        self.ring.written.store(next, Ordering::Release);
        self.written = next;
        taken
    }

    /// How many samples can be written before the ring is full.
    ///
    /// A consumer running concurrently can only make this larger, so a write of
    /// this many samples from this thread always fits.
    pub fn vacant(&self) -> (vacant: usize)
        ensures
            exists|read: usize|
                vacant == #[trigger] room(self.spec_capacity(), self.spec_written(), read),
            vacant <= self.spec_capacity(),
    {
        let read = self.ring.read.load(Ordering::Acquire);
        let vacant = room_of(self.ring.slots.len(), self.written, read);
        assert(vacant == room(self.spec_capacity(), self.spec_written(), read));
        vacant
    }

    /// The most samples the ring can hold at once.
    pub fn capacity(&self) -> (capacity: usize)
        ensures
            capacity == self.spec_capacity(),
    {
        self.ring.slots.len()
    }
}

/// The reading end of a ring, held by whichever thread consumes samples.
///
/// This is the end the application thread holds when it drains captured input.
pub struct SampleConsumer {
    ring: Arc<Ring>,
    read: usize,
}

impl SampleConsumer {
    /// How many samples this end has taken from the ring, counted round the
    /// word: the counter it publishes to the producer.
    pub closed spec fn spec_read(&self) -> usize {
        self.read
    }

    /// The most samples the ring holds at once.
    pub closed spec fn spec_capacity(&self) -> nat {
        self.ring.slots@.len()
    }

    #[verifier::type_invariant]
    spec fn holds_something(&self) -> bool {
        self.ring.slots@.len() > 0
    }

    /// Fill as much of `out` with sample bit patterns as there are samples for,
    /// and report how many that was.
    ///
    /// A result below `out.len()` means the ring ran dry. The rest of `out` is
    /// left as it was.
    pub fn read_bits(&mut self, out: &mut [u32]) -> (taken: usize)
        ensures
            exists|written: usize|
                taken == #[trigger] read_count(
                    old(out)@.len(),
                    old(self).spec_capacity(),
                    written,
                    old(self).spec_read(),
                ),
            taken <= old(out)@.len(),
            final(self).spec_read() == counted_on(old(self).spec_read(), taken),
            final(self).spec_capacity() == old(self).spec_capacity(),
            final(out)@.len() == old(out)@.len(),
            forall|index: int|
                taken <= index < old(out)@.len() ==> #[trigger] final(out)@[index] == old(out)@[index],
    {
        let limit = out.len();
        self.read_bits_up_to(out, limit)
    }

    /// Fill as much of the first `limit` samples of `out` with sample bit
    /// patterns as there are samples for, and report how many that was.
    ///
    /// Everything of `out` past what was read is left as it was.
    pub fn read_bits_up_to(&mut self, out: &mut [u32], limit: usize) -> (taken: usize)
        ensures
            exists|written: usize|
                taken == #[trigger] readable_count(
                    old(out)@.len(),
                    limit,
                    old(self).spec_capacity(),
                    written,
                    old(self).spec_read(),
                ),
            taken <= limit,
            taken <= old(out)@.len(),
            final(self).spec_read() == counted_on(old(self).spec_read(), taken),
            final(self).spec_capacity() == old(self).spec_capacity(),
            final(out)@.len() == old(out)@.len(),
            forall|index: int|
                taken <= index < old(out)@.len() ==> #[trigger] final(out)@[index] == old(out)@[index],
    {
        let written = self.ring.written.load(Ordering::Acquire);
        self.read_at(out, limit, written)
    }

    /// Read into `out`, at most `limit` samples, with the producer's counter at
    /// `written`.
    fn read_at(&mut self, out: &mut [u32], limit: usize, written: usize) -> (taken: usize)
        ensures
            taken == readable_count(
                old(out)@.len(),
                limit,
                old(self).spec_capacity(),
                written,
                old(self).spec_read(),
            ),
            taken <= limit,
            taken <= old(out)@.len(),
            final(self).spec_read() == counted_on(old(self).spec_read(), taken),
            final(self).spec_capacity() == old(self).spec_capacity(),
            final(out)@.len() == old(out)@.len(),
            forall|index: int|
                taken <= index < old(out)@.len() ==> #[trigger] final(out)@[index] == old(out)@[index],
    {
        proof {
            use_type_invariant(&*self);
        }
        let capacity = self.ring.slots.len();
        let read = self.read;
        let taken = readable(out.len(), limit, capacity, written, read);
        assert(taken == readable_count(
            old(out)@.len(),
            limit,
            old(self).spec_capacity(),
            written,
            old(self).spec_read(),
        ));
        if taken == 0 {
            assert(counted_on(read, 0) == read);
            return 0;
        }
        let (start, contiguous, wrapped) = split_at_offset(capacity, read, taken);
        let ghost before = out@;
        let mut index: usize = 0;
        while index < contiguous
            invariant
                index <= contiguous,
                start + contiguous <= capacity,
                capacity == self.ring.slots@.len(),
                contiguous <= taken <= before.len(),
                out@.len() == before.len(),
                forall|i: int| taken <= i < before.len() ==> #[trigger] out@[i] == before[i],
            decreases contiguous - index,
        {
            let bits = self.ring.slots[start + index].load(Ordering::Relaxed);
            out[index] = bits;
            index = index + 1;
        }
        let mut index: usize = 0;
        while index < wrapped
            invariant
                index <= wrapped,
                wrapped <= start < capacity,
                capacity == self.ring.slots@.len(),
                contiguous + wrapped == taken,
                taken <= before.len(),
                out@.len() == before.len(),
                forall|i: int| taken <= i < before.len() ==> #[trigger] out@[i] == before[i],
            decreases wrapped - index,
        {
            let bits = self.ring.slots[index].load(Ordering::Relaxed);
            out[contiguous + index] = bits;
            index = index + 1;
        }
        let next = count_on(read, taken);
        self.ring.read.store(next, Ordering::Release);
        self.read = next;
        taken
    }

    /// Drop up to `count` samples without reading them, and report how many
    /// that was.
    ///
    /// A result below `count` means the ring ran dry first. Nothing is copied,
    /// so this is a place to put samples that are known to be stale.
    pub fn skip(&mut self, count: usize) -> (dropped: usize)
        ensures
            exists|written: usize| dropped == #[trigger] skip_count(count, written, old(self).spec_read()),
            dropped <= count,
            final(self).spec_read() == counted_on(old(self).spec_read(), dropped),
            final(self).spec_capacity() == old(self).spec_capacity(),
    {
        let written = self.ring.written.load(Ordering::Acquire);
        self.skip_at(count, written)
    }

    /// Drop up to `count` samples with the producer's counter at `written`.
    fn skip_at(&mut self, count: usize, written: usize) -> (dropped: usize)
        ensures
            dropped == skip_count(count, written, old(self).spec_read()),
            dropped <= count,
            final(self).spec_read() == counted_on(old(self).spec_read(), dropped),
            final(self).spec_capacity() == old(self).spec_capacity(),
    {
        proof {
            use_type_invariant(&*self);
        }
        let read = self.read;
        let dropped = skippable(count, written, read);
        assert(dropped == skip_count(count, written, old(self).spec_read()));
        if dropped == 0 {
            assert(counted_on(read, 0) == read);
            return 0;
        }
        let next = count_on(read, dropped);
        self.ring.read.store(next, Ordering::Release);
        self.read = next;
        dropped
    }

    /// How many samples are waiting to be read, as the producer on the other
    /// thread left them.
    ///
    /// A producer running concurrently can only make this larger, so a read of
    /// this many samples from this thread always succeeds.
    pub fn available(&self) -> (available: usize)
        ensures
            exists|written: usize| available == #[trigger] occupancy(written, self.spec_read()),
    {
        let written = self.ring.written.load(Ordering::Acquire);
        let available = occupied_of(written, self.read);
        assert(available == occupancy(written, self.spec_read()));
        available
    }

    /// The most samples the ring can hold at once.
    pub fn capacity(&self) -> (capacity: usize)
        ensures
            capacity == self.spec_capacity(),
    {
        self.ring.slots.len()
    }
}

} // verus!
