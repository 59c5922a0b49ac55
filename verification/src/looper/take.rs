//! Handing a finished take to the thread that analyses it.
//!
//! The samples themselves have to cross this time: an analyser wants the loop
//! rather than a summary of it. What makes that safe on a callback that may not
//! allocate or block is that the memory is already there and the crossing ends
//! in an exchange of slots rather than a copy — three of them, so the writer
//! always has one to fill and the reader can hold one for as long as its
//! analysis takes.
//!
//! A take is finished exactly once, when the player leaves a capturing state,
//! and it is swept across over a fixed span of frames rather than in a single
//! pass: a whole loop copied inside one callback is a spike no deadline
//! survives. Samples travel as the bits of their value.

use std::sync::Arc;
use std::sync::atomic::{AtomicU32, AtomicUsize, Ordering};
use vstd::prelude::*;

use crate::device::AudioProfile;

verus! {

/// How many slots a handoff exchanges between its ends.
pub const SLOT_COUNT: usize = 3;

/// How many blocks of the profile's size a take is spread across.
pub const CROSSING_BLOCKS: usize = 64;

/// Added to a published slot's index while the reader has not taken it.
const UNREAD: usize = 3;

/// How a slot's count of bars reads where the player stated none.
const UNCOUNTED: u32 = 0;

struct Shared {
    slots: Vec<Vec<AtomicU32>>,
    frames: Vec<AtomicUsize>,
    bars: Vec<AtomicU32>,
    published: AtomicUsize,
    capacity: usize,
}

/// Whether the storage both ends share has its three slots, each of the
/// capacity it was built with.
spec fn shared_wf(shared: Shared) -> bool {
    &&& shared.slots@.len() == SLOT_COUNT
    &&& shared.frames@.len() == SLOT_COUNT
    &&& shared.bars@.len() == SLOT_COUNT
    &&& forall|slot: int| 0 <= slot < SLOT_COUNT ==> #[trigger] shared.slots@[slot]@.len() == shared.capacity
}

/// `numerator` over `denominator`, rounded up.
pub open spec fn ceiling(numerator: int, denominator: int) -> int {
    (numerator + denominator - 1) / denominator
}

/// The lesser of two counts.
pub open spec fn fewer(one: int, other: int) -> int {
    if one <= other { one } else { other }
}

/// How many frames of a take of `frames` a block handing over `handed` frames
/// carries, against a profile block of `block` and scratch for `scratch`.
///
/// A take is spread over [`CROSSING_BLOCKS`] blocks of the profile's size; a
/// block handing over fewer frames carries less of it, one handing over more
/// carries more, and none carries more than the scratch a block's share was
/// sized for.
pub open spec fn share_of(frames: int, handed: int, block: int, scratch: int) -> int {
    let each = ceiling(frames, CROSSING_BLOCKS as int);
    let wanted = if each * handed <= usize::MAX { each * handed } else { usize::MAX as int };
    fewer(ceiling(wanted, block), scratch)
}

fn div_ceil(numerator: usize, denominator: usize) -> (rounded: usize)
    requires
        denominator > 0,
    ensures
        rounded == ceiling(numerator as int, denominator as int),
{
    let whole = numerator / denominator;
    if numerator % denominator == 0 {
        proof {
            assert(numerator as int == whole * denominator) by (nonlinear_arith)
                requires
                    whole == numerator / denominator,
                    numerator % denominator == 0,
                    denominator > 0,
            ;
            assert((numerator + denominator - 1) / (denominator as int) == whole) by (nonlinear_arith)
                requires
                    numerator as int == whole * denominator,
                    denominator > 0,
            ;
        }
        whole
    } else {
        proof {
            let rest = numerator % denominator;
            assert(numerator as int == whole * denominator + rest) by (nonlinear_arith)
                requires
                    whole == numerator / denominator,
                    rest == numerator % denominator,
                    denominator > 0,
            ;
            assert((numerator + denominator - 1) / (denominator as int) == whole + 1) by (nonlinear_arith)
                requires
                    numerator as int == whole * denominator + rest,
                    0 < rest < denominator,
            ;
            assert(whole < numerator) by (nonlinear_arith)
                requires
                    numerator as int == whole * denominator + rest,
                    0 < rest < denominator,
                    denominator > 0,
            ;
        }
        whole + 1
    }
}

fn atomic_cells(count: usize) -> (cells: Vec<AtomicU32>)
    ensures
        cells@.len() == count,
{
    let mut cells: Vec<AtomicU32> = Vec::new();
    while cells.len() < count
        invariant
            cells@.len() <= count,
        decreases count - cells@.len(),
    {
        cells.push(AtomicU32::new(0));
    }
    cells
}

/// Build a take handoff for loops as long as `profile` allows, and split it
/// into the end that publishes and the end that reads.
///
/// Three slots of the longest loop, allocated here and never again, so this
/// belongs in setup. Three is what lets the writer fill one while the reader
/// holds another. A profile with no loop to record, or no block to cross it
/// in, has nothing to build.
pub fn take_handoff(profile: AudioProfile) -> (ends: (TakeWriter, TakeReader))
    requires
        profile.spec_max_loop_frames() > 0,
        profile.block_size > 0,
    ensures
        ends.0.spec_capacity() == profile.spec_max_loop_frames(),
        ends.0.spec_block() == profile.block_size,
        ends.0.spec_scratch() == ceiling(profile.spec_max_loop_frames(), CROSSING_BLOCKS as int),
        ends.0.spec_crossing() is None,
        ends.0.spec_writing() == 0,
        ends.0.spec_stored() == Seq::new(
            SLOT_COUNT as nat,
            |slot: int| Seq::new(profile.spec_max_loop_frames() as nat, |frame: int| 0u32),
        ),
        ends.1.spec_reading() == 1,
{
    let capacity = profile.max_loop_frames();
    let block = profile.block_size as usize;
    let mut slots: Vec<Vec<AtomicU32>> = Vec::new();
    slots.push(atomic_cells(capacity));
    slots.push(atomic_cells(capacity));
    slots.push(atomic_cells(capacity));
    let mut frames: Vec<AtomicUsize> = Vec::new();
    let mut bars: Vec<AtomicU32> = Vec::new();
    let mut slot: usize = 0;
    while slot < SLOT_COUNT
        invariant
            slot <= SLOT_COUNT,
            frames@.len() == slot,
            bars@.len() == slot,
        decreases SLOT_COUNT - slot,
    {
        frames.push(AtomicUsize::new(0));
        bars.push(AtomicU32::new(UNCOUNTED));
        slot = slot + 1;
    }
    let shared = Shared {
        slots,
        frames,
        bars,
        published: AtomicUsize::new(SLOT_COUNT - 1),
        capacity,
    };
    assert(shared_wf(shared));
    let shared = Arc::new(shared);
    let writer = TakeWriter {
        shared: Arc::clone(&shared),
        scratch: div_ceil(capacity, CROSSING_BLOCKS),
        block,
        writing: 0,
        crossing: None,
        stored: Ghost(Seq::new(SLOT_COUNT as nat, |slot: int| Seq::new(capacity as nat, |frame: int| 0u32))),
    };
    (writer, TakeReader { shared, reading: 1 })
}

fn store_cell(cells: &Vec<AtomicU32>, at: usize, bits: u32)
    requires
        at < cells@.len(),
{
    cells[at].store(bits, Ordering::Relaxed);
}

/// What a slot holding `held` holds once `carried` is laid into it from frame
/// `from`: each carried sample at its own frame past `from`, and every other
/// frame as it was.
pub open spec fn laid_over(held: Seq<u32>, from: int, carried: Seq<u32>) -> Seq<u32> {
    Seq::new(
        held.len(),
        |frame: int|
            if from <= frame < from + carried.len() {
                carried[frame - from]
            } else {
                held[frame]
            },
    )
}

/// A share lands in order: after laying `carried` into a slot from frame
/// `from`, frame `from + k` holds the `k`th sample carried, for every `k`,
/// and nothing outside the share moves. Two shares laid end to end read back
/// as the one share they make together.
pub proof fn lemma_shares_land_in_order(held: Seq<u32>, from: int, carried: Seq<u32>, next: Seq<u32>)
    requires
        0 <= from,
        from + carried.len() + next.len() <= held.len(),
    ensures
        laid_over(held, from, carried).len() == held.len(),
        forall|k: int| 0 <= k < carried.len() ==> #[trigger] laid_over(held, from, carried)[from + k] == carried[k],
        forall|frame: int|
            0 <= frame < held.len() && !(from <= frame < from + carried.len()) ==> #[trigger] laid_over(
                held,
                from,
                carried,
            )[frame] == held[frame],
        laid_over(laid_over(held, from, carried), from + carried.len(), next) == laid_over(
            held,
            from,
            carried + next,
        ),
{
    assert(laid_over(laid_over(held, from, carried), from + carried.len(), next) =~= laid_over(
        held,
        from,
        carried + next,
    ));
}

/// `held` with frame `at` holding `bits`.
spec fn with_frame(held: Seq<u32>, at: usize, bits: u32) -> Seq<u32> {
    held.update(at as int, bits)
}

/// Store the sample bits `bits` at frame `at` of `cells`, whose frames the
/// writer last stored as `held`, and give back what it has stored there now.
fn store_cell_as(cells: &Vec<AtomicU32>, at: usize, bits: u32, Ghost(held): Ghost<Seq<u32>>) -> (stored: Ghost<Seq<u32>>)
    requires
        at < cells@.len(),
        held.len() == cells@.len(),
    ensures
        stored@ == with_frame(held, at, bits),
{
    cells[at].store(bits, Ordering::Relaxed);
    Ghost(with_frame(held, at, bits))
}

/// Lay `carried` into `slot` from frame `from`, the slot's frames having last
/// been stored as `held`, and give back what they are stored as now.
fn store_span(slot: &Vec<AtomicU32>, from: usize, carried: &[u32], Ghost(held): Ghost<Seq<u32>>) -> (stored: Ghost<Seq<u32>>)
    requires
        from + carried@.len() <= slot@.len(),
        held.len() == slot@.len(),
    ensures
        stored@ == laid_over(held, from as int, carried@),
{
    let length = slot.len();
    let mut offset: usize = 0;
    let mut stored: Ghost<Seq<u32>> = Ghost(held);
    assert(laid_over(held, from as int, carried@.take(0)) =~= held);
    while offset < carried.len()
        invariant
            from + carried@.len() <= slot@.len(),
            length == slot@.len(),
            held.len() == slot@.len(),
            offset <= carried@.len(),
            stored@ == laid_over(held, from as int, carried@.take(offset as int)),
        decreases carried@.len() - offset,
    {
        let ghost before = stored@;
        stored = store_cell_as(slot, from + offset, carried[offset], stored);
        proof {
            assert(stored@ =~= laid_over(held, from as int, carried@.take(offset + 1)));
        }
        offset = offset + 1;
    }
    assert(carried@.take(carried@.len() as int) =~= carried@);
    stored
}

/// A take part of the way across: how long it is, and how much has crossed.
#[derive(Clone, Copy)]
struct Crossing {
    frames: usize,
    cursor: usize,
}

/// The publishing end of a take handoff, held by whichever thread owns the
/// loop.
///
/// This is the end the audio callback holds.
pub struct TakeWriter {
    shared: Arc<Shared>,
    scratch: usize,
    block: usize,
    writing: usize,
    crossing: Option<Crossing>,
    stored: Ghost<Seq<Seq<u32>>>,
}

impl TakeWriter {
    /// The longest take a slot holds.
    pub closed spec fn spec_capacity(&self) -> int {
        self.shared.capacity as int
    }

    /// The block a share is measured against.
    pub closed spec fn spec_block(&self) -> int {
        self.block as int
    }

    /// The most a block carries of any take.
    pub closed spec fn spec_scratch(&self) -> int {
        self.scratch as int
    }

    /// The slot being filled.
    pub closed spec fn spec_writing(&self) -> int {
        self.writing as int
    }

    /// The sample bits this writer has stored in each slot, frame by frame.
    pub closed spec fn spec_stored(&self) -> Seq<Seq<u32>> {
        self.stored@
    }

    /// The take in flight, as its length and how much of it has crossed.
    pub closed spec fn spec_crossing(&self) -> Option<(int, int)> {
        match self.crossing {
            Some(crossing) => Some((crossing.frames as int, crossing.cursor as int)),
            None => None,
        }
    }

    #[verifier::type_invariant]
    spec fn slots_in_reach(&self) -> bool {
        &&& shared_wf(*self.shared)
        &&& self.block > 0
        &&& self.writing < SLOT_COUNT
        &&& self.stored@.len() == SLOT_COUNT
        &&& forall|slot: int| 0 <= slot < SLOT_COUNT ==> #[trigger] self.stored@[slot].len() == self.shared.capacity
        &&& match self.crossing {
            Some(crossing) => crossing.cursor < crossing.frames <= self.shared.capacity,
            None => true,
        }
    }

    /// Begin handing over a take `length` frames long, which the player
    /// counted as `bars` where they said, dropping whatever crossing was in
    /// flight.
    ///
    /// A take of no frames begins nothing, and one longer than the handoff was
    /// built for crosses as much as fits.
    pub fn begin(&mut self, length: usize, bars: Option<u32>)
        ensures
            final(self).spec_crossing() == if fewer(length as int, old(self).spec_capacity()) > 0 {
                Some((fewer(length as int, old(self).spec_capacity()), 0int))
            } else {
                None
            },
            final(self).spec_capacity() == old(self).spec_capacity(),
            final(self).spec_block() == old(self).spec_block(),
            final(self).spec_scratch() == old(self).spec_scratch(),
            final(self).spec_writing() == old(self).spec_writing(),
            final(self).spec_stored() == old(self).spec_stored(),
    {
        proof {
            use_type_invariant(&*self);
        }
        let capacity = self.shared.capacity;
        let frames = if length <= capacity { length } else { capacity };
        let counted = match bars {
            Some(bits) => bits,
            None => UNCOUNTED,
        };
        store_cell(&self.shared.bars, self.writing, counted);
        self.crossing = if frames > 0 { Some(Crossing { frames, cursor: 0 }) } else { None };
    }

    /// Where the next share begins and how many frames it carries, for a block
    /// handing over `handed` frames, or nothing where no take is in flight.
    pub fn window(&self, handed: usize) -> (window: Option<(usize, usize)>)
        ensures
            match self.spec_crossing() {
                Some((frames, cursor)) => window == Some(
                    (
                        cursor as usize,
                        fewer(
                            frames - cursor,
                            share_of(frames, handed as int, self.spec_block(), self.spec_scratch()),
                        ) as usize,
                    ),
                ),
                None => window is None,
            },
    {
        proof {
            use_type_invariant(self);
        }
        match self.crossing {
            Some(crossing) => {
                let share = self.share(crossing.frames, handed);
                let left = crossing.frames - crossing.cursor;
                Some((crossing.cursor, if left <= share { left } else { share }))
            },
            None => None,
        }
    }

    /// Carry the crossing forward by `carried`, the bits of the samples the
    /// [`window`](Self::window) for `handed` covers, and report whether any of
    /// the take is still to cross.
    ///
    /// Nothing is published until the last share lands, and with none in
    /// flight the answer is `false`.
    pub fn advance(&mut self, handed: usize, carried: &[u32]) -> (still: bool)
        requires
            match old(self).spec_crossing() {
                Some((frames, cursor)) => carried@.len() == fewer(
                    frames - cursor,
                    share_of(frames, handed as int, old(self).spec_block(), old(self).spec_scratch()),
                ),
                None => true,
            },
        ensures
            still == final(self).spec_crossing() is Some,
            final(self).spec_capacity() == old(self).spec_capacity(),
            final(self).spec_block() == old(self).spec_block(),
            final(self).spec_scratch() == old(self).spec_scratch(),
            match old(self).spec_crossing() {
                Some((frames, cursor)) => {
                    &&& final(self).spec_stored() == old(self).spec_stored().update(
                        old(self).spec_writing(),
                        laid_over(old(self).spec_stored()[old(self).spec_writing()], cursor, carried@),
                    )
                    &&& cursor + carried@.len() < frames ==> {
                        &&& final(self).spec_crossing() == Some((frames, cursor + carried@.len()))
                        &&& final(self).spec_writing() == old(self).spec_writing()
                    }
                    &&& cursor + carried@.len() >= frames ==> final(self).spec_crossing() is None
                },
                None => {
                    &&& final(self).spec_crossing() is None
                    &&& final(self).spec_writing() == old(self).spec_writing()
                    &&& final(self).spec_stored() == old(self).spec_stored()
                },
            },
    {
        proof {
            use_type_invariant(&*self);
        }
        let crossing = match self.crossing {
            Some(crossing) => crossing,
            None => {
                return false;
            },
        };
        let share = carried.len();
        let ghost writing = self.writing as int;
        let ghost held = self.stored@[writing];
        let stored = store_span(&self.shared.slots[self.writing], crossing.cursor, carried, Ghost(held));
        self.stored = Ghost(self.stored@.update(writing, stored@));
        let cursor = crossing.cursor + share;
        if cursor < crossing.frames {
            self.crossing = Some(Crossing { frames: crossing.frames, cursor });
            true
        } else {
            self.crossing = None;
            self.publish(crossing.frames);
            false
        }
    }

    /// Drop the crossing in flight, leaving the last take that finished one
    /// where it is.
    pub fn abandon(&mut self)
        ensures
            final(self).spec_crossing() is None,
            final(self).spec_capacity() == old(self).spec_capacity(),
            final(self).spec_block() == old(self).spec_block(),
            final(self).spec_scratch() == old(self).spec_scratch(),
            final(self).spec_writing() == old(self).spec_writing(),
            final(self).spec_stored() == old(self).spec_stored(),
    {
        proof {
            use_type_invariant(&*self);
        }
        self.crossing = None;
    }

    fn share(&self, frames: usize, handed: usize) -> (share: usize)
        requires
            self.block > 0,
        ensures
            share == share_of(frames as int, handed as int, self.block as int, self.scratch as int),
    {
        let each = div_ceil(frames, CROSSING_BLOCKS);
        let wanted = match each.checked_mul(handed) {
            Some(product) => product,
            None => usize::MAX,
        };
        let rounded = div_ceil(wanted, self.block);
        if rounded <= self.scratch { rounded } else { self.scratch }
    }

    fn publish(&mut self, frames: usize)
        ensures
            final(self).shared == old(self).shared,
            final(self).scratch == old(self).scratch,
            final(self).block == old(self).block,
            final(self).crossing == old(self).crossing,
            final(self).stored == old(self).stored,
            final(self).writing < SLOT_COUNT,
    {
        proof {
            use_type_invariant(&*self);
        }
        self.shared.frames[self.writing].store(frames, Ordering::Relaxed);
        let read = self.shared.published.swap(self.writing + UNREAD, Ordering::AcqRel);
        self.writing = read % SLOT_COUNT;
    }
}

/// The reading end of a take handoff, held by whichever thread analyses the
/// loop.
///
/// This is the end the application thread holds.
pub struct TakeReader {
    shared: Arc<Shared>,
    reading: usize,
}

impl TakeReader {
    /// The slot the reader holds.
    pub closed spec fn spec_reading(&self) -> int {
        self.reading as int
    }

    #[verifier::type_invariant]
    spec fn slot_in_reach(&self) -> bool {
        &&& shared_wf(*self.shared)
        &&& self.reading < SLOT_COUNT
    }

    /// The newest finished take, or nothing where none has finished since the
    /// last was taken.
    ///
    /// What comes back is the reader's until it is dropped: the writer
    /// publishes past it rather than into it, so an analysis pass may run as
    /// long as it likes. Takes finishing while one is held replace each other,
    /// so what a long pass finds waiting is the newest rather than the next.
    pub fn claim(&mut self) -> (take: Option<FinishedTake<'_>>)
        ensures
            match take {
                Some(take) => take.spec_frames() <= take.spec_capacity(),
                None => true,
            },
    {
        proof {
            use_type_invariant(&*self);
        }
        if self.shared.published.load(Ordering::Acquire) < UNREAD {
            return None;
        }
        let unread = self.shared.published.swap(self.reading, Ordering::AcqRel);
        self.reading = unread % SLOT_COUNT;
        let stored = self.shared.frames[self.reading].load(Ordering::Relaxed);
        let capacity = self.shared.capacity;
        let frames = if stored <= capacity { stored } else { capacity };
        let counted = self.shared.bars[self.reading].load(Ordering::Relaxed);
        Some(
            FinishedTake {
                samples: &self.shared.slots[self.reading],
                frames,
                bars: if counted == UNCOUNTED { None } else { Some(counted) },
            },
        )
    }
}

/// A finished take, held by the thread reading it.
///
/// The samples are the loop's layers summed — what the player heard, and what
/// harmony is inferred from. They are read out one at a time rather than
/// borrowed as a slice, because the storage they crossed in is shared with the
/// callback.
pub struct FinishedTake<'a> {
    samples: &'a Vec<AtomicU32>,
    frames: usize,
    bars: Option<u32>,
}

impl<'a> FinishedTake<'a> {
    /// How many frames the take holds.
    pub closed spec fn spec_frames(&self) -> int {
        self.frames as int
    }

    /// How many frames the slot it crossed in holds.
    pub closed spec fn spec_capacity(&self) -> int {
        self.samples@.len() as int
    }

    /// How the player said the take divides, as the bits of their count.
    pub closed spec fn spec_bars(&self) -> Option<u32> {
        self.bars
    }

    #[verifier::type_invariant]
    spec fn frames_in_slot(&self) -> bool {
        &&& self.frames <= self.samples@.len()
        &&& self.bars != Some(UNCOUNTED)
    }

    /// How many frames the take holds.
    pub fn frames(&self) -> (frames: usize)
        ensures
            frames == self.spec_frames(),
    {
        self.frames
    }

    /// How the player said the take divides, as the bits of their count, where
    /// they said.
    ///
    /// Nothing infers it and nothing defaults it: a take nobody counted comes
    /// back uncounted, because a guessed count tracks worse than no count.
    pub fn bars(&self) -> (bars: Option<u32>)
        ensures
            bars == self.spec_bars(),
            bars != Some(0u32),
    {
        proof {
            use_type_invariant(self);
        }
        self.bars
    }

    /// The bits of the take's sample at frame `index`.
    pub fn sample_bits(&self, index: usize) -> u32
        requires
            index < self.spec_frames(),
    {
        proof {
            use_type_invariant(self);
        }
        self.samples[index].load(Ordering::Relaxed)
    }
}

} // verus!
