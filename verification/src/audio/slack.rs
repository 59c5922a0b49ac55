//! Holding the frames a boundary keeps between capture and playback, against
//! two clocks that will not agree.
//!
//! The playback end starts a block behind the capture end, and that gap is the
//! whole of the path's give: an underrun spends it once, and drift between two
//! devices spends it steadily. Nothing here resamples, so the correction is
//! frames — a few given up where the ring runs long, a few played that it never
//! supplied where it runs short, capped per block so that holding the slack
//! costs a discontinuity rather than a gap.
//!
//! What it cost is three atomics with one writer, stored with a load and a
//! store. A count saturates rather than wraps.

use std::sync::Arc;
use std::sync::atomic::{AtomicUsize, Ordering};
use vstd::prelude::*;

verus! {

/// What the playback end does to a block to hold the slack.
#[derive(Debug, Clone, Copy, PartialEq, Eq, Structural)]
pub enum Trim {
    /// Play the block as the ring gives it.
    Steady,
    /// Take this many frames off the ring without playing them.
    Drop(usize),
    /// Play this many frames the ring did not supply, holding the last one it
    /// did.
    Insert(usize),
}

/// How far the ring may wander from its target before a correction starts:
/// half a block, and at least a frame.
pub open spec fn wander_of(block: int) -> int {
    if block / 2 >= 1 { block / 2 } else { 1 }
}

/// The most frames one block may correct by: a thirty-second of a block, and at
/// least a frame.
pub open spec fn most_of(block: int) -> int {
    if block / 32 >= 1 { block / 32 } else { 1 }
}

/// The most frames a block of `wanted` may insert while keeping one frame the
/// ring supplied: one fewer than the block or the request, whichever is less.
pub open spec fn room_of(block: int, wanted: int) -> int {
    let least = if block <= wanted { block } else { wanted };
    if least >= 1 { least - 1 } else { 0 }
}

/// How far apart two counts are.
pub open spec fn distance(one: int, other: int) -> int {
    if one >= other { one - other } else { other - one }
}

/// The smaller of two counts.
pub open spec fn least(one: int, other: int) -> int {
    if one <= other { one } else { other }
}

/// What to do where the ring runs short of its target by `missing`: insert as
/// many frames as the per-block cap and the block allow, unless none are
/// allowed or the ring cannot fill the block even so.
pub open spec fn padding_of(block: int, available: int, wanted: int, missing: int) -> Trim {
    let frames = least(least(missing, most_of(block)), room_of(block, wanted));
    if frames == 0 || available + frames < wanted {
        Trim::Steady
    } else {
        Trim::Insert(frames as usize)
    }
}

/// What a trim holding `slack` frames over blocks of `block` does with a block
/// of `wanted` frames against a ring holding `available`, and whether it is
/// correcting afterwards, from whether it was correcting before.
///
/// Nothing happens while the ring is within [`wander_of`] of its target; once
/// it is not, a few frames a block go until the ring is back on target rather
/// than back inside the band.
pub open spec fn trim_of(slack: int, block: int, correcting: bool, available: int, wanted: int) -> (
    Trim,
    bool,
) {
    let target = slack + wanted;
    let now = correcting || distance(available, target) > wander_of(block);
    if !now {
        (Trim::Steady, false)
    } else if available > target {
        (Trim::Drop(least(most_of(block), available - target) as usize), true)
    } else if available < target {
        (padding_of(block, available, wanted, target - available), true)
    } else {
        (Trim::Steady, false)
    }
}

struct Spent {
    held: AtomicUsize,
    dropped: AtomicUsize,
    inserted: AtomicUsize,
}

/// Build the hold for a boundary keeping `slack` frames between its ends and
/// running `block` frames to a callback, and split it into the end that trims
/// and the end that reads.
///
/// Allocates here and never again, so this belongs in setup, before the stream
/// starts.
pub fn slack_hold(slack: usize, block: usize) -> (ends: (SlackTrim, SlackReader))
    ensures
        ends.0.spec_slack() == slack,
        ends.0.spec_block() == block,
        !ends.0.spec_correcting(),
{
    let spent = Arc::new(
        Spent { held: AtomicUsize::new(0), dropped: AtomicUsize::new(0), inserted: AtomicUsize::new(0) },
    );
    (
        SlackTrim {
            slack,
            block,
            wander: wander(block),
            most: most_per_block(block),
            correcting: false,
            spent: Arc::clone(&spent),
        },
        SlackReader { spent },
    )
}

/// The trimming end, held by the playback callback.
///
/// A slow integrator with a dead band: nothing happens while the ring is within
/// half a block of where it should be, and once it is not, a few frames a
/// callback go until the ring is back on target rather than back inside the
/// band.
pub struct SlackTrim {
    slack: usize,
    block: usize,
    wander: usize,
    most: usize,
    correcting: bool,
    spent: Arc<Spent>,
}

impl SlackTrim {
    /// The frames the boundary keeps between its ends.
    pub closed spec fn spec_slack(&self) -> int {
        self.slack as int
    }

    /// The frames the callback runs to a block.
    pub closed spec fn spec_block(&self) -> int {
        self.block as int
    }

    /// Whether a correction is under way.
    pub closed spec fn spec_correcting(&self) -> bool {
        self.correcting
    }

    /// The frames the boundary keeps between its ends.
    pub fn slack(&self) -> (slack: usize)
        ensures
            slack == self.spec_slack(),
    {
        self.slack
    }

    #[verifier::type_invariant]
    spec fn sized_from_block(&self) -> bool {
        &&& self.wander == wander_of(self.block as int)
        &&& self.most == most_of(self.block as int)
    }

    /// What to do with a block of `wanted` frames, against a ring holding
    /// `available`.
    ///
    /// Publishes what it decided as it decides it, so the reading end sees
    /// every block. A ring too dry to fill the block even after an insert is
    /// left alone: the shortfall it is already reporting restores the slack
    /// faster than an insert would.
    ///
    /// Runs on the audio thread, so it neither allocates nor locks.
    pub fn trim(&mut self, available: usize, wanted: usize) -> (trim: Trim)
        requires
            old(self).spec_slack() + wanted <= usize::MAX,
        ensures
            (trim, final(self).spec_correcting()) == trim_of(
                old(self).spec_slack(),
                old(self).spec_block(),
                old(self).spec_correcting(),
                available as int,
                wanted as int,
            ),
            final(self).spec_slack() == old(self).spec_slack(),
            final(self).spec_block() == old(self).spec_block(),
    {
        proof {
            use_type_invariant(&*self);
        }
        let target = self.slack + wanted;
        let apart = if available >= target { available - target } else { target - available };
        let correcting = self.correcting || apart > self.wander;
        let trim = if !correcting {
            Trim::Steady
        } else if available > target {
            let excess = available - target;
            Trim::Drop(if self.most <= excess { self.most } else { excess })
        } else if available < target {
            self.padding(available, wanted, target - available)
        } else {
            Trim::Steady
        };
        let settled = correcting && available != target;
        self.correcting = settled;
        self.publish(trim, available, wanted);
        trim
    }

    fn padding(&self, available: usize, wanted: usize, missing: usize) -> (trim: Trim)
        ensures
            trim == padding_of(self.block as int, available as int, wanted as int, missing as int),
    {
        proof {
            use_type_invariant(self);
        }
        let capped = if missing <= self.most { missing } else { self.most };
        let room = room_to_hold(self.block, wanted);
        let frames = if capped <= room { capped } else { room };
        if frames == 0 || available < wanted && wanted - available > frames {
            return Trim::Steady;
        }
        Trim::Insert(frames)
    }

    fn publish(&self, trim: Trim, available: usize, wanted: usize)
    {
        let (dropped, inserted) = match trim {
            Trim::Steady => (0, 0),
            Trim::Drop(frames) => (frames, 0),
            Trim::Insert(frames) => (0, frames),
        };
        let spent = wanted.saturating_sub(inserted).saturating_add(dropped);
        self.spent.held.store(available.saturating_sub(spent), Ordering::Release);
        self::add(&self.spent.dropped, dropped);
        self::add(&self.spent.inserted, inserted);
    }
}

/// The slack a boundary is holding, and what holding it has cost.
///
/// The two counts only ever grow, so a caller after what the last few seconds
/// cost subtracts an earlier reading.
#[derive(Debug, Clone, Copy, PartialEq, Eq, Structural)]
pub struct Slack {
    /// Frames left between the two ends once the last block was played.
    pub held: usize,
    /// Frames given up to bring the slack down.
    pub dropped: usize,
    /// Frames played that the ring never supplied, to bring the slack up.
    pub inserted: usize,
}

impl Slack {
    /// Nothing held and nothing spent.
    pub open spec fn spec_none() -> Slack {
        Slack { held: 0, dropped: 0, inserted: 0 }
    }

    /// Nothing held and nothing spent, which is what a boundary reports before
    /// its first block and a stream with no ring behind it reports always.
    pub fn none() -> (none: Slack)
        ensures
            none == Slack::spec_none(),
    {
        Slack { held: 0, dropped: 0, inserted: 0 }
    }
}

/// The reading end, held by whichever thread reports what the stream is doing.
#[derive(Clone)]
pub struct SlackReader {
    spent: Arc<Spent>,
}

impl SlackReader {
    /// Another handle on the slack this reader reads.
    pub fn handle(&self) -> (copy: SlackReader)
        ensures
            copy == *self,
    {
        SlackReader { spent: Arc::clone(&self.spent) }
    }

    /// What the trim has been holding, and what it spent getting there, as the
    /// callback on the other thread left it.
    pub fn read(&self) -> Slack {
        Slack {
            held: self.spent.held.load(Ordering::Acquire),
            dropped: self.spent.dropped.load(Ordering::Acquire),
            inserted: self.spent.inserted.load(Ordering::Acquire),
        }
    }
}

fn wander(block: usize) -> (wander: usize)
    ensures
        wander == wander_of(block as int),
{
    let half = block / 2;
    if half >= 1 { half } else { 1 }
}

fn most_per_block(block: usize) -> (most: usize)
    ensures
        most == most_of(block as int),
{
    let share = block / 32;
    if share >= 1 { share } else { 1 }
}

fn room_to_hold(block: usize, wanted: usize) -> (room: usize)
    ensures
        room == room_of(block as int, wanted as int),
{
    let least = if block <= wanted { block } else { wanted };
    least.saturating_sub(1)
}

fn add(count: &AtomicUsize, frames: usize) {
    if frames == 0 {
        return;
    }
    let counted = count.load(Ordering::Relaxed);
    count.store(counted.saturating_add(frames), Ordering::Release);
}

} // verus!
