//! How many frames the device has moved, published from the callback to the
//! threads that time things against it.
//!
//! Captured audio is timestamped in frames, so anything meant to line up with
//! it has to be timestamped the same way. The callback is the only thread that
//! knows how many frames have gone by, so it is the one that publishes them.

use std::sync::Arc;
use std::sync::atomic::{AtomicU64, Ordering};
use vstd::prelude::*;

verus! {

/// Build a sample clock, and split it into the end that counts and the end that
/// reads.
///
/// The storage is allocated here and never again, so this belongs in setup,
/// before the stream starts.
pub fn sample_clock() -> (ends: (SampleClockWriter, SampleClockReader))
    ensures
        ends.0.feeds(ends.1),
        ends.0.spec_count() == 0,
{
    let counted = Arc::new(AtomicU64::new(0));
    (SampleClockWriter { counted: Arc::clone(&counted), count: 0 }, SampleClockReader { counted })
}

/// The count a clock reaches from `counted` after `frames` more, saturating
/// rather than wrapping.
pub open spec fn advanced(counted: u64, frames: usize) -> u64 {
    if counted + frames <= u64::MAX {
        (counted + frames) as u64
    } else {
        u64::MAX
    }
}

/// The counting end of a sample clock, held by the audio callback.
///
/// `&mut self` on the one method that writes is what makes this the only
/// counting end.
pub struct SampleClockWriter {
    counted: Arc<AtomicU64>,
    count: u64,
}

impl SampleClockWriter {
    /// Whether `reader` reads the count this writer publishes: the two hold
    /// one shared cell.
    pub closed spec fn feeds(&self, reader: SampleClockReader) -> bool {
        self.counted == reader.counted
    }

    /// How many frames this writer has counted: it is the only writer of the
    /// count, so this is what it last published.
    pub closed spec fn spec_count(&self) -> u64 {
        self.count
    }

    /// Whether this writer publishes to the same cell as `other`.
    pub closed spec fn feeds_as(&self, other: SampleClockWriter) -> bool {
        self.counted == other.counted
    }

    /// Count `frames` more, and report the count they reached.
    ///
    /// Call it once per block, with the frames that block covered. The count
    /// saturates rather than wrapping, which is still better than a clock that
    /// goes backwards. The count it starts from is whatever the clock holds,
    /// so what is promised is the step from there.
    pub fn advance(&mut self, frames: usize) -> (reached: u64)
        ensures
            reached == advanced(old(self).spec_count(), frames),
            final(self).spec_count() == reached,
            final(self).feeds_as(*old(self)),
            reached >= frames,
    {
        let reached = self.count.saturating_add(frames_as_count(frames));
        self.count = reached;
        self.counted.store(reached, Ordering::Release);
        reached
    }
}

fn frames_as_count(frames: usize) -> (count: u64)
    ensures
        count == frames,
{
    frames as u64
}

/// The reading end of a sample clock, held by whichever thread timestamps
/// against it.
pub struct SampleClockReader {
    counted: Arc<AtomicU64>,
}

impl SampleClockReader {
    /// How many frames the device has moved since the clock was made.
    ///
    /// Reading takes nothing: the count only ever grows, so two reads that find
    /// the same value mean no block landed between them. The value is the
    /// callback's, on another thread, so nothing here names it.
    pub fn read(&self) -> u64 {
        self.counted.load(Ordering::Acquire)
    }
}

} // verus!
