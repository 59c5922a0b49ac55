//! Counting the blocks that were lost, from the audio callback to the
//! application thread.
//!
//! An xrun is the one thing the callback has to say that nothing else can say
//! for it: a block arrived that there was no room for, or a block was wanted
//! that was not there. The two directions are counted apart because they mean
//! opposite things.
//!
//! Each count has exactly one writer, which keeps its own count and stores it,
//! rather than a read-modify-write. A count saturates rather than wraps.

use std::sync::Arc;
use std::sync::atomic::{AtomicUsize, Ordering};
use vstd::prelude::*;

verus! {

/// How many blocks have been lost in each direction since counting began.
///
/// Both only ever grow. A caller watching for new dropouts subtracts a reading
/// it took earlier rather than expecting these to return to zero.
#[derive(Debug, Clone, Copy, PartialEq, Eq, Structural)]
pub struct Xruns {
    /// Blocks the output could not fill.
    pub underruns: usize,
    /// Blocks of input that were dropped.
    pub overruns: usize,
}

impl Xruns {
    /// Nothing lost in either direction.
    pub open spec fn spec_none() -> Xruns {
        Xruns { underruns: 0, overruns: 0 }
    }

    /// Nothing lost in either direction.
    pub fn none() -> (none: Xruns)
        ensures
            none == Xruns::spec_none(),
    {
        Xruns { underruns: 0, overruns: 0 }
    }
}

struct Counts {
    underruns: AtomicUsize,
    overruns: AtomicUsize,
}

/// Build a counter, and split it into the end that counts dropped input, the
/// end that counts unfilled output, and the end that reads both.
pub fn xrun_counter() -> (ends: (OverrunCounter, UnderrunCounter, XrunReader))
    ensures
        ends.0.feeds(ends.2),
        ends.1.feeds(ends.2),
        ends.0.spec_counted() == 0,
        ends.1.spec_counted() == 0,
{
    let counts = Arc::new(Counts { underruns: AtomicUsize::new(0), overruns: AtomicUsize::new(0) });
    (
        OverrunCounter { counts: Arc::clone(&counts), counted: 0 },
        UnderrunCounter { counts: Arc::clone(&counts), counted: 0 },
        XrunReader { counts },
    )
}

/// The end that counts dropped input, held by whichever thread captures it.
pub struct OverrunCounter {
    counts: Arc<Counts>,
    counted: usize,
}

impl OverrunCounter {
    /// Whether `reader` reads the counts this counter adds to: the two hold
    /// one shared pair of counts.
    pub closed spec fn feeds(&self, reader: XrunReader) -> bool {
        self.counts == reader.counts
    }

    /// Whether this counter adds to the same counts as `other`.
    pub closed spec fn feeds_as(&self, other: OverrunCounter) -> bool {
        self.counts == other.counts
    }

    /// How many overruns this counter has counted: its own count is the only
    /// one added to the shared count it publishes.
    pub closed spec fn spec_counted(&self) -> usize {
        self.counted
    }

    /// Count one block of input that was dropped.
    pub fn overran(&mut self)
        ensures
            final(self).spec_counted() == bumped_count(old(self).spec_counted()),
            final(self).feeds_as(*old(self)),
    {
        self.counted = self.counted.saturating_add(1);
        self.counts.overruns.store(self.counted, Ordering::Release);
    }
}

/// The end that counts unfilled output, held by whichever thread plays it.
pub struct UnderrunCounter {
    counts: Arc<Counts>,
    counted: usize,
}

impl UnderrunCounter {
    /// Whether `reader` reads the counts this counter adds to: the two hold
    /// one shared pair of counts.
    pub closed spec fn feeds(&self, reader: XrunReader) -> bool {
        self.counts == reader.counts
    }

    /// Whether this counter adds to the same counts as `other`.
    pub closed spec fn feeds_as(&self, other: UnderrunCounter) -> bool {
        self.counts == other.counts
    }

    /// How many underruns this counter has counted: its own count is the only
    /// one added to the shared count it publishes.
    pub closed spec fn spec_counted(&self) -> usize {
        self.counted
    }

    /// Count one block of output that could not be filled.
    pub fn underran(&mut self)
        ensures
            final(self).spec_counted() == bumped_count(old(self).spec_counted()),
            final(self).feeds_as(*old(self)),
    {
        self.counted = self.counted.saturating_add(1);
        self.counts.underruns.store(self.counted, Ordering::Release);
    }
}

/// The reading end of a counter, held by whichever thread reports it.
pub struct XrunReader {
    counts: Arc<Counts>,
}

impl XrunReader {
    /// What has been counted so far, as the callbacks on the other threads
    /// left it.
    pub fn read(&self) -> Xruns {
        Xruns {
            underruns: self.counts.underruns.load(Ordering::Acquire),
            overruns: self.counts.overruns.load(Ordering::Acquire),
        }
    }
}

/// A count one more than `counted`, held at the largest there is.
pub open spec fn bumped_count(counted: usize) -> usize {
    if counted < usize::MAX {
        (counted + 1) as usize
    } else {
        counted
    }
}

} // verus!
