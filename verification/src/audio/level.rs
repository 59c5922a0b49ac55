//! Publishing how loud a block was, from the audio callback to the application
//! thread.
//!
//! A meter is not a queue. The thread drawing it wants the level now, not every
//! level since it last looked, so a block published while nobody was reading is
//! overwritten. The whole crossing is then one atomic store against one atomic
//! load.
//!
//! Peak and RMS travel packed into a single [`AtomicU64`] — the peak's bits
//! above the RMS's — rather than in two atomics side by side: read separately
//! they can straddle two blocks. Measuring a block is arithmetic on floating
//! point, done where the samples are; what crosses here is the packed word.
//!
//! A meter is built for one stream's channel layout and counts only the
//! channels that stream captures.

use std::sync::Arc;
use std::sync::atomic::{AtomicU64, Ordering};
use vstd::prelude::*;

use super::ChannelSelection;

verus! {

/// The packed word of a block with no signal in it: both levels zero, whose
/// bits are all clear.
pub const SILENT_BITS: u64 = 0;

/// The channels of a block `channels` wide that `selection` reaches: from its
/// first, up to its reach, each held inside the block.
pub open spec fn reachable_of(channels: u16, selection: ChannelSelection) -> (int, int) {
    let first = if selection.first <= channels { selection.first as int } else { channels as int };
    let reach = if selection.spec_reach() <= channels {
        selection.spec_reach()
    } else {
        channels as int
    };
    (first, reach)
}

/// The channels of a block `channels` wide that `selection` reaches, as a range
/// of indices: a selection reaching past the block is narrowed to what the
/// block holds.
pub fn reachable(channels: u16, selection: ChannelSelection) -> (range: (usize, usize))
    ensures
        (range.0 as int, range.1 as int) == reachable_of(channels, selection),
        range.1 <= channels,
{
    let first = if selection.first <= channels { selection.first } else { channels };
    let reach = selection.reach();
    let width = channels as u32;
    let end = if reach <= width { reach } else { width };
    (first as usize, end as usize)
}

/// Build a meter over `selection` of a block `channels` wide, and split it into
/// the end that publishes and the end that reads.
///
/// The storage is allocated here and never again, so this belongs in setup,
/// before the stream starts.
pub fn level_meter(channels: u16, selection: ChannelSelection) -> (ends: (LevelWriter, LevelReader))
    ensures
        ends.0.spec_channels() == channels,
        ends.0.spec_selected() == reachable_of(channels, selection),
        ends.0.feeds(ends.1),
        ends.0.spec_last() == SILENT_BITS,
{
    let published = Arc::new(AtomicU64::new(SILENT_BITS));
    let (first, reach) = reachable(channels, selection);
    (
        LevelWriter {
            published: Arc::clone(&published),
            last: Ghost(SILENT_BITS),
            channels: channels as usize,
            first,
            reach,
        },
        LevelReader { published },
    )
}

/// The measuring end of a meter, held by whichever thread produces samples.
///
/// This is the end the audio callback holds.
pub struct LevelWriter {
    published: Arc<AtomicU64>,
    last: Ghost<u64>,
    channels: usize,
    first: usize,
    reach: usize,
}

impl LevelWriter {
    /// The cell this writer publishes to.
    pub closed spec fn spec_cell(&self) -> AtomicU64 {
        *self.published
    }

    /// Whether `reader` reads the levels this writer publishes: the two hold
    /// one shared cell.
    pub open spec fn feeds(&self, reader: LevelReader) -> bool {
        self.spec_cell() == reader.spec_cell()
    }

    /// The packed level this writer published last: silence, until it
    /// publishes another.
    pub closed spec fn spec_last(&self) -> u64 {
        self.last@
    }

    /// How wide a block it measures is.
    pub closed spec fn spec_channels(&self) -> int {
        self.channels as int
    }

    /// The channels of a block it measures.
    pub closed spec fn spec_selected(&self) -> (int, int) {
        (self.first as int, self.reach as int)
    }

    /// How wide a block it measures is, in channels to a frame.
    pub fn channels(&self) -> (channels: usize)
        ensures
            channels == self.spec_channels(),
    {
        self.channels
    }

    /// The channels of each frame it measures: from the first, up to one past
    /// the last.
    pub fn selected(&self) -> (selected: (usize, usize))
        ensures
            (selected.0 as int, selected.1 as int) == self.spec_selected(),
    {
        (self.first, self.reach)
    }

    /// Publish the packed levels `bits` of the block just measured, replacing
    /// whatever was published before.
    pub fn publish_bits(&mut self, bits: u64)
        ensures
            final(self).spec_last() == bits,
            final(self).spec_channels() == old(self).spec_channels(),
            final(self).spec_selected() == old(self).spec_selected(),
            final(self).spec_cell() == old(self).spec_cell(),
    {
        self.published.store(bits, Ordering::Release);
        self.last = Ghost(bits);
    }

    /// Publish silence, as a stream that stopped playing anything.
    pub fn silence(&mut self)
        ensures
            final(self).spec_last() == SILENT_BITS,
            final(self).spec_channels() == old(self).spec_channels(),
            final(self).spec_selected() == old(self).spec_selected(),
            final(self).spec_cell() == old(self).spec_cell(),
    {
        self.published.store(SILENT_BITS, Ordering::Release);
        self.last = Ghost(SILENT_BITS);
    }
}

#[derive(Clone)]
pub struct LevelReader {
    published: Arc<AtomicU64>,
}

impl LevelReader {
    /// The cell this reader reads.
    pub closed spec fn spec_cell(&self) -> AtomicU64 {
        *self.published
    }

    /// Another handle on the level this reader reads.
    pub fn handle(&self) -> (copy: LevelReader)
        ensures
            copy == *self,
    {
        LevelReader { published: Arc::clone(&self.published) }
    }

    /// The packed levels of the most recently published block, or of silence
    /// where none has been published, as the callback on the other thread left
    /// them.
    pub fn read_bits(&self) -> u64 {
        self.published.load(Ordering::Acquire)
    }
}

} // verus!
