//! Publishing where the loop has got to, from the audio callback to the thread
//! that draws it.
//!
//! A playhead is not a queue. The thread drawing it wants where the loop is now,
//! so a position published while nobody was reading is overwritten. The whole
//! crossing is one atomic store against one atomic load.
//!
//! The playhead, the length and the depth travel packed into a single
//! [`AtomicU64`]. Read as separate atomics they can straddle two blocks and come
//! back as a set no block ever had — a playhead beyond the end of its own loop.
//! Two 30-bit frame counts and a 4-bit depth fill the word exactly.

use std::sync::Arc;
use std::sync::atomic::{AtomicU64, Ordering};
use vstd::prelude::*;

use super::LAYERS;

verus! {

/// Bits a frame count takes in the word.
pub const FRAME_BITS: u64 = 30;
/// Bits the depth takes in the word.
pub const DEPTH_BITS: u64 = 4;
/// Where the length sits in the word.
pub const LENGTH_SHIFT: u64 = 4;
/// Where the playhead sits in the word.
pub const PLAYHEAD_SHIFT: u64 = 34;
/// The bits of a frame count.
pub const FRAME_MASK: u64 = 0x3fff_ffff;
/// The bits of a depth.
pub const DEPTH_MASK: u64 = 0xf;

/// The longest loop a position can carry, in frames: just over a billion, six
/// hours at 48 kHz.
pub const MAX_FRAMES: u32 = 0x3fff_ffff;

/// Where the loop has got to, how long it is, and how many layers it is built
/// from.
#[derive(Debug, Clone, Copy, PartialEq, Eq, Structural)]
pub struct LoopPosition {
    playhead: u32,
    recorded: u32,
    depth: usize,
}

/// The smaller of two counts.
pub open spec fn least(one: int, other: int) -> int {
    if one <= other { one } else { other }
}

impl LoopPosition {
    /// How many frames into the loop the playhead is.
    pub closed spec fn spec_playhead(self) -> u32 {
        self.playhead
    }

    /// How many frames long the loop is.
    pub closed spec fn spec_recorded(self) -> u32 {
        self.recorded
    }

    /// How many layers hold audio.
    pub closed spec fn spec_depth(self) -> usize {
        self.depth
    }

    /// Whether the position is one a loop can be at: a length no longer than a
    /// position carries, a playhead inside it, and no more layers than a loop
    /// has.
    pub open spec fn wf(self) -> bool {
        &&& self.spec_recorded() <= MAX_FRAMES
        &&& self.spec_playhead() <= self.spec_recorded()
        &&& self.spec_depth() <= LAYERS
    }

    /// A loop with nothing recorded, no layers, and nowhere to be.
    pub fn empty() -> (position: Self)
        ensures
            position.spec_playhead() == 0,
            position.spec_recorded() == 0,
            position.spec_depth() == 0,
            position.wf(),
    {
        Self { playhead: 0, recorded: 0, depth: 0 }
    }

    /// A playhead `playhead` frames into a loop of `recorded` frames, built from
    /// `depth` layers.
    ///
    /// A playhead past the end is held at the end, a frame count past
    /// [`MAX_FRAMES`] at that, and a depth past [`LAYERS`] at that, so that a
    /// reader never sees a position outside its own loop.
    pub fn new(playhead: u32, recorded: u32, depth: usize) -> (position: Self)
        ensures
            position.spec_recorded() == least(recorded as int, MAX_FRAMES as int),
            position.spec_playhead() == least(playhead as int, position.spec_recorded() as int),
            position.spec_depth() == least(depth as int, LAYERS as int),
            position.wf(),
    {
        let recorded = if recorded <= MAX_FRAMES { recorded } else { MAX_FRAMES };
        Self {
            playhead: if playhead <= recorded { playhead } else { recorded },
            recorded,
            depth: if depth <= LAYERS { depth } else { LAYERS },
        }
    }

    /// How many frames into the loop the playhead is.
    pub fn playhead(self) -> (playhead: u32)
        ensures
            playhead == self.spec_playhead(),
    {
        self.playhead
    }

    /// How many frames long the loop is.
    pub fn recorded(self) -> (recorded: u32)
        ensures
            recorded == self.spec_recorded(),
    {
        self.recorded
    }

    /// How many layers hold audio, from none up to [`LAYERS`].
    pub fn depth(self) -> (depth: usize)
        ensures
            depth == self.spec_depth(),
    {
        self.depth
    }

    /// The word this position crosses as: the playhead above the length above
    /// the depth.
    pub open spec fn spec_packed(self) -> u64 {
        ((self.spec_playhead() as u64) << PLAYHEAD_SHIFT) | ((self.spec_recorded() as u64)
            << LENGTH_SHIFT) | (self.spec_depth() as u64)
    }

    /// The word this position crosses as.
    pub fn packed(self) -> (word: u64)
        ensures
            word == self.spec_packed(),
    {
        ((self.playhead as u64) << PLAYHEAD_SHIFT) | ((self.recorded as u64) << LENGTH_SHIFT) | (
        self.depth as u64)
    }

    /// The position a word names, held inside its own loop as
    /// [`new`](Self::new) holds one.
    pub fn unpacked(word: u64) -> (position: Self)
        ensures
            position == unpacked_of(word),
            position.wf(),
    {
        Self::new(
            (word >> PLAYHEAD_SHIFT) as u32,
            ((word >> LENGTH_SHIFT) & FRAME_MASK) as u32,
            (word & DEPTH_MASK) as usize,
        )
    }
}

/// The position a word names.
pub open spec fn unpacked_of(word: u64) -> LoopPosition {
    let playhead = (word >> PLAYHEAD_SHIFT) as u32;
    let recorded = ((word >> LENGTH_SHIFT) & FRAME_MASK) as u32;
    let depth = (word & DEPTH_MASK) as usize;
    let held = least(recorded as int, MAX_FRAMES as int);
    choose|position: LoopPosition|
        position.spec_recorded() == held && position.spec_playhead() == least(
            playhead as int,
            held,
        ) && position.spec_depth() == least(depth as int, LAYERS as int)
}

/// A position a loop can be at reads back from its word as itself: what the
/// writer publishes is what the reader draws.
pub proof fn lemma_position_round_trip(position: LoopPosition)
    requires
        position.wf(),
    ensures
        unpacked_of(position.spec_packed()) == position,
{
    let playhead = position.spec_playhead() as u64;
    let recorded = position.spec_recorded() as u64;
    let depth = position.spec_depth() as u64;
    assert(playhead <= 0x3fff_ffff && recorded <= 0x3fff_ffff && depth <= 15);
    let word = (playhead << 34u64) | (recorded << 4u64) | depth;
    assert(word >> 34u64 == playhead) by (bit_vector)
        requires
            playhead <= 0x3fff_ffff,
            recorded <= 0x3fff_ffff,
            depth <= 15,
            word == (playhead << 34u64) | (recorded << 4u64) | depth,
    ;
    assert((word >> 4u64) & 0x3fff_ffffu64 == recorded) by (bit_vector)
        requires
            playhead <= 0x3fff_ffff,
            recorded <= 0x3fff_ffff,
            depth <= 15,
            word == (playhead << 34u64) | (recorded << 4u64) | depth,
    ;
    assert(word & 0xfu64 == depth) by (bit_vector)
        requires
            playhead <= 0x3fff_ffff,
            recorded <= 0x3fff_ffff,
            depth <= 15,
            word == (playhead << 34u64) | (recorded << 4u64) | depth,
    ;
    let held = least(recorded as int, MAX_FRAMES as int);
    assert(position.spec_recorded() == held && position.spec_playhead() == least(
        playhead as int,
        held,
    ) && position.spec_depth() == least(depth as int, LAYERS as int));
    let chosen = unpacked_of(position.spec_packed());
    assert(chosen.spec_recorded() == position.spec_recorded());
    assert(chosen.spec_playhead() == position.spec_playhead());
    assert(chosen.spec_depth() == position.spec_depth());
    lemma_position_fields(chosen, position);
}

/// Two positions alike in every reading are one position.
pub proof fn lemma_position_fields(one: LoopPosition, other: LoopPosition)
    requires
        one.spec_playhead() == other.spec_playhead(),
        one.spec_recorded() == other.spec_recorded(),
        one.spec_depth() == other.spec_depth(),
    ensures
        one == other,
{
}

/// Build a playhead meter, and split it into the end that publishes and the end
/// that reads.
///
/// The storage is allocated here and never again, so this belongs in setup,
/// before the stream starts.
pub fn position_meter() -> (ends: (PositionWriter, PositionReader))
    ensures
        ends.0.feeds(ends.1),
        ends.0.spec_last().spec_playhead() == 0,
        ends.0.spec_last().spec_recorded() == 0,
        ends.0.spec_last().spec_depth() == 0,
{
    let start = LoopPosition::empty();
    let published = Arc::new(AtomicU64::new(start.packed()));
    (
        PositionWriter { published: Arc::clone(&published), last: Ghost(start) },
        PositionReader { published },
    )
}

/// The publishing end of a playhead meter, held by whichever thread moves the
/// loop along.
pub struct PositionWriter {
    published: Arc<AtomicU64>,
    last: Ghost<LoopPosition>,
}

impl PositionWriter {
    /// Whether `reader` reads the positions this writer publishes: the two
    /// hold one shared cell.
    pub closed spec fn feeds(&self, reader: PositionReader) -> bool {
        self.published == reader.published
    }

    /// The position this writer published last: the one a meter starts on,
    /// until it publishes another.
    pub closed spec fn spec_last(&self) -> LoopPosition {
        self.last@
    }

    /// Publish `position`, replacing whatever was there.
    pub fn publish(&mut self, position: LoopPosition)
        ensures
            final(self).spec_last() == position,
            final(self).feeds_as(*old(self)),
    {
        self.published.store(position.packed(), Ordering::Release);
        self.last = Ghost(position);
    }

    /// Whether this writer publishes to the same cell as `other`.
    pub closed spec fn feeds_as(&self, other: PositionWriter) -> bool {
        self.published == other.published
    }
}

/// The reading end of a playhead meter, held by whichever thread draws it.
pub struct PositionReader {
    published: Arc<AtomicU64>,
}

impl PositionReader {
    /// The most recently published position, or the empty one where none has
    /// been published yet, as the callback on the other thread left it.
    ///
    /// Whatever word is there, what comes back is a position a loop can be at.
    pub fn read(&self) -> (position: LoopPosition)
        ensures
            position.wf(),
            exists|word: u64| position == unpacked_of(word),
    {
        LoopPosition::unpacked(self.published.load(Ordering::Acquire))
    }
}

} // verus!
