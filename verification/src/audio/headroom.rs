//! Measuring how much of a block period the audio callback spent working, and
//! reading it elsewhere.
//!
//! What crosses is the last block's fraction and the largest over a recent
//! window, packed into one word so a reader cannot catch half of each. The
//! running maximum is kept by the writer, so the shared word takes a plain
//! store rather than a compare-and-swap the callback cannot bound.
//!
//! The recent window spans two of the target screen's frames: a maximum has to
//! outlast the gap between two readings or a spike falls between them unseen,
//! and the reader is a screen refreshing at that rate. It advances with the
//! frames that are measured rather than with the clock.

use std::sync::Arc;
use std::sync::atomic::{AtomicU64, Ordering};
use vstd::prelude::*;

use crate::device::{DeviceProfile, ScreenProfile};
use crate::time::{duration_nanos, nanos_of, NANOS_PER_SECOND};

verus! {

/// How a reading of no work crosses: a load and a peak of nothing.
pub const IDLE_BITS: u64 = 0;

/// How many nanoseconds the recent window lasts: two of the target screen's
/// frames.
pub open spec fn recent_nanos() -> int {
    2 * (NANOS_PER_SECOND as int / DeviceProfile::spec_target().screen.refresh_rate as int)
}

/// How many frames at `sample_rate` the recent window covers.
pub open spec fn window_frames(sample_rate: int) -> int {
    sample_rate * recent_nanos() / NANOS_PER_SECOND as int
}

/// Where a recent window has got to: how many frames it covers and how many
/// of them have been measured.
#[derive(Debug, Clone, Copy, PartialEq, Eq, Structural)]
pub struct HeadroomWindow {
    spans: u64,
    covered: u64,
}

impl HeadroomWindow {
    /// How many frames the window covers.
    pub closed spec fn spec_spans(self) -> int {
        self.spans as int
    }

    /// How many frames of it have been measured.
    pub closed spec fn spec_covered(self) -> int {
        self.covered as int
    }

    /// A window of the recent span at `sample_rate`, nothing of it measured.
    pub fn spanning(sample_rate: u32) -> (window: Self)
        ensures
            window.spec_spans() == window_frames(sample_rate as int),
            window.spec_covered() == 0,
    {
        let screen: ScreenProfile = DeviceProfile::target().screen;
        let frame = nanos_of(screen.frame_budget());
        assert(frame == 33_333_333);
        let recent: u64 = 2 * frame as u64;
        assert(sample_rate as u64 * recent <= u64::MAX) by (nonlinear_arith)
            requires
                recent == 66_666_666,
                sample_rate <= u32::MAX,
        ;
        Self { spans: sample_rate as u64 * recent / NANOS_PER_SECOND, covered: 0 }
    }

    /// Count `frames` more measured, and report whether that completed the
    /// window, which then starts again with nothing measured.
    ///
    /// A count past the largest a `u64` holds stays there.
    pub fn pass(&mut self, frames: u64) -> (completed: bool)
        ensures
            final(self).spec_spans() == old(self).spec_spans(),
            completed == (fewer_of(old(self).spec_covered() + frames, u64::MAX as int) >= old(
                self,
            ).spec_spans()),
            final(self).spec_covered() == if completed {
                0
            } else {
                old(self).spec_covered() + frames
            },
    {
        self.covered = self.covered.saturating_add(frames);
        if self.covered >= self.spans {
            self.covered = 0;
            true
        } else {
            false
        }
    }
}

/// The lesser of two counts.
pub open spec fn fewer_of(one: int, other: int) -> int {
    if one <= other { one } else { other }
}

/// Build a meter for a stream running at `sample_rate`, and split it into the
/// measuring end and the reading end, both reading as idle.
///
/// Allocates here and never again, so this belongs in setup, before the stream
/// starts. A stream has one per callback rather than one in total.
pub fn headroom_meter(sample_rate: u32) -> (ends: (HeadroomWriter, HeadroomReader))
    ensures
        ends.0.spec_sample_rate() == sample_rate,
        ends.0.spec_window().spec_spans() == window_frames(sample_rate as int),
        ends.0.spec_window().spec_covered() == 0,
        ends.0.feeds(ends.1),
        ends.0.spec_last() == IDLE_BITS,
{
    let published = Arc::new(AtomicU64::new(IDLE_BITS));
    (
        HeadroomWriter {
            published: Arc::clone(&published),
            last: IDLE_BITS,
            sample_rate,
            window: HeadroomWindow::spanning(sample_rate),
        },
        HeadroomReader { published },
    )
}

/// The measuring end of a meter, held by whichever thread runs the callback.
pub struct HeadroomWriter {
    published: Arc<AtomicU64>,
    last: u64,
    sample_rate: u32,
    window: HeadroomWindow,
}

impl HeadroomWriter {
    /// Whether `reader` reads the headroom this writer publishes: the two
    /// hold one shared cell.
    pub closed spec fn feeds(&self, reader: HeadroomReader) -> bool {
        self.published == reader.published
    }

    /// Whether this writer publishes to the same cell as `other`.
    pub closed spec fn feeds_as(&self, other: HeadroomWriter) -> bool {
        self.published == other.published
    }

    /// The word this writer published last: idle, until it publishes
    /// another.
    pub closed spec fn spec_last(&self) -> u64 {
        self.last
    }

    /// The rate the stream runs at.
    pub closed spec fn spec_sample_rate(&self) -> u32 {
        self.sample_rate
    }

    /// Where the recent window has got to.
    pub closed spec fn spec_window(&self) -> HeadroomWindow {
        self.window
    }

    /// The rate the stream runs at, which a block's period is measured against.
    pub fn sample_rate(&self) -> (rate: u32)
        ensures
            rate == self.spec_sample_rate(),
    {
        self.sample_rate
    }

    /// Whether a block of `frames` frames has a period to be a fraction of.
    ///
    /// A block of no frames, or a stream with no sample rate, has none: it is
    /// not measured, and the previous reading stands.
    pub fn measures(&self, frames: usize) -> (measured: bool)
        ensures
            measured == (frames > 0 && self.spec_sample_rate() > 0),
    {
        frames > 0 && self.sample_rate > 0
    }

    /// Count a measured block of `frames` frames against the recent window,
    /// and report whether that completed it.
    pub fn pass(&mut self, frames: u64) -> (completed: bool)
        ensures
            final(self).spec_sample_rate() == old(self).spec_sample_rate(),
            final(self).spec_window().spec_spans() == old(self).spec_window().spec_spans(),
            completed == (fewer_of(old(self).spec_window().spec_covered() + frames, u64::MAX as int)
                >= old(self).spec_window().spec_spans()),
            final(self).spec_window().spec_covered() == if completed {
                0
            } else {
                old(self).spec_window().spec_covered() + frames
            },
    {
        self.window.pass(frames)
    }

    /// The reading published last, as the word it crossed in.
    pub fn last_bits(&self) -> (word: u64)
        ensures
            word == self.spec_last(),
    {
        self.last
    }

    /// Publish a reading, as the word its load and peak are packed into.
    pub fn publish_bits(&mut self, word: u64)
        ensures
            final(self).spec_sample_rate() == old(self).spec_sample_rate(),
            final(self).spec_window() == old(self).spec_window(),
            final(self).spec_last() == word,
            final(self).feeds_as(*old(self)),
    {
        self.published.store(word, Ordering::Release);
        self.last = word;
    }
}

/// The reading end of a meter, held by whichever thread reports it.
pub struct HeadroomReader {
    published: Arc<AtomicU64>,
}

impl HeadroomReader {
    /// The most recent block's reading, as the word its load and peak are
    /// packed into, or [`IDLE_BITS`] where no block has been measured yet.
    ///
    /// Reading takes nothing: a peak stays readable until the window it belongs
    /// to has passed, so two readers see the same spike and neither hides it
    /// from the other.
    pub fn read_bits(&self) -> u64 {
        self.published.load(Ordering::Acquire)
    }
}

} // verus!
