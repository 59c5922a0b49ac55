//! Timing a click out of the output and back in at the input, so that
//! "zero-latency passthrough" is a number rather than a claim.
//!
//! [`LatencyProbe`] plays a single-frame click and counts the frames until it
//! hears one, which over a loopback cable is the whole round trip. It publishes
//! over one atomic store, as the meters beside it do.
//!
//! A take is not started until the stream has settled, and a click that does
//! not come back inside the listening span stops the probe rather than starting
//! another: a second click would collect the first one's late return inside its
//! own window and report it as a short round trip.
//!
//! Whether a block's captured frames hold the click is a comparison on floating
//! point, made where the samples are; the probe is told where the first
//! crossing fell, if anywhere, and decides the rest.

use std::sync::Arc;
use std::sync::atomic::{AtomicU64, Ordering};
use std::time::Duration;
use vstd::prelude::*;

use crate::time::{duration_nanos, from_total_nanos};

verus! {

/// Blocks of round trip a passthrough is allowed to cost: one of the boundary's
/// own slack and a double buffer on each of capture and playback.
pub const ROUND_TRIP_BUDGET_BLOCKS: u32 = 5;

/// How long a probe plays silence before each click, in milliseconds.
pub const SETTLING_MILLIS: u64 = 250;

/// How long a probe waits for its click before it gives up on the loop, in
/// milliseconds.
pub const LISTENING_MILLIS: u64 = 250;

/// Nanoseconds in a second.
pub const NANOSECONDS_PER_SECOND: u64 = 1_000_000_000;
/// Milliseconds in a second.
pub const MILLISECONDS_PER_SECOND: u64 = 1_000;

/// How long a click took to come back, in frames.
///
/// Frames rather than a duration, because a duration means nothing apart from
/// the rate it was measured at.
#[derive(Debug, Clone, Copy, PartialEq, Eq, Structural)]
pub struct RoundTrip {
    /// Frames between the click going out and coming back in.
    pub frames: u32,
}

impl RoundTrip {
    /// The most a round trip may cost, on a stream granted `block_size`:
    /// [`ROUND_TRIP_BUDGET_BLOCKS`] of them, saturating at what a `u32` holds.
    pub fn budget(block_size: u32) -> (budget: Self)
        ensures
            budget.frames == if block_size * ROUND_TRIP_BUDGET_BLOCKS <= u32::MAX {
                block_size * ROUND_TRIP_BUDGET_BLOCKS
            } else {
                u32::MAX as int
            },
    {
        let frames = match block_size.checked_mul(ROUND_TRIP_BUDGET_BLOCKS) {
            Some(frames) => frames,
            None => u32::MAX,
        };
        Self { frames }
    }

    /// How long this is, at `sample_rate`, to the whole nanosecond below.
    ///
    /// A stream running at no rate at all took no time, rather than dividing by
    /// zero.
    pub fn duration(self, sample_rate: u32) -> (span: Duration)
        ensures
            duration_nanos(span) == if sample_rate == 0 {
                0
            } else {
                (self.frames * NANOSECONDS_PER_SECOND) / (sample_rate as int)
            },
    {
        if sample_rate == 0 {
            return crate::time::zero();
        }
        let nanos = self.frames as u64 * NANOSECONDS_PER_SECOND / sample_rate as u64;
        assert(nanos <= self.frames * NANOSECONDS_PER_SECOND) by (nonlinear_arith)
            requires
                sample_rate >= 1,
                nanos == (self.frames * NANOSECONDS_PER_SECOND) / (sample_rate as int),
                self.frames >= 0,
        ;
        from_total_nanos(nanos as u128)
    }

    /// Whether this is inside `budget`, which is the reading that matters.
    pub fn within(self, budget: Self) -> (within: bool)
        ensures
            within == (self.frames <= budget.frames),
    {
        self.frames <= budget.frames
    }
}

/// What a probe has measured so far.
///
/// The count travels with the reading so that a caller polling for takes can
/// tell a fresh one from the same one read twice.
#[derive(Debug, Clone, Copy, PartialEq, Eq, Structural)]
pub struct Measurement {
    /// How many round trips have been timed since the probe started.
    pub takes: u32,
    /// The most recent of them.
    pub round_trip: RoundTrip,
}

/// The word a measurement crosses as: the take count above the frames.
pub open spec fn measurement_word(measurement: Measurement) -> u64 {
    ((measurement.takes as u64) << 32u64) | (measurement.round_trip.frames as u64)
}

/// The measurement a word names: none before the first take.
pub open spec fn measurement_of(word: u64) -> Option<Measurement> {
    let takes = (word >> 32u64) as u32;
    if takes == 0 {
        None
    } else {
        Some(Measurement { takes, round_trip: RoundTrip { frames: word as u32 } })
    }
}

/// A measurement with a take behind it reads back as itself, and the word a
/// probe starts on reads as nothing measured.
pub proof fn lemma_measurement_round_trip(measurement: Measurement)
    requires
        measurement.takes > 0,
    ensures
        measurement_of(measurement_word(measurement)) == Some(measurement),
        measurement_of(0) is None,
{
    let takes = measurement.takes;
    let frames = measurement.round_trip.frames;
    let word = measurement_word(measurement);
    assert(((((takes as u64) << 32u64) | (frames as u64)) >> 32u64) as u32 == takes)
        by (bit_vector);
    assert(((((takes as u64) << 32u64) | (frames as u64)) as u32) == frames) by (bit_vector);
    assert(((0u64 >> 32u64) as u32) == 0) by (bit_vector);
}

impl Measurement {
    /// The word this measurement crosses as.
    pub fn packed(self) -> (word: u64)
        ensures
            word == measurement_word(self),
    {
        ((self.takes as u64) << 32u64) | (self.round_trip.frames as u64)
    }

    /// The measurement `word` names, or nothing where no take was counted.
    pub fn unpacked(word: u64) -> (measurement: Option<Self>)
        ensures
            measurement == measurement_of(word),
    {
        let takes = (word >> 32u64) as u32;
        if takes == 0 {
            return None;
        }
        Some(Self { takes, round_trip: RoundTrip { frames: word as u32 } })
    }
}

/// Where a probe is in a take.
#[derive(Debug, Clone, Copy, PartialEq, Eq, Structural)]
pub enum Stage {
    /// Playing silence until the frame count reaches `until`.
    Settling {
        /// The frame count the click goes out at.
        until: u64,
    },
    /// Waiting for the click that went out at `emitted_at`, until `until`.
    Listening {
        /// The frame count the click went out at.
        emitted_at: u64,
        /// The frame count it gives up at.
        until: u64,
    },
    /// Stopped for good: a click did not come back.
    Silent,
}

/// Frames in `millis` milliseconds at `sample_rate`.
pub open spec fn frames_in(millis: u64, sample_rate: u32) -> int {
    (millis * sample_rate) / (MILLISECONDS_PER_SECOND as int)
}

/// The sum of two frame counts, saturating at the most a `u64` holds.
pub open spec fn counted(one: u64, other: int) -> u64 {
    if one + other <= u64::MAX {
        (one + other) as u64
    } else {
        u64::MAX
    }
}

/// One more take than `takes`, saturating at the most a `u32` counts.
pub open spec fn bumped(takes: u32) -> u32 {
    if takes < u32::MAX {
        (takes + 1) as u32
    } else {
        takes
    }
}

/// The measurement of take `takes`, whose click came back `frames` frames
/// after it went out, counted in the low 32 bits.
fn measured(takes: u32, frames: u64) -> (measurement: Measurement)
    ensures
        measurement.takes == takes,
        measurement.round_trip.frames == frames as u32,
{
    Measurement { takes, round_trip: RoundTrip { frames: frames as u32 } }
}

/// Build a probe, and split it into the end that clicks and the end that reads
/// what came back.
///
/// The storage is allocated here and never again, so this belongs in setup,
/// before the stream starts.
pub fn latency_probe() -> (ends: (LatencyProbe, RoundTripReader))
    ensures
        ends.0.spec_stage() == (Stage::Settling { until: 0 }),
        ends.0.spec_rendered() == 0,
        ends.0.spec_takes() == 0,
        ends.0.spec_settling() == 0,
        ends.0.spec_listening() == 0,
        ends.0.feeds(ends.1),
{
    let published = Arc::new(AtomicU64::new(0));
    (
        LatencyProbe {
            published: Arc::clone(&published),
            stage: Stage::Settling { until: 0 },
            settling: 0,
            listening: 0,
            rendered: 0,
            takes: 0,
        },
        RoundTripReader { published },
    )
}

/// The path that measures its own round trip.
///
/// Runs a take at a time: silence while the stream settles, one click, then
/// listening for it, and it stops for good at the first click that does not
/// come back.
pub struct LatencyProbe {
    published: Arc<AtomicU64>,
    stage: Stage,
    settling: u64,
    listening: u64,
    rendered: u64,
    takes: u32,
}

impl LatencyProbe {
    /// Whether `reader` reads the measurements this probe publishes: the two
    /// hold one shared cell.
    pub closed spec fn feeds(&self, reader: RoundTripReader) -> bool {
        self.published == reader.published
    }

    /// Where the probe is in a take.
    pub closed spec fn spec_stage(&self) -> Stage {
        self.stage
    }

    /// How many frames the probe has been handed.
    pub closed spec fn spec_rendered(&self) -> u64 {
        self.rendered
    }

    /// How many round trips it has timed.
    pub closed spec fn spec_takes(&self) -> u32 {
        self.takes
    }

    /// How long it settles for, in frames.
    pub closed spec fn spec_settling(&self) -> u64 {
        self.settling
    }

    /// How long it listens for, in frames.
    pub closed spec fn spec_listening(&self) -> u64 {
        self.listening
    }

    #[verifier::type_invariant]
    spec fn click_went_out_before(&self) -> bool {
        match self.stage {
            Stage::Listening { emitted_at, .. } => emitted_at <= self.rendered,
            _ => true,
        }
    }

    /// Size the settling and listening spans in the frames the device granted,
    /// so a take takes the same time at whatever rate it was opened at, and
    /// settle again from here.
    pub fn prepare(&mut self, sample_rate: u32)
        ensures
            final(self).spec_settling() == frames_in(SETTLING_MILLIS, sample_rate),
            final(self).spec_listening() == frames_in(LISTENING_MILLIS, sample_rate),
            final(self).spec_stage() == (Stage::Settling {
                until: counted(old(self).spec_rendered(), frames_in(SETTLING_MILLIS, sample_rate)),
            }),
            final(self).spec_rendered() == old(self).spec_rendered(),
            final(self).spec_takes() == old(self).spec_takes(),
    {
        proof {
            use_type_invariant(&*self);
        }
        self.settling = SETTLING_MILLIS * sample_rate as u64 / MILLISECONDS_PER_SECOND;
        self.listening = LISTENING_MILLIS * sample_rate as u64 / MILLISECONDS_PER_SECOND;
        self.stage = Stage::Settling { until: self.rendered.saturating_add(self.settling) };
    }

    /// Carry the probe over a block of `frames` frames, whose captured frames
    /// first reached the detection threshold at `crossing`, if they did; and
    /// report whether the block's first frame is to be the click.
    ///
    /// Settling ends with a click at the first block starting at or after its
    /// end. Listening ends with a published round trip where a crossing came,
    /// from the click to the crossing, and settles again; or, past its end with
    /// none, for good. A block of no frames changes nothing.
    pub fn step(&mut self, frames: usize, crossing: Option<usize>) -> (click: bool)
        requires
            crossing matches Some(at) ==> at < frames,
        ensures
            frames == 0 ==> !click && final(self).spec_stage() == old(self).spec_stage()
                && final(self).spec_rendered() == old(self).spec_rendered(),
            frames > 0 ==> final(self).spec_rendered() == counted(old(self).spec_rendered(), frames as int),
            frames > 0 ==> click == (old(self).spec_stage() matches Stage::Settling { until }
                && old(self).spec_rendered() >= until),
            frames > 0 ==> final(self).spec_stage() == match old(self).spec_stage() {
                Stage::Settling { until } => if old(self).spec_rendered() >= until {
                    Stage::Listening {
                        emitted_at: old(self).spec_rendered(),
                        until: counted(old(self).spec_rendered(), old(self).spec_listening() as int),
                    }
                } else {
                    Stage::Settling { until }
                },
                Stage::Listening { emitted_at, until } => match crossing {
                    Some(_) => Stage::Settling {
                        until: counted(
                            counted(old(self).spec_rendered(), frames as int),
                            old(self).spec_settling() as int,
                        ),
                    },
                    None => if counted(old(self).spec_rendered(), frames as int) >= until {
                        Stage::Silent
                    } else {
                        Stage::Listening { emitted_at, until }
                    },
                },
                Stage::Silent => Stage::Silent,
            },
            final(self).spec_settling() == old(self).spec_settling(),
            final(self).spec_listening() == old(self).spec_listening(),
            frames > 0 ==> final(self).spec_takes() == if old(self).spec_stage() is Listening
                && crossing is Some {
                bumped(old(self).spec_takes())
            } else {
                old(self).spec_takes()
            },
    {
        proof {
            use_type_invariant(&*self);
        }
        if frames == 0 {
            return false;
        }
        let started = self.rendered;
        let ended = started.saturating_add(frames as u64);
        let mut click = false;
        let next = match self.stage {
            Stage::Settling { until } => {
                if started >= until {
                    click = true;
                    Stage::Listening { emitted_at: started, until: started.saturating_add(self.listening) }
                } else {
                    Stage::Settling { until }
                }
            },
            Stage::Listening { emitted_at, until } => match crossing {
                Some(at) => {
                    let heard = started.saturating_add(at as u64) - emitted_at;
                    self.publish(heard);
                    Stage::Settling { until: ended.saturating_add(self.settling) }
                },
                None => {
                    if ended >= until {
                        Stage::Silent
                    } else {
                        Stage::Listening { emitted_at, until }
                    }
                },
            },
            Stage::Silent => Stage::Silent,
        };
        self.stage = next;
        self.rendered = ended;
        click
    }

    fn publish(&mut self, frames: u64)
        ensures
            final(self).spec_takes() == bumped(old(self).spec_takes()),
            final(self).spec_stage() == old(self).spec_stage(),
            final(self).spec_rendered() == old(self).spec_rendered(),
            final(self).spec_settling() == old(self).spec_settling(),
            final(self).spec_listening() == old(self).spec_listening(),
    {
        proof {
            use_type_invariant(&*self);
        }
        self.takes = self.takes.saturating_add(1);
        let measurement = measured(self.takes, frames);
        self.published.store(measurement.packed(), Ordering::Release);
    }
}

/// The reading end of a probe, held by whichever thread reports it.
pub struct RoundTripReader {
    published: Arc<AtomicU64>,
}

impl RoundTripReader {
    /// What the probe has measured, or nothing until it has measured anything,
    /// as the callback on the other thread left it.
    pub fn read(&self) -> (measured: Option<Measurement>)
        ensures
            exists|word: u64| measured == measurement_of(word),
    {
        Measurement::unpacked(self.published.load(Ordering::Acquire))
    }
}

} // verus!
