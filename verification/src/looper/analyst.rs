//! The pass that reads a finished take, off the thread that recorded it.
//!
//! The length the player closed the loop at is the [`Priors`] the grid is
//! placed under, and the beats found come back as the frames of the take they
//! fall at, timed against the rate the loop was captured at.

use std::time::Duration;
use vstd::prelude::*;

use crate::analysis::{every_from, Priors, TrackedGrid};
use crate::time::{duration_nanos, from_nanos, nanos_of, NANOS_PER_SECOND};

use super::{FinishedTake, LoopMarks, Mark};

verus! {

/// The frame a moment `nanos` into a take falls at, at `sample_rate`, kept to
/// the 64 bits a frame is counted in.
pub open spec fn frame_at(nanos: int, sample_rate: int) -> u64 {
    (nanos * sample_rate / NANOS_PER_SECOND as int) as u64
}

/// How many nanoseconds `frames` frames last at `sample_rate`, kept to the 64
/// bits a span is built from.
pub open spec fn span_nanos(frames: int, sample_rate: int) -> u64 {
    (frames * NANOS_PER_SECOND as int / sample_rate) as u64
}

/// Each of `moments` as the frame it falls at, carrying `mark`.
pub open spec fn marked(moments: Seq<Duration>, sample_rate: int, mark: Mark) -> Seq<(u64, Mark)> {
    moments.map_values(|moment: Duration| (frame_at(duration_nanos(moment) as int, sample_rate), mark))
}

/// What a grid found, as the marks a page draws over the take: every beat,
/// then every downbeat.
pub open spec fn marks_of(
    beats: Seq<Duration>,
    downbeats: Seq<Duration>,
    sample_rate: int,
) -> Seq<(u64, Mark)> {
    marked(beats, sample_rate, Mark::Beat) + marked(downbeats, sample_rate, Mark::Downbeat)
}

/// How long `frames` frames last at `sample_rate`.
pub fn span_of(frames: usize, sample_rate: u32) -> (span: Duration)
    requires
        sample_rate > 0,
    ensures
        duration_nanos(span) == span_nanos(frames as int, sample_rate as int),
{
    assert(frames as int * NANOS_PER_SECOND as int <= u128::MAX) by (nonlinear_arith)
        requires
            frames <= usize::MAX,
            usize::MAX <= u64::MAX,
    ;
    let nanos = frames as u128 * NANOS_PER_SECOND as u128 / sample_rate as u128;
    from_nanos(nanos as u64)
}

/// The frame `when` falls at, at `sample_rate`.
pub fn frame_of(when: Duration, sample_rate: u32) -> (frame: u64)
    ensures
        frame == frame_at(duration_nanos(when) as int, sample_rate as int),
{
    let nanos = nanos_of(when);
    assert(nanos * sample_rate <= u128::MAX) by (nonlinear_arith)
        requires
            nanos <= u64::MAX as int * 1_000_000_000 + 999_999_999,
            sample_rate <= u32::MAX,
    ;
    (nanos * sample_rate as u128 / NANOS_PER_SECOND as u128) as u64
}

/// What a take `take` is known to be before anything listens to it: as long
/// as its frames last at `sample_rate`.
pub fn priors_of(take: &FinishedTake<'_>, sample_rate: u32) -> (priors: Priors)
    requires
        sample_rate > 0,
    ensures
        priors.spec_beats_per_bar() is None,
        priors.spec_length() matches Some(length) && duration_nanos(length) == span_nanos(
            take.spec_frames(),
            sample_rate as int,
        ),
{
    Priors::of_take(span_of(take.frames(), sample_rate))
}

/// What `grid` found in a take captured at `sample_rate`, as the marks a
/// page draws over it: every beat at the frame it falls at, then every
/// downbeat.
pub fn analyse(grid: &TrackedGrid, sample_rate: u32) -> (marks: LoopMarks)
    ensures
        marks@ == marks_of(
            grid.spec_beats(),
            every_from(
                grid.spec_beats(),
                grid.spec_downbeat() as int,
                grid.spec_beats_per_bar() as int,
            ),
            sample_rate as int,
        ),
{
    let mut marks = LoopMarks::none();
    let beats = grid.beats();
    let mut index: usize = 0;
    while index < beats.len()
        invariant
            index <= beats@.len(),
            marks@ == marked(beats@.take(index as int), sample_rate as int, Mark::Beat),
        decreases beats@.len() - index,
    {
        marks.add(frame_of(beats[index], sample_rate), Mark::Beat);
        index = index + 1;
        assert(marks@ =~= marked(beats@.take(index as int), sample_rate as int, Mark::Beat));
    }
    assert(beats@.take(beats@.len() as int) =~= beats@);
    let ghost placed = marks@;
    let downbeats = grid.downbeats();
    let mut index: usize = 0;
    while index < downbeats.len()
        invariant
            index <= downbeats@.len(),
            marks@ == placed + marked(downbeats@.take(index as int), sample_rate as int, Mark::Downbeat),
        decreases downbeats@.len() - index,
    {
        marks.add(frame_of(downbeats[index], sample_rate), Mark::Downbeat);
        index = index + 1;
        assert(marks@ =~= placed + marked(
            downbeats@.take(index as int),
            sample_rate as int,
            Mark::Downbeat,
        ));
    }
    assert(downbeats@.take(downbeats@.len() as int) =~= downbeats@);
    marks
}

} // verus!
