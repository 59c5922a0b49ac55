//! How long a gain takes to move, so that moving it does not click.
//!
//! A level the player moves is reached by a linear ramp rather than a jump,
//! and every change takes the same time however far it goes: the step is the
//! distance divided by the ramp.

use vstd::prelude::*;

verus! {

/// How long a ramp lasts, in milliseconds.
pub const RAMP_MILLISECONDS: u64 = 10;

/// Milliseconds in a second.
pub const MILLISECONDS_PER_SECOND: u64 = 1_000;

/// How many frames a ramp spans at `sample_rate`: its length in frames, and
/// never less than one.
pub open spec fn ramp_of(sample_rate: int) -> int {
    let frames = sample_rate * RAMP_MILLISECONDS as int / MILLISECONDS_PER_SECOND as int;
    if frames >= 1 { frames } else { 1 }
}

/// How many frames a ramp spans at `sample_rate`.
pub fn ramp_frames(sample_rate: u32) -> (frames: usize)
    ensures
        frames == ramp_of(sample_rate as int),
{
    let frames = sample_rate as u64 * RAMP_MILLISECONDS / MILLISECONDS_PER_SECOND;
    if frames >= 1 {
        frames as usize
    } else {
        1
    }
}

} // verus!
