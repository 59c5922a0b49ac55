//! The parameters a fixture is rendered from, as far as a report bands its
//! aggregate by them.

use vstd::prelude::*;

verus! {

/// One parameter a report can band its aggregate by.
#[derive(Debug, Clone, Copy, PartialEq, Eq, Structural)]
pub enum Axis {
    /// What the fixture is played at.
    Tempo,
    /// How many beats there are to its bar.
    Meter,
    /// Whether its pulse holds, ramps or strays.
    Drift,
    /// How sharply its clicks attack.
    Sharpness,
    /// How many onsets its beats carry.
    Density,
    /// How often a beat carries none.
    Dropout,
    /// How often an onset falls off the beat.
    Syncopation,
}

/// What an axis is called.
pub open spec fn axis_name(axis: Axis) -> Seq<char> {
    match axis {
        Axis::Tempo => "tempo"@,
        Axis::Meter => "meter"@,
        Axis::Drift => "drift"@,
        Axis::Sharpness => "sharpness"@,
        Axis::Density => "density"@,
        Axis::Dropout => "dropout"@,
        Axis::Syncopation => "syncopation"@,
    }
}

impl Axis {
    /// Every axis, in the order a report walks them.
    pub const ALL: [Axis; 7] = [
        Axis::Tempo,
        Axis::Meter,
        Axis::Drift,
        Axis::Sharpness,
        Axis::Density,
        Axis::Dropout,
        Axis::Syncopation,
    ];

    /// What the axis is called, for the line that names a band.
    pub fn named(&self) -> (name: &'static str)
        ensures
            name@ == axis_name(*self),
    {
        match self {
            Self::Tempo => "tempo",
            Self::Meter => "meter",
            Self::Drift => "drift",
            Self::Sharpness => "sharpness",
            Self::Density => "density",
            Self::Dropout => "dropout",
            Self::Syncopation => "syncopation",
        }
    }
}

} // verus!
