//! What a run over the fixture set measures a candidate against: which of a
//! fixture's annotated positions count, and the fixture as the harness loaded
//! it.
//!
//! Walking a directory, timing the candidate and aggregating are the run's
//! own, done where the filesystem and the clock are.

use std::time::Duration;
use vstd::prelude::*;

use super::{beats_view, positions_among, positions_of, Annotation, Beat};
use super::scoring::nanos_seq;

verus! {

/// Which of a fixture's annotated positions a run is measured against.
///
/// A downbeat is a beat as well, so [`Target::Beats`] scores against every
/// annotated position and [`Target::Downbeats`] against the subset that begins
/// a bar.
#[derive(Debug, Clone, Copy, PartialEq, Eq, Structural)]
pub enum Target {
    /// Every annotated beat.
    Beats,
    /// Only the beats that begin a bar.
    Downbeats,
}

impl Target {
    /// The positions in `annotation` this target is measured against.
    pub fn positions(&self, annotation: &Annotation) -> (positions: Vec<Duration>)
        ensures
            nanos_seq(positions@) == positions_of(annotation@.0, *self is Downbeats),
    {
        self.among(annotation.beats())
    }

    /// The positions among `beats` this target is measured against, for a
    /// fixture rendered in memory that never became an annotation.
    pub fn among(&self, beats: &[Beat]) -> (positions: Vec<Duration>)
        ensures
            nanos_seq(positions@) == positions_of(beats_view(beats@), *self is Downbeats),
    {
        let only_downbeats = match self {
            Self::Beats => false,
            Self::Downbeats => true,
        };
        positions_among(beats, only_downbeats)
    }
}

/// One fixture as the harness loaded it: what it is called, and what it
/// annotates.
///
/// The name is the fixture's file stem, which is also the stem of the audio
/// beside it.
#[derive(Debug, Clone, PartialEq, Eq)]
pub struct GroundTruth {
    name: String,
    annotation: Annotation,
}

impl GroundTruth {
    /// What the fixture is called.
    pub closed spec fn spec_name(&self) -> Seq<char> {
        self.name@
    }

    /// What the fixture annotates.
    pub closed spec fn spec_annotation(&self) -> Annotation {
        self.annotation
    }

    /// The fixture called `name`, annotating `annotation`.
    pub fn new(name: String, annotation: Annotation) -> (truth: Self)
        ensures
            truth.spec_name() == name@,
            truth.spec_annotation() == annotation,
    {
        Self { name, annotation }
    }

    /// What the fixture is called.
    pub fn name(&self) -> (name: &str)
        ensures
            name@ == self.spec_name(),
    {
        self.name.as_str()
    }

    /// Where its beats fall, and which of them begin a bar.
    pub fn annotation(&self) -> (annotation: &Annotation)
        ensures
            *annotation == self.spec_annotation(),
    {
        &self.annotation
    }
}

} // verus!
