//! What an analyser found, at the frames of the loop it was found in.
//!
//! Two families of mark — the grid, and what sounds over it — drawn on two rows,
//! so a chord change on a downbeat draws as both rather than as whichever of
//! them was found last. Within a row the stronger of two sharing a column is
//! the one drawn.

use vstd::prelude::*;

verus! {

/// Something an analyser found, at one frame of a loop.
///
/// The four fall into two families — the grid, and what sounds over it — which
/// is what decides the row each is drawn on. They are ordered within a family
/// by which of two sharing a column is the one drawn.
#[derive(Debug, Clone, Copy, PartialEq, Eq, PartialOrd, Ord, Structural)]
pub enum Mark {
    /// A beat of the grid.
    Beat,
    /// The beat a bar begins on.
    Downbeat,
    /// Where a note starts.
    Onset,
    /// Where the harmony changes.
    ChordChange,
}

/// The row a mark is drawn on: the grid first, then what sounds over it.
pub open spec fn row_of(mark: Mark) -> int {
    match mark {
        Mark::Beat | Mark::Downbeat => 0,
        Mark::Onset | Mark::ChordChange => 1,
    }
}

/// How strong a mark is within its family: the later in the order, the
/// stronger.
pub open spec fn strength_of(mark: Mark) -> int {
    match mark {
        Mark::Beat => 0,
        Mark::Downbeat => 1,
        Mark::Onset => 2,
        Mark::ChordChange => 3,
    }
}

impl Mark {
    /// The row the mark is drawn on.
    pub fn row(self) -> (row: usize)
        ensures
            row == row_of(self),
    {
        match self {
            Self::Beat | Self::Downbeat => 0,
            Self::Onset | Self::ChordChange => 1,
        }
    }

    /// Whether this mark is drawn over `other` where the two share a column.
    pub fn outranks(self, other: Mark) -> (outranks: bool)
        ensures
            outranks == (strength_of(self) > strength_of(other)),
    {
        let (mine, theirs) = (strength(self), strength(other));
        mine > theirs
    }
}

fn strength(mark: Mark) -> (strength: u8)
    ensures
        strength == strength_of(mark),
{
    match mark {
        Mark::Beat => 0,
        Mark::Downbeat => 1,
        Mark::Onset => 2,
        Mark::ChordChange => 3,
    }
}

/// What analysis found across a loop, as the frames it found it at.
#[derive(Debug, Clone, PartialEq, Eq)]
pub struct LoopMarks {
    found: Vec<(u64, Mark)>,
}

impl View for LoopMarks {
    type V = Seq<(u64, Mark)>;

    closed spec fn view(&self) -> Seq<(u64, Mark)> {
        self.found@
    }
}

impl LoopMarks {
    /// How many rows the marks are drawn on.
    pub const ROWS: usize = 2;

    /// Nothing found, which is how a loop reads for as long as the deadline
    /// lasts.
    pub fn none() -> (marks: Self)
        ensures
            marks@ == Seq::<(u64, Mark)>::empty(),
    {
        Self { found: Vec::new() }
    }

    /// Add `mark`, found at frame `at` of the loop.
    ///
    /// Frames arrive in whatever order the analyser found them in, and two of
    /// them may be one frame: what a column shows where several reach it is
    /// the drawing's to settle rather than the caller's.
    pub fn add(&mut self, at: u64, mark: Mark)
        ensures
            final(self)@ == old(self)@.push((at, mark)),
    {
        self.found.push((at, mark));
    }

    /// Every mark found, with the frame it was found at, in the order added.
    pub fn found(&self) -> (found: &[(u64, Mark)])
        ensures
            found@ == self@,
    {
        self.found.as_slice()
    }
}

} // verus!
