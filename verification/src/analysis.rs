//! Working out what a take was, once it has been played.
//!
//! Analysis is retrospective, so everything here is handed a whole take and
//! answers against a deadline rather than a latency budget. [`Priors`] is what
//! a manual looper knows that a general beat tracker does not — the length the
//! player chose, and how many beats go to a bar.

mod harmony;
mod tracker;

pub use harmony::{
    changes_of, chord_spans, fewest, lemma_chords_start_where_the_label_moves, lemma_neighbours_differ,
    spans_of, starts_run, take_end,
};
pub use tracker::{
    briskest_count, candidate_view, candidates_view, dividing, divide, divided_nanos, divisions,
    every_from, frames_in, hop_of, Candidate, Priors, TrackedGrid,
    ASSUMED_BAR, BRISKEST_NANOS, SLOWEST_NANOS,
};
