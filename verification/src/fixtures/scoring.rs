//! Scoring a candidate sequence of positions, or of notes, against a fixture's
//! ground truth.
//!
//! Nothing here knows about audio, fixtures or analysers: two sequences go in
//! and three numbers come out, which is what lets an accuracy claim be checked
//! against sequences written by hand.

use std::time::Duration;
use vstd::prelude::*;

use super::Note;
use crate::time::{duration_nanos, nanos_of};

verus! {

/// How far from an annotated position a candidate may fall and still count,
/// in nanoseconds: 70 ms either side, the MIREX and `mir_eval` convention.
pub const TOLERANCE_NANOS: u64 = 70_000_000;

/// How far a note's onset may fall from the annotated one, and the floor under
/// how far its offset may, in nanoseconds: 50 ms, as `mir_eval.transcription`
/// scores note events.
pub const NOTE_TOLERANCE_NANOS: u64 = 50_000_000;

/// The share of an annotated note's length its offset may wander by, as one
/// part in this many.
pub const OFFSET_SHARE: u64 = 5;

/// How far apart two instants are.
pub open spec fn gap(one: int, other: int) -> int {
    if one >= other { one - other } else { other - one }
}

/// The nanosecond counts of a sequence of spans.
pub open spec fn nanos_seq(spans: Seq<Duration>) -> Seq<int> {
    spans.map_values(|span: Duration| duration_nanos(span) as int)
}

/// Whether candidate `index` may still be matched: it is untaken, admissible,
/// and its gap is within `reach`.
pub open spec fn eligible(
    gaps: Seq<int>,
    admissible: Seq<bool>,
    taken: Seq<bool>,
    reach: int,
    index: int,
) -> bool {
    &&& 0 <= index < gaps.len()
    &&& index < admissible.len()
    &&& index < taken.len()
    &&& !taken[index]
    &&& admissible[index]
    &&& gaps[index] <= reach
}

/// Whether `index` is the candidate a greedy match takes: eligible, no other
/// eligible candidate is nearer, and none before it is as near.
pub open spec fn is_nearest(
    gaps: Seq<int>,
    admissible: Seq<bool>,
    taken: Seq<bool>,
    reach: int,
    index: int,
) -> bool {
    &&& eligible(gaps, admissible, taken, reach, index)
    &&& forall|other: int|
        #![trigger eligible(gaps, admissible, taken, reach, other)]
        eligible(gaps, admissible, taken, reach, other) ==> gaps[index] <= gaps[other]
    &&& forall|other: int|
        #![trigger eligible(gaps, admissible, taken, reach, other)]
        0 <= other < index && eligible(gaps, admissible, taken, reach, other) ==> gaps[index]
            < gaps[other]
}

/// The candidate a greedy match takes, or `None` where none is eligible.
pub open spec fn nearest(gaps: Seq<int>, admissible: Seq<bool>, taken: Seq<bool>, reach: int) -> Option<int> {
    if exists|index: int| is_nearest(gaps, admissible, taken, reach, index) {
        Some(choose|index: int| is_nearest(gaps, admissible, taken, reach, index))
    } else {
        None
    }
}

/// At most one candidate is the nearest.
pub proof fn lemma_nearest_unique(
    gaps: Seq<int>,
    admissible: Seq<bool>,
    taken: Seq<bool>,
    reach: int,
    one: int,
    other: int,
)
    requires
        is_nearest(gaps, admissible, taken, reach, one),
        is_nearest(gaps, admissible, taken, reach, other),
    ensures
        one == other,
{
    assert(eligible(gaps, admissible, taken, reach, one));
    assert(eligible(gaps, admissible, taken, reach, other));
}

/// Where `index` is the nearest, it is what [`nearest`] names.
pub proof fn lemma_nearest_is(
    gaps: Seq<int>,
    admissible: Seq<bool>,
    taken: Seq<bool>,
    reach: int,
    index: int,
)
    requires
        is_nearest(gaps, admissible, taken, reach, index),
    ensures
        nearest(gaps, admissible, taken, reach) == Some(index),
{
    let chosen = choose|i: int| is_nearest(gaps, admissible, taken, reach, i);
    lemma_nearest_unique(gaps, admissible, taken, reach, index, chosen);
}

/// A found candidate, as an index a spec counts in.
pub open spec fn as_found(found: Option<usize>) -> Option<int> {
    match found {
        Some(index) => Some(index as int),
        None => None,
    }
}

/// How far each detected position is from `position`.
pub open spec fn position_gaps(detected: Seq<int>, position: int) -> Seq<int> {
    Seq::new(detected.len(), |index: int| gap(detected[index], position))
}

/// Every one of `count` candidates may be matched on its own account.
pub open spec fn all_admissible(count: nat) -> Seq<bool> {
    Seq::new(count, |index: int| true)
}

/// Nothing taken yet among `count` candidates.
pub open spec fn none_taken(count: nat) -> Seq<bool> {
    Seq::new(count, |index: int| false)
}

/// The greedy one-to-one match of `annotated` positions against `detected`:
/// which candidates it took, and how many annotated positions were hit.
pub open spec fn matched_positions(annotated: Seq<int>, detected: Seq<int>) -> (Seq<bool>, nat)
    decreases annotated.len(),
{
    if annotated.len() == 0 {
        (none_taken(detected.len()), 0)
    } else {
        let (taken, hits) = matched_positions(annotated.drop_last(), detected);
        match nearest(
            position_gaps(detected, annotated.last()),
            all_admissible(detected.len()),
            taken,
            TOLERANCE_NANOS as int,
        ) {
            Some(index) => (taken.update(index, true), hits + 1),
            None => (taken, hits),
        }
    }
}

/// How many candidates `taken` marks as taken.
pub open spec fn taken_count(taken: Seq<bool>) -> nat
    decreases taken.len(),
{
    if taken.len() == 0 {
        0
    } else {
        taken_count(taken.drop_last()) + if taken.last() { 1nat } else { 0nat }
    }
}

proof fn lemma_count_taking(taken: Seq<bool>, index: int)
    requires
        0 <= index < taken.len(),
        !taken[index],
    ensures
        taken_count(taken.update(index, true)) == taken_count(taken) + 1,
    decreases taken.len(),
{
    let updated = taken.update(index, true);
    if index == taken.len() - 1 {
        assert(updated.drop_last() =~= taken.drop_last());
    } else {
        assert(updated.drop_last() =~= taken.drop_last().update(index, true));
        lemma_count_taking(taken.drop_last(), index);
    }
}

proof fn lemma_count_within(taken: Seq<bool>)
    ensures
        taken_count(taken) <= taken.len(),
    decreases taken.len(),
{
    if taken.len() > 0 {
        lemma_count_within(taken.drop_last());
    }
}

proof fn lemma_none_counted(count: nat)
    ensures
        taken_count(none_taken(count)) == 0,
    decreases count,
{
    if count > 0 {
        assert(none_taken(count).drop_last() =~= none_taken((count - 1) as nat));
        lemma_none_counted((count - 1) as nat);
    }
}

/// The match of positions is one-to-one: every hit takes a candidate of its
/// own, so there are never more hits than annotated positions or than
/// candidates, and the hits are the candidates taken.
pub proof fn lemma_positions_one_to_one(annotated: Seq<int>, detected: Seq<int>)
    ensures
        matched_positions(annotated, detected).0.len() == detected.len(),
        matched_positions(annotated, detected).1 == taken_count(matched_positions(annotated, detected).0),
        matched_positions(annotated, detected).1 <= annotated.len(),
        matched_positions(annotated, detected).1 <= detected.len(),
    decreases annotated.len(),
{
    if annotated.len() == 0 {
        lemma_none_counted(detected.len());
    } else {
        lemma_positions_one_to_one(annotated.drop_last(), detected);
        let (taken, hits) = matched_positions(annotated.drop_last(), detected);
        let gaps = position_gaps(detected, annotated.last());
        let admissible = all_admissible(detected.len());
        if let Some(index) = nearest(gaps, admissible, taken, TOLERANCE_NANOS as int) {
            let chosen = choose|i: int| is_nearest(gaps, admissible, taken, TOLERANCE_NANOS as int, i);
            assert(is_nearest(gaps, admissible, taken, TOLERANCE_NANOS as int, chosen));
            lemma_count_taking(taken, index);
        }
    }
    lemma_count_within(matched_positions(annotated, detected).0);
}

/// The match of notes is one-to-one, as [`lemma_positions_one_to_one`] says
/// of positions.
pub proof fn lemma_notes_one_to_one(annotated: Seq<(u8, int, int)>, detected: Seq<(u8, int, int)>)
    ensures
        matched_notes(annotated, detected).0.len() == detected.len(),
        matched_notes(annotated, detected).1 == taken_count(matched_notes(annotated, detected).0),
        matched_notes(annotated, detected).1 <= annotated.len(),
        matched_notes(annotated, detected).1 <= detected.len(),
    decreases annotated.len(),
{
    if annotated.len() == 0 {
        lemma_none_counted(detected.len());
    } else {
        lemma_notes_one_to_one(annotated.drop_last(), detected);
        let (taken, hits) = matched_notes(annotated.drop_last(), detected);
        let gaps = onset_gaps(detected, annotated.last());
        let admissible = note_admissible(detected, annotated.last());
        if let Some(index) = nearest(gaps, admissible, taken, NOTE_TOLERANCE_NANOS as int) {
            let chosen = choose|i: int| is_nearest(gaps, admissible, taken, NOTE_TOLERANCE_NANOS as int, i);
            assert(is_nearest(gaps, admissible, taken, NOTE_TOLERANCE_NANOS as int, chosen));
            lemma_count_taking(taken, index);
        }
    }
    lemma_count_within(matched_notes(annotated, detected).0);
}

/// A note as its scorer reads it: pitch, onset and offset in nanoseconds.
pub open spec fn note_view(note: Note) -> (u8, int, int) {
    (note.pitch, duration_nanos(note.onset) as int, duration_nanos(note.offset) as int)
}

/// How far an offset may fall from an annotated note's, in nanoseconds: a
/// fifth of the note's length, or the note tolerance where that is wider.
pub open spec fn release(note: (u8, int, int)) -> int {
    let length = if note.2 >= note.1 { note.2 - note.1 } else { 0 };
    let share = length / (OFFSET_SHARE as int);
    if share >= NOTE_TOLERANCE_NANOS as int { share } else { NOTE_TOLERANCE_NANOS as int }
}

/// How far each detected onset is from `note`'s.
pub open spec fn onset_gaps(detected: Seq<(u8, int, int)>, note: (u8, int, int)) -> Seq<int> {
    Seq::new(detected.len(), |index: int| gap(detected[index].1, note.1))
}

/// Which detected notes agree with `note` on pitch, and end within its
/// release.
pub open spec fn note_admissible(detected: Seq<(u8, int, int)>, note: (u8, int, int)) -> Seq<bool> {
    Seq::new(
        detected.len(),
        |index: int|
            detected[index].0 == note.0 && gap(detected[index].2, note.2) <= release(note),
    )
}

/// The greedy one-to-one match of `annotated` notes against `detected`.
pub open spec fn matched_notes(annotated: Seq<(u8, int, int)>, detected: Seq<(u8, int, int)>) -> (
    Seq<bool>,
    nat,
)
    decreases annotated.len(),
{
    if annotated.len() == 0 {
        (none_taken(detected.len()), 0)
    } else {
        let (taken, hits) = matched_notes(annotated.drop_last(), detected);
        match nearest(
            onset_gaps(detected, annotated.last()),
            note_admissible(detected, annotated.last()),
            taken,
            NOTE_TOLERANCE_NANOS as int,
        ) {
            Some(index) => (taken.update(index, true), hits + 1),
            None => (taken, hits),
        }
    }
}

/// Whether `pairing` matches annotated entries one to one among `candidates`
/// candidates: each entry names the candidate it is matched to, or -1 where
/// it is matched to none, and no candidate is named twice.
pub open spec fn one_to_one(pairing: Seq<int>, candidates: nat) -> bool {
    &&& forall|index: int|
        0 <= index < pairing.len() ==> #[trigger] pairing[index] == -1 || (0 <= pairing[index]
            < candidates)
    &&& forall|one: int, other: int|
        #![trigger pairing[one], pairing[other]]
        0 <= one < other < pairing.len() && pairing[one] >= 0 ==> pairing[one] != pairing[other]
}

/// How many annotated entries a pairing matches.
pub open spec fn paired_count(pairing: Seq<int>) -> nat
    decreases pairing.len(),
{
    if pairing.len() == 0 {
        0
    } else {
        paired_count(pairing.drop_last()) + if pairing.last() >= 0 { 1nat } else { 0nat }
    }
}

/// Whether every candidate a pairing names is marked in `taken`.
pub open spec fn marks_taken(pairing: Seq<int>, taken: Seq<bool>) -> bool {
    forall|index: int|
        0 <= index < pairing.len() && #[trigger] pairing[index] >= 0 ==> taken[pairing[index]]
}

/// Whether `pairing` matches annotated positions to detected ones one to one,
/// each within the tolerance of the position it is matched to.
pub open spec fn is_position_pairing(annotated: Seq<int>, detected: Seq<int>, pairing: Seq<int>) -> bool {
    &&& pairing.len() == annotated.len()
    &&& one_to_one(pairing, detected.len())
    &&& forall|index: int|
        0 <= index < pairing.len() && #[trigger] pairing[index] >= 0 ==> gap(
            detected[pairing[index]],
            annotated[index],
        ) <= TOLERANCE_NANOS as int
}

/// Whether `candidate` would hit the annotated note `truth`: the same pitch,
/// an onset within the note tolerance, an offset within its release.
pub open spec fn note_hit(truth: (u8, int, int), candidate: (u8, int, int)) -> bool {
    &&& candidate.0 == truth.0
    &&& gap(candidate.1, truth.1) <= NOTE_TOLERANCE_NANOS as int
    &&& gap(candidate.2, truth.2) <= release(truth)
}

/// Whether `pairing` matches annotated notes to detected ones one to one, each
/// to a note that hits it.
pub open spec fn is_note_pairing(
    annotated: Seq<(u8, int, int)>,
    detected: Seq<(u8, int, int)>,
    pairing: Seq<int>,
) -> bool {
    &&& pairing.len() == annotated.len()
    &&& one_to_one(pairing, detected.len())
    &&& forall|index: int|
        0 <= index < pairing.len() && #[trigger] pairing[index] >= 0 ==> note_hit(
            annotated[index],
            detected[pairing[index]],
        )
}

/// The pairing the greedy match of positions makes: for each annotated
/// position, the candidate it took, or -1.
pub open spec fn position_pairing(annotated: Seq<int>, detected: Seq<int>) -> Seq<int>
    decreases annotated.len(),
{
    if annotated.len() == 0 {
        Seq::empty()
    } else {
        let earlier = position_pairing(annotated.drop_last(), detected);
        match nearest(
            position_gaps(detected, annotated.last()),
            all_admissible(detected.len()),
            matched_positions(annotated.drop_last(), detected).0,
            TOLERANCE_NANOS as int,
        ) {
            Some(index) => earlier.push(index),
            None => earlier.push(-1),
        }
    }
}

/// The pairing the greedy match of notes makes.
pub open spec fn note_pairing(annotated: Seq<(u8, int, int)>, detected: Seq<(u8, int, int)>) -> Seq<
    int,
>
    decreases annotated.len(),
{
    if annotated.len() == 0 {
        Seq::empty()
    } else {
        let earlier = note_pairing(annotated.drop_last(), detected);
        match nearest(
            onset_gaps(detected, annotated.last()),
            note_admissible(detected, annotated.last()),
            matched_notes(annotated.drop_last(), detected).0,
            NOTE_TOLERANCE_NANOS as int,
        ) {
            Some(index) => earlier.push(index),
            None => earlier.push(-1),
        }
    }
}

/// One step of a greedy match keeps its pairing one to one, its marks on the
/// candidates it took, and its count.
proof fn lemma_pairing_step(
    pairing: Seq<int>,
    taken: Seq<bool>,
    gaps: Seq<int>,
    admissible: Seq<bool>,
    reach: int,
)
    requires
        one_to_one(pairing, taken.len()),
        marks_taken(pairing, taken),
        gaps.len() == taken.len(),
    ensures
        match nearest(gaps, admissible, taken, reach) {
            Some(index) => {
                &&& 0 <= index < taken.len()
                &&& index < admissible.len() && admissible[index]
                &&& gaps[index] <= reach
                &&& one_to_one(pairing.push(index), taken.len())
                &&& marks_taken(pairing.push(index), taken.update(index, true))
                &&& paired_count(pairing.push(index)) == paired_count(pairing) + 1
            },
            None => {
                &&& one_to_one(pairing.push(-1), taken.len())
                &&& marks_taken(pairing.push(-1), taken)
                &&& paired_count(pairing.push(-1)) == paired_count(pairing)
            },
        },
{
    match nearest(gaps, admissible, taken, reach) {
        Some(index) => {
            let chosen = choose|i: int| is_nearest(gaps, admissible, taken, reach, i);
            assert(is_nearest(gaps, admissible, taken, reach, chosen));
            let next = pairing.push(index);
            assert(next.drop_last() =~= pairing);
            assert forall|one: int, other: int|
                0 <= one < other < next.len() && next[one] >= 0 implies #[trigger] next[one]
                != #[trigger] next[other] by {
                if other == pairing.len() {
                    assert(taken[pairing[one]]);
                } else {
                    assert(pairing[one] != pairing[other]);
                }
            }
            assert forall|i: int| 0 <= i < next.len() && #[trigger] next[i] >= 0 implies taken.update(
                index,
                true,
            )[next[i]] by {
                if i < pairing.len() {
                    assert(taken[pairing[i]]);
                }
            }
        },
        None => {
            let next = pairing.push(-1);
            assert(next.drop_last() =~= pairing);
            assert forall|one: int, other: int|
                0 <= one < other < next.len() && next[one] >= 0 implies #[trigger] next[one]
                != #[trigger] next[other] by {
                if other < pairing.len() {
                    assert(pairing[one] != pairing[other]);
                }
            }
            assert forall|i: int| 0 <= i < next.len() && #[trigger] next[i] >= 0 implies taken[next[i]] by {
                assert(taken[pairing[i]]);
            }
        },
    }
}

/// The greedy match of positions is a one-to-one pairing within the
/// tolerance, and its hits are the entries that pairing matches.
pub proof fn lemma_position_pairing(annotated: Seq<int>, detected: Seq<int>)
    ensures
        is_position_pairing(annotated, detected, position_pairing(annotated, detected)),
        marks_taken(
            position_pairing(annotated, detected),
            matched_positions(annotated, detected).0,
        ),
        paired_count(position_pairing(annotated, detected)) == matched_positions(
            annotated,
            detected,
        ).1,
    decreases annotated.len(),
{
    lemma_positions_one_to_one(annotated, detected);
    if annotated.len() == 0 {
        assert(paired_count(Seq::<int>::empty()) == 0);
    } else {
        let earlier_annotated = annotated.drop_last();
        lemma_position_pairing(earlier_annotated, detected);
        lemma_positions_one_to_one(earlier_annotated, detected);
        let earlier = position_pairing(earlier_annotated, detected);
        let taken = matched_positions(earlier_annotated, detected).0;
        let gaps = position_gaps(detected, annotated.last());
        let admissible = all_admissible(detected.len());
        lemma_pairing_step(earlier, taken, gaps, admissible, TOLERANCE_NANOS as int);
        let pairing = position_pairing(annotated, detected);
        assert forall|index: int| 0 <= index < pairing.len() && #[trigger] pairing[index] >= 0 implies gap(
            detected[pairing[index]],
            annotated[index],
        ) <= TOLERANCE_NANOS as int by {
            if index < earlier.len() {
                assert(earlier[index] == pairing[index]);
                assert(earlier_annotated[index] == annotated[index]);
            }
        }
    }
}

/// The greedy match of notes is a one-to-one pairing of hits, and its hits
/// are the entries that pairing matches.
pub proof fn lemma_note_pairing(annotated: Seq<(u8, int, int)>, detected: Seq<(u8, int, int)>)
    ensures
        is_note_pairing(annotated, detected, note_pairing(annotated, detected)),
        marks_taken(note_pairing(annotated, detected), matched_notes(annotated, detected).0),
        paired_count(note_pairing(annotated, detected)) == matched_notes(annotated, detected).1,
    decreases annotated.len(),
{
    lemma_notes_one_to_one(annotated, detected);
    if annotated.len() == 0 {
        assert(paired_count(Seq::<int>::empty()) == 0);
    } else {
        let earlier_annotated = annotated.drop_last();
        lemma_note_pairing(earlier_annotated, detected);
        lemma_notes_one_to_one(earlier_annotated, detected);
        let earlier = note_pairing(earlier_annotated, detected);
        let taken = matched_notes(earlier_annotated, detected).0;
        let gaps = onset_gaps(detected, annotated.last());
        let admissible = note_admissible(detected, annotated.last());
        lemma_pairing_step(earlier, taken, gaps, admissible, NOTE_TOLERANCE_NANOS as int);
        let pairing = note_pairing(annotated, detected);
        assert forall|index: int| 0 <= index < pairing.len() && #[trigger] pairing[index] >= 0 implies note_hit(
            annotated[index],
            detected[pairing[index]],
        ) by {
            if index < earlier.len() {
                assert(earlier[index] == pairing[index]);
                assert(earlier_annotated[index] == annotated[index]);
            }
        }
    }
}

/// The greedy match of positions never scores above the optimum: whatever
/// bounds the entries of every one-to-one pairing within the tolerance bounds
/// its hits too.
pub proof fn lemma_positions_within_optimum(annotated: Seq<int>, detected: Seq<int>, bound: int)
    requires
        forall|pairing: Seq<int>|
            #[trigger] is_position_pairing(annotated, detected, pairing) ==> paired_count(pairing)
                <= bound,
    ensures
        matched_positions(annotated, detected).1 <= bound,
{
    lemma_position_pairing(annotated, detected);
    assert(is_position_pairing(annotated, detected, position_pairing(annotated, detected)));
}

/// The greedy match of notes never scores above the optimum, as
/// [`lemma_positions_within_optimum`] says of positions.
pub proof fn lemma_notes_within_optimum(
    annotated: Seq<(u8, int, int)>,
    detected: Seq<(u8, int, int)>,
    bound: int,
)
    requires
        forall|pairing: Seq<int>|
            #[trigger] is_note_pairing(annotated, detected, pairing) ==> paired_count(pairing)
                <= bound,
    ensures
        matched_notes(annotated, detected).1 <= bound,
{
    lemma_note_pairing(annotated, detected);
    assert(is_note_pairing(annotated, detected, note_pairing(annotated, detected)));
}

/// How well a candidate sequence matches an annotated one, whether of positions
/// or of notes.
///
/// The counts are reported alongside the rates because a rate over a handful of
/// positions and the same rate over a thousand are not the same evidence.
#[derive(Debug, Clone, Copy, PartialEq, Eq, Structural)]
pub struct Score {
    hits: usize,
    annotated: usize,
    detected: usize,
}

impl Score {
    /// The number of annotated entries the candidate found.
    pub closed spec fn spec_hits(self) -> nat {
        self.hits as nat
    }

    /// The number of entries the ground truth annotates.
    pub closed spec fn spec_annotated(self) -> nat {
        self.annotated as nat
    }

    /// The number of entries the candidate reported.
    pub closed spec fn spec_detected(self) -> nat {
        self.detected as nat
    }

    /// Score the positions in `detected` against the ground truth in
    /// `annotated`.
    ///
    /// A candidate within 70 ms of an annotated position is a hit, and the
    /// match is one-to-one: each annotated position takes the nearest
    /// candidate still free, in the order given, the earliest of equally near
    /// ones.
    pub fn of(annotated: &[Duration], detected: &[Duration]) -> (score: Self)
        ensures
            score.spec_hits() == matched_positions(nanos_seq(annotated@), nanos_seq(detected@)).1,
            score.spec_annotated() == annotated@.len(),
            score.spec_detected() == detected@.len(),
    {
        let ghost wanted = nanos_seq(annotated@);
        let ghost heard = nanos_seq(detected@);
        let mut taken: Vec<bool> = Vec::new();
        let mut filled: usize = 0;
        while filled < detected.len()
            invariant
                filled <= detected.len(),
                taken@ == none_taken(filled as nat),
            decreases detected.len() - filled,
        {
            taken.push(false);
            filled = filled + 1;
            assert(taken@ =~= none_taken(filled as nat));
        }
        let mut hits: usize = 0;
        let mut done: usize = 0;
        while done < annotated.len()
            invariant
                done <= annotated.len(),
                wanted == nanos_seq(annotated@),
                heard == nanos_seq(detected@),
                (taken@, hits as nat) == matched_positions(wanted.take(done as int), heard),
                taken@.len() == detected@.len(),
                hits <= done,
            decreases annotated.len() - done,
        {
            assert(wanted.take(done as int + 1).drop_last() =~= wanted.take(done as int));
            let found = nearest_free(detected, &taken, annotated[done]);
            match found {
                Some(index) => {
                    taken.set(index, true);
                    hits = hits + 1;
                },
                None => {},
            }
            done = done + 1;
        }
        assert(wanted.take(annotated@.len() as int) =~= wanted);
        Self { hits, annotated: annotated.len(), detected: detected.len() }
    }

    /// Score the notes in `detected` against the ground truth in `annotated`.
    ///
    /// A note is a hit only where all three of it agree: the pitch exactly, the
    /// onset within 50 ms, and the offset within that or a fifth of the
    /// annotated note, whichever is wider. Matching is one-to-one and greedy,
    /// as in [`of`](Self::of).
    pub fn of_notes(annotated: &[Note], detected: &[Note]) -> (score: Self)
        ensures
            score.spec_hits() == matched_notes(
                annotated@.map_values(|n: Note| note_view(n)),
                detected@.map_values(|n: Note| note_view(n)),
            ).1,
            score.spec_annotated() == annotated@.len(),
            score.spec_detected() == detected@.len(),
    {
        let ghost wanted = annotated@.map_values(|n: Note| note_view(n));
        let ghost heard = detected@.map_values(|n: Note| note_view(n));
        let mut taken: Vec<bool> = Vec::new();
        let mut filled: usize = 0;
        while filled < detected.len()
            invariant
                filled <= detected.len(),
                taken@ == none_taken(filled as nat),
            decreases detected.len() - filled,
        {
            taken.push(false);
            filled = filled + 1;
            assert(taken@ =~= none_taken(filled as nat));
        }
        let mut hits: usize = 0;
        let mut done: usize = 0;
        while done < annotated.len()
            invariant
                done <= annotated.len(),
                wanted == annotated@.map_values(|n: Note| note_view(n)),
                heard == detected@.map_values(|n: Note| note_view(n)),
                (taken@, hits as nat) == matched_notes(wanted.take(done as int), heard),
                taken@.len() == detected@.len(),
                hits <= done,
            decreases annotated.len() - done,
        {
            assert(wanted.take(done as int + 1).drop_last() =~= wanted.take(done as int));
            let found = nearest_free_note(detected, &taken, &annotated[done]);
            match found {
                Some(index) => {
                    taken.set(index, true);
                    hits = hits + 1;
                },
                None => {},
            }
            done = done + 1;
        }
        assert(wanted.take(annotated@.len() as int) =~= wanted);
        Self { hits, annotated: annotated.len(), detected: detected.len() }
    }

    /// How many annotated entries the candidate found.
    pub fn hits(&self) -> (hits: usize)
        ensures
            hits == self.spec_hits(),
    {
        self.hits
    }

    /// How many entries the ground truth annotates.
    pub fn annotated(&self) -> (annotated: usize)
        ensures
            annotated == self.spec_annotated(),
    {
        self.annotated
    }

    /// How many entries the candidate reported.
    pub fn detected(&self) -> (detected: usize)
        ensures
            detected == self.spec_detected(),
    {
        self.detected
    }
}

fn gap_between(one: u128, other: u128) -> (between: u128)
    ensures
        between == gap(one as int, other as int),
{
    if one >= other {
        one - other
    } else {
        other - one
    }
}

fn nearest_free(detected: &[Duration], taken: &Vec<bool>, position: Duration) -> (found: Option<usize>)
    requires
        taken@.len() == detected@.len(),
    ensures
        found matches Some(index) ==> index < detected@.len(),
        as_found(found) == nearest(
            position_gaps(nanos_seq(detected@), duration_nanos(position) as int),
            all_admissible(detected@.len()),
            taken@,
            TOLERANCE_NANOS as int,
        ),
{
    let ghost gaps = position_gaps(nanos_seq(detected@), duration_nanos(position) as int);
    let ghost admissible = all_admissible(detected@.len());
    let ghost reach = TOLERANCE_NANOS as int;
    let at = nanos_of(position);
    let mut best: Option<(usize, u128)> = None;
    let mut index: usize = 0;
    while index < detected.len()
        invariant
            index <= detected@.len(),
            taken@.len() == detected@.len(),
            gaps == position_gaps(nanos_seq(detected@), at as int),
            admissible == all_admissible(detected@.len()),
            reach == TOLERANCE_NANOS as int,
            match best {
                None => forall|other: int|
                    0 <= other < index ==> !eligible(gaps, admissible, taken@, reach, other),
                Some((chosen, chosen_gap)) => {
                    &&& chosen < index
                    &&& chosen_gap == gaps[chosen as int]
                    &&& eligible(gaps, admissible, taken@, reach, chosen as int)
                    &&& forall|other: int|
                        0 <= other < index && eligible(gaps, admissible, taken@, reach, other)
                            ==> chosen_gap <= gaps[other]
                    &&& forall|other: int|
                        0 <= other < chosen && eligible(gaps, admissible, taken@, reach, other)
                            ==> chosen_gap < gaps[other]
                },
            },
        decreases detected@.len() - index,
    {
        let here = gap_between(nanos_of(detected[index]), at);
        assert(here == gaps[index as int]);
        if !taken[index] && here <= TOLERANCE_NANOS as u128 {
            let better = match best {
                None => true,
                Some((_, chosen_gap)) => here < chosen_gap,
            };
            if better {
                best = Some((index, here));
            }
        }
        index = index + 1;
    }
    match best {
        Some((chosen, _)) => {
            assert(is_nearest(gaps, admissible, taken@, reach, chosen as int));
            proof {
                lemma_nearest_is(gaps, admissible, taken@, reach, chosen as int);
            }
            Some(chosen)
        },
        None => {
            assert(!exists|i: int| is_nearest(gaps, admissible, taken@, reach, i));
            None
        },
    }
}

fn nearest_free_note(detected: &[Note], taken: &Vec<bool>, note: &Note) -> (found: Option<usize>)
    requires
        taken@.len() == detected@.len(),
    ensures
        found matches Some(index) ==> index < detected@.len(),
        as_found(found) == nearest(
            onset_gaps(detected@.map_values(|n: Note| note_view(n)), note_view(*note)),
            note_admissible(detected@.map_values(|n: Note| note_view(n)), note_view(*note)),
            taken@,
            NOTE_TOLERANCE_NANOS as int,
        ),
{
    let ghost heard = detected@.map_values(|n: Note| note_view(n));
    let ghost gaps = onset_gaps(heard, note_view(*note));
    let ghost admissible = note_admissible(heard, note_view(*note));
    let ghost reach = NOTE_TOLERANCE_NANOS as int;
    let onset = nanos_of(note.onset);
    let offset = nanos_of(note.offset);
    let length = if offset >= onset { offset - onset } else { 0 };
    let share = length / (OFFSET_SHARE as u128);
    let release_nanos = if share >= NOTE_TOLERANCE_NANOS as u128 {
        share
    } else {
        NOTE_TOLERANCE_NANOS as u128
    };
    assert(release_nanos == release(note_view(*note)));
    let mut best: Option<(usize, u128)> = None;
    let mut index: usize = 0;
    while index < detected.len()
        invariant
            index <= detected@.len(),
            taken@.len() == detected@.len(),
            heard == detected@.map_values(|n: Note| note_view(n)),
            gaps == onset_gaps(heard, note_view(*note)),
            admissible == note_admissible(heard, note_view(*note)),
            reach == NOTE_TOLERANCE_NANOS as int,
            onset == duration_nanos(note.onset),
            offset == duration_nanos(note.offset),
            release_nanos == release(note_view(*note)),
            match best {
                None => forall|other: int|
                    0 <= other < index ==> !eligible(gaps, admissible, taken@, reach, other),
                Some((chosen, chosen_gap)) => {
                    &&& chosen < index
                    &&& chosen_gap == gaps[chosen as int]
                    &&& eligible(gaps, admissible, taken@, reach, chosen as int)
                    &&& forall|other: int|
                        0 <= other < index && eligible(gaps, admissible, taken@, reach, other)
                            ==> chosen_gap <= gaps[other]
                    &&& forall|other: int|
                        0 <= other < chosen && eligible(gaps, admissible, taken@, reach, other)
                            ==> chosen_gap < gaps[other]
                },
            },
        decreases detected@.len() - index,
    {
        let heard_note = &detected[index];
        let here = gap_between(nanos_of(heard_note.onset), onset);
        let ending = gap_between(nanos_of(heard_note.offset), offset);
        assert(here == gaps[index as int]);
        let fits = heard_note.pitch == note.pitch && ending <= release_nanos;
        assert(fits == admissible[index as int]);
        if !taken[index] && fits && here <= NOTE_TOLERANCE_NANOS as u128 {
            let better = match best {
                None => true,
                Some((_, chosen_gap)) => here < chosen_gap,
            };
            if better {
                best = Some((index, here));
            }
        }
        index = index + 1;
    }
    match best {
        Some((chosen, _)) => {
            assert(is_nearest(gaps, admissible, taken@, reach, chosen as int));
            proof {
                lemma_nearest_is(gaps, admissible, taken@, reach, chosen as int);
            }
            Some(chosen)
        },
        None => {
            assert(!exists|i: int| is_nearest(gaps, admissible, taken@, reach, i));
            None
        },
    }
}

} // verus!
