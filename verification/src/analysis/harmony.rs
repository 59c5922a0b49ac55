//! The chords of a take, as spans between the beats where the harmony moves.
//!
//! A label is heard at each beat; what is kept is where it changes. A run of
//! beats hearing one label is one chord, from the first of them to the beat
//! where the next label starts, and the last chord runs to the end of the take.

use std::time::Duration;
use vstd::prelude::*;

use crate::fixtures::{Chord, ChordLabel};
use crate::looper::{span_nanos, span_of};
use crate::time::{duration_nanos, nanos_of};

verus! {

/// Where the label changes over the first `count` beats: the first beat, and
/// each beat whose label differs from the last one kept, with the beat it
/// starts at.
pub open spec fn changes_of(heard: Seq<ChordLabel>, beats: Seq<Duration>, count: nat) -> Seq<(ChordLabel, Duration)>
    decreases count,
{
    if count == 0 {
        Seq::empty()
    } else {
        let before = changes_of(heard, beats, (count - 1) as nat);
        if before.len() == 0 || before.last().0 != heard[count - 1] {
            before.push((heard[count - 1], beats[count - 1]))
        } else {
            before
        }
    }
}

/// The chords that `changes` describe: each from where it changes to where
/// the next one does, and the last to `ends`.
pub open spec fn spans_of(changes: Seq<(ChordLabel, Duration)>, ends: Duration) -> Seq<Chord> {
    Seq::new(
        changes.len(),
        |index: int|
            Chord {
                label: changes[index].0,
                from: changes[index].1,
                to: if index + 1 < changes.len() {
                    changes[index + 1].1
                } else {
                    ends
                },
            },
    )
}

/// The shorter of two lengths.
pub open spec fn fewest(one: nat, other: nat) -> nat {
    if one <= other {
        one
    } else {
        other
    }
}

/// The chords of a take whose beats fall at `beats` and heard `heard` at
/// them, one label to a beat, the last running to `ends`.
///
/// A label matches the beat at the same place; where one list is longer, the
/// extra entries are passed over.
pub fn chord_spans(heard: &[ChordLabel], beats: &[Duration], ends: Duration) -> (chords: Vec<Chord>)
    ensures
        chords@ == spans_of(changes_of(heard@, beats@, fewest(heard@.len(), beats@.len())), ends),
{
    let count = if heard.len() <= beats.len() { heard.len() } else { beats.len() };
    let mut changes: Vec<(ChordLabel, Duration)> = Vec::new();
    let mut index: usize = 0;
    while index < count
        invariant
            index <= count,
            count == fewest(heard@.len(), beats@.len()),
            changes@ == changes_of(heard@, beats@, index as nat),
        decreases count - index,
    {
        let label = heard[index];
        let fresh = if changes.len() == 0 {
            true
        } else {
            changes[changes.len() - 1].0 != label
        };
        if fresh {
            changes.push((label, beats[index]));
        }
        index = index + 1;
    }
    let ghost found = changes@;
    let mut chords: Vec<Chord> = Vec::new();
    let mut at: usize = 0;
    while at < changes.len()
        invariant
            changes@ == found,
            at <= found.len(),
            chords@ == spans_of(found, ends).take(at as int),
        decreases found.len() - at,
    {
        let to = if at + 1 < changes.len() { changes[at + 1].1 } else { ends };
        chords.push(Chord { label: changes[at].0, from: changes[at].1, to });
        at = at + 1;
    }
    assert(chords@ =~= spans_of(found, ends));
    chords
}

/// Where a take of `frames` frames at `sample_rate` ends, for the chords over
/// it: where the audio stops, or at the last beat where that is later.
pub fn take_end(frames: usize, sample_rate: u32, beats: &[Duration]) -> (ends: Duration)
    requires
        sample_rate > 0,
    ensures
        beats@.len() == 0 ==> duration_nanos(ends) == span_nanos(frames as int, sample_rate as int),
        beats@.len() > 0 ==> duration_nanos(ends) == if span_nanos(frames as int, sample_rate as int)
            >= duration_nanos(beats@.last()) {
            span_nanos(frames as int, sample_rate as int) as int
        } else {
            duration_nanos(beats@.last()) as int
        },
{
    let played = span_of(frames, sample_rate);
    if beats.len() == 0 {
        return played;
    }
    let last = beats[beats.len() - 1];
    if nanos_of(played) >= nanos_of(last) {
        played
    } else {
        last
    }
}

/// Whether beat `index` starts a run of beats hearing one label: it is the
/// first beat, or it hears another label than the beat before it.
pub open spec fn starts_run(heard: Seq<ChordLabel>, index: int) -> bool {
    index == 0 || heard[index] != heard[index - 1]
}

/// The changes kept over some beats end on the label the last of them heard.
proof fn lemma_changes_end_on_last(heard: Seq<ChordLabel>, beats: Seq<Duration>, count: nat)
    requires
        count > 0,
    ensures
        changes_of(heard, beats, count).len() > 0,
        changes_of(heard, beats, count).last().0 == heard[count - 1],
    decreases count,
{
    if count > 1 {
        lemma_changes_end_on_last(heard, beats, (count - 1) as nat);
    }
}

/// A chord starts exactly where the harmony moves: every beat that hears
/// another label than the beat before it, and the first beat, starts a chord
/// carrying that label from that beat on, and every chord starts at such a
/// beat with the label heard there. A label that comes back after another is
/// a new chord.
pub proof fn lemma_chords_start_where_the_label_moves(
    heard: Seq<ChordLabel>,
    beats: Seq<Duration>,
    count: nat,
    ends: Duration,
)
    requires
        count <= heard.len(),
        count <= beats.len(),
    ensures
        forall|index: int|
            0 <= index < count && #[trigger] starts_run(heard, index) ==> exists|chord: int|
                0 <= chord < spans_of(changes_of(heard, beats, count), ends).len()
                    && #[trigger] spans_of(changes_of(heard, beats, count), ends)[chord].label
                    == heard[index] && spans_of(changes_of(heard, beats, count), ends)[chord].from
                    == beats[index],
        forall|chord: int|
            #![trigger spans_of(changes_of(heard, beats, count), ends)[chord]]
            0 <= chord < spans_of(changes_of(heard, beats, count), ends).len() ==> exists|index: int|
                #![trigger starts_run(heard, index)]
                0 <= index < count && starts_run(heard, index) && heard[index] == spans_of(
                    changes_of(heard, beats, count),
                    ends,
                )[chord].label && beats[index] == spans_of(changes_of(heard, beats, count), ends)[chord].from,
    decreases count,
{
    let changes = changes_of(heard, beats, count);
    let chords = spans_of(changes, ends);
    if count > 0 {
        let before = changes_of(heard, beats, (count - 1) as nat);
        lemma_chords_start_where_the_label_moves(heard, beats, (count - 1) as nat, ends);
        let earlier = spans_of(before, ends);
        if count > 1 {
            lemma_changes_end_on_last(heard, beats, (count - 1) as nat);
        }
        let last = count - 1;
        assert(before.len() == 0 || before.last().0 != heard[last] <==> starts_run(heard, last));
        assert forall|index: int| 0 <= index < count && #[trigger] starts_run(heard, index) implies exists|chord: int|
            0 <= chord < chords.len() && #[trigger] chords[chord].label == heard[index]
                && chords[chord].from == beats[index] by {
            if index < last {
                let chord = choose|chord: int|
                    0 <= chord < earlier.len() && #[trigger] earlier[chord].label == heard[index]
                        && earlier[chord].from == beats[index];
                assert(earlier[chord].label == before[chord].0);
                assert(chords[chord].label == changes[chord].0);
                assert(changes[chord] == before[chord]);
            } else {
                let chord = changes.len() - 1;
                assert(chords[chord].label == changes[chord].0);
                assert(chords[chord].from == changes[chord].1);
            }
        }
        assert forall|chord: int| #![trigger chords[chord]] 0 <= chord < chords.len() implies exists|index: int|
            #![trigger starts_run(heard, index)]
            0 <= index < count && starts_run(heard, index) && heard[index] == chords[chord].label
                && beats[index] == chords[chord].from by {
            assert(chords[chord].label == changes[chord].0);
            assert(chords[chord].from == changes[chord].1);
            if chord < before.len() {
                assert(changes[chord] == before[chord]);
                assert(earlier[chord].label == before[chord].0);
                assert(earlier[chord].from == before[chord].1);
                let index = choose|index: int|
                    #![trigger starts_run(heard, index)]
                    0 <= index < count - 1 && starts_run(heard, index) && heard[index]
                        == earlier[chord].label && beats[index] == earlier[chord].from;
                assert(starts_run(heard, index));
            } else {
                assert(starts_run(heard, last));
            }
        }
    }
}

/// Neighbouring chords never carry the same label: a chord ends exactly where
/// the harmony moves.
pub proof fn lemma_neighbours_differ(heard: Seq<ChordLabel>, beats: Seq<Duration>, count: nat, ends: Duration)
    ensures
        forall|index: int|
            0 <= index && index + 1 < spans_of(changes_of(heard, beats, count), ends).len()
                ==> #[trigger] spans_of(changes_of(heard, beats, count), ends)[index].label != spans_of(
                changes_of(heard, beats, count),
                ends,
            )[index + 1].label,
    decreases count,
{
    if count > 0 {
        lemma_neighbours_differ(heard, beats, (count - 1) as nat, ends);
        let before = changes_of(heard, beats, (count - 1) as nat);
        let after = changes_of(heard, beats, count);
        assert forall|index: int| 0 <= index && index + 1 < after.len() implies #[trigger] after[index].0
            != after[index + 1].0 by {
            if index + 1 < before.len() {
                assert(spans_of(before, ends)[index].label == before[index].0);
                assert(spans_of(before, ends)[index + 1].label == before[index + 1].0);
            }
        }
    }
}

} // verus!
