//! Ground truth for a fixture: where the beats fall, which of them begin a bar,
//! what harmony sounds over them, what a monophonic line plays, and how close a
//! candidate came to finding any of it.
//!
//! A wrong annotation is a silent source of wrong accuracy numbers, so the
//! format is line-oriented text meant to be read and corrected in a pull
//! request rather than taken on trust. [`Score`] and [`Agreement`] are what turn
//! an accuracy claim into a number anyone can check.

use std::time::Duration;
use vstd::prelude::*;
use vstd::string::StringSliceAdditionalSpecFns;

pub mod harness;
pub mod synth;

mod chord;
mod recipe;
mod scoring;
mod text;

pub use chord::{
    agreed_at, agreed_nanos, agrees_over, covered_nanos, credited_nanos, lemma_agreed_within_total,
    scorable, total_nanos, label_of, label_spelling, label_wf, lemma_spelling_reads_back, lemma_spelling_unique, spells,
    Agreement, Chord, ChordLabel, Comparison, PitchClass, Quality,
};
pub use recipe::Axis;
pub use scoring::{
    is_note_pairing, is_position_pairing, lemma_note_pairing, lemma_notes_one_to_one,
    lemma_notes_within_optimum, lemma_position_pairing, lemma_positions_one_to_one,
    lemma_positions_within_optimum, matched_notes, matched_positions, nanos_seq, note_hit,
    note_pairing, one_to_one, paired_count, position_pairing, taken_count, Score,
};

pub use text::{decimal_nanos, lemma_unscaled, scaled_nanos, seconds_nanos, unsigned_nanos};

pub use chord::chord_view;
pub use scoring::note_view;
pub use text::{
    all_digits, digits_value, fields, line_end, lemma_digits_grow, lemma_line_end, pitch_of, HASH,
    HIGHEST_PITCH, PLUS,
};

use chord::lemma_label_of;
use text::{find_line_end, parse_pitch, parse_seconds, split_fields};
use crate::time::{duration_nanos, from_total_nanos, nanos_of};

verus! {

/// One annotated beat.
///
/// # Format
///
/// One entry per line, `<seconds> beat` or `<seconds> downbeat`. A downbeat
/// counts as both kinds.
#[derive(Debug, Clone, Copy, PartialEq, Eq)]
pub struct Beat {
    /// Where it falls, measured from the start of the audio.
    pub at: Duration,
    /// Whether it begins a bar.
    pub is_downbeat: bool,
}

/// One annotated note of a monophonic line.
///
/// # Format
///
/// One entry per line, `<seconds> note <pitch> <seconds>`: where it starts, its
/// MIDI note number, and where it stops. A note ends after it starts, and the
/// line is monophonic, so the next one may not start before this one ends.
#[derive(Debug, Clone, Copy, PartialEq, Eq)]
pub struct Note {
    /// Which note it plays, as a MIDI note number.
    pub pitch: u8,
    /// Where it starts, measured from the start of the audio.
    pub onset: Duration,
    /// Where it stops.
    pub offset: Duration,
}

/// A beat as the annotation reads it: where it falls in nanoseconds, and
/// whether it begins a bar.
pub open spec fn beat_view(beat: Beat) -> (int, bool) {
    (duration_nanos(beat.at) as int, beat.is_downbeat)
}

/// Why a fixture's ground truth could not be read.
#[derive(Debug, Clone, Copy, PartialEq, Eq, Structural)]
pub enum AnnotationError {
    /// A line held the wrong number of fields for the kind it named.
    Malformed {
        /// The line it was on, counted from one.
        line: usize,
    },
    /// A timestamp was not a number of seconds a beat can fall at.
    Timestamp {
        /// The line it was on, counted from one.
        line: usize,
    },
    /// An entry kind was none of `beat`, `downbeat`, `chord` or `note`.
    EntryKind {
        /// The line it was on, counted from one.
        line: usize,
    },
    /// A chord label was not one this vocabulary spells.
    ChordLabel {
        /// The line it was on, counted from one.
        line: usize,
    },
    /// A pitch was not a MIDI note number.
    Pitch {
        /// The line it was on, counted from one.
        line: usize,
    },
    /// A note did not end after it started.
    NoteSpan {
        /// The line it was on, counted from one.
        line: usize,
    },
    /// A note started before the one before it ended.
    Overlap {
        /// The line it was on, counted from one.
        line: usize,
    },
    /// A timestamp did not come after the one before it of the same kind.
    OutOfOrder {
        /// The line it was on, counted from one.
        line: usize,
    },
    /// Nothing was annotated.
    Empty,
    /// Beats were annotated but none of them begins a bar.
    NoDownbeats,
    /// Chords were annotated but the last entry names one.
    UnterminatedChords,
}

/// The line an error blames, where it blames one.
pub open spec fn error_line(error: AnnotationError) -> Option<usize> {
    match error {
        AnnotationError::Malformed { line } => Some(line),
        AnnotationError::Timestamp { line } => Some(line),
        AnnotationError::EntryKind { line } => Some(line),
        AnnotationError::ChordLabel { line } => Some(line),
        AnnotationError::Pitch { line } => Some(line),
        AnnotationError::NoteSpan { line } => Some(line),
        AnnotationError::Overlap { line } => Some(line),
        AnnotationError::OutOfOrder { line } => Some(line),
        _ => None,
    }
}

impl AnnotationError {
    /// The line the annotation failed on, counted from one, where the failure
    /// is attributable to one.
    pub fn line(&self) -> (line: Option<usize>)
        ensures
            line == error_line(*self),
    {
        match self {
            Self::Malformed { line }
            | Self::Timestamp { line }
            | Self::EntryKind { line }
            | Self::ChordLabel { line }
            | Self::Pitch { line }
            | Self::NoteSpan { line }
            | Self::Overlap { line }
            | Self::OutOfOrder { line } => Some(*line),
            Self::Empty | Self::NoDownbeats | Self::UnterminatedChords => None,
        }
    }
}

/// What one line of an annotation holds, with its times in nanoseconds.
pub enum Found {
    /// A beat: where it falls, and whether it is a downbeat.
    Beat(int, bool),
    /// A chord change: where it falls, and the label from there on.
    Change(int, ChordLabel),
    /// A note: its pitch, onset and offset.
    Note(u8, int, int),
}

/// The entry kind `beat`.
pub open spec fn beat_word() -> Seq<u8> {
    seq![98u8, 101u8, 97u8, 116u8]
}

/// The entry kind `downbeat`.
pub open spec fn downbeat_word() -> Seq<u8> {
    seq![100u8, 111u8, 119u8, 110u8, 98u8, 101u8, 97u8, 116u8]
}

/// The entry kind `chord`.
pub open spec fn chord_word() -> Seq<u8> {
    seq![99u8, 104u8, 111u8, 114u8, 100u8]
}

/// The entry kind `note`.
pub open spec fn note_word() -> Seq<u8> {
    seq![110u8, 111u8, 116u8, 101u8]
}

/// What the fields of line `line` make: a timestamp, a kind, and what that kind
/// carries, with nothing after it.
pub open spec fn entry_of(fields: Seq<Seq<u8>>, line: usize) -> Result<Found, AnnotationError> {
    if fields.len() < 2 {
        Err(AnnotationError::Malformed { line })
    } else {
        match seconds_nanos(fields[0]) {
            None => Err(AnnotationError::Timestamp { line }),
            Some(at) => {
                let kind = fields[1];
                if kind == beat_word() || kind == downbeat_word() {
                    if fields.len() > 2 {
                        Err(AnnotationError::Malformed { line })
                    } else {
                        Ok(Found::Beat(at, kind == downbeat_word()))
                    }
                } else if kind == chord_word() {
                    if fields.len() < 3 {
                        Err(AnnotationError::Malformed { line })
                    } else {
                        match label_of(fields[2]) {
                            None => Err(AnnotationError::ChordLabel { line }),
                            Some(label) => if fields.len() > 3 {
                                Err(AnnotationError::Malformed { line })
                            } else {
                                Ok(Found::Change(at, label))
                            },
                        }
                    }
                } else if kind == note_word() {
                    if fields.len() < 4 {
                        Err(AnnotationError::Malformed { line })
                    } else {
                        match pitch_of(fields[2]) {
                            None => Err(AnnotationError::Pitch { line }),
                            Some(pitch) => match seconds_nanos(fields[3]) {
                                None => Err(AnnotationError::Timestamp { line }),
                                Some(offset) => if fields.len() > 4 {
                                    Err(AnnotationError::Malformed { line })
                                } else {
                                    Ok(Found::Note(pitch, at, offset))
                                },
                            },
                        }
                    }
                } else {
                    Err(AnnotationError::EntryKind { line })
                }
            },
        }
    }
}

/// What has been read so far: the beats, the chord changes and the notes.
pub type Read = (Seq<(int, bool)>, Seq<(int, ChordLabel)>, Seq<(u8, int, int)>);

/// Nothing read yet.
pub open spec fn nothing_read() -> Read {
    (Seq::empty(), Seq::empty(), Seq::empty())
}

/// `read` with `found` added, or why line `line` cannot follow it: a time no
/// later than the one before it of the same kind, a note that does not end
/// after it starts, or one starting before the one before it ended.
pub open spec fn absorb(read: Read, found: Found, line: usize) -> Result<Read, AnnotationError> {
    let (beats, changes, notes) = read;
    match found {
        Found::Beat(at, down) => if beats.len() > 0 && at <= beats.last().0 {
            Err(AnnotationError::OutOfOrder { line })
        } else {
            Ok((beats.push((at, down)), changes, notes))
        },
        Found::Change(at, label) => if changes.len() > 0 && at <= changes.last().0 {
            Err(AnnotationError::OutOfOrder { line })
        } else {
            Ok((beats, changes.push((at, label)), notes))
        },
        Found::Note(pitch, onset, offset) => if offset <= onset {
            Err(AnnotationError::NoteSpan { line })
        } else if notes.len() > 0 && onset <= notes.last().1 {
            Err(AnnotationError::OutOfOrder { line })
        } else if notes.len() > 0 && onset < notes.last().2 {
            Err(AnnotationError::Overlap { line })
        } else {
            Ok((beats, changes, notes.push((pitch, onset, offset))))
        },
    }
}

/// Whether a line says nothing: no fields, or a comment.
pub open spec fn is_blank(fields: Seq<Seq<u8>>) -> bool {
    fields.len() == 0 || (fields[0].len() > 0 && fields[0][0] == HASH)
}

/// Read `text` from the line starting at `at`, numbered `number`, on top of
/// `read`.
pub open spec fn read_from(text: Seq<u8>, at: int, number: int, read: Read) -> Result<
    Read,
    AnnotationError,
>
    decreases text.len() + 1 - at,
{
    if 0 <= at < text.len() {
        proof {
            lemma_line_end(text, at);
        }
        let end = line_end(text, at);
        let line = fields(text.subrange(at, end));
        let next = if is_blank(line) {
            Ok(read)
        } else {
            match entry_of(line, number as usize) {
                Err(error) => Err(error),
                Ok(found) => absorb(read, found, number as usize),
            }
        };
        match next {
            Err(error) => Err(error),
            Ok(read) => read_from(text, end + 1, number + 1, read),
        }
    } else {
        Ok(read)
    }
}

/// The chords a run of changes spans: each from its own change to the next.
pub open spec fn spans_of(changes: Seq<(int, ChordLabel)>) -> Seq<(ChordLabel, int, int)> {
    Seq::new(
        if changes.len() > 0 { (changes.len() - 1) as nat } else { 0 },
        |index: int| (changes[index].1, changes[index].0, changes[index + 1].0),
    )
}

/// What an annotation reads as: its beats, its chords and its notes.
pub type AnnotationView = (Seq<(int, bool)>, Seq<(ChordLabel, int, int)>, Seq<(u8, int, int)>);

/// The annotation a whole read makes, or why it is not one: no beats, no
/// downbeat among them, or chords that do not end in silence.
pub open spec fn finished(read: Read) -> Result<AnnotationView, AnnotationError> {
    let (beats, changes, notes) = read;
    if beats.len() == 0 {
        Err(AnnotationError::Empty)
    } else if !(exists|index: int| 0 <= index < beats.len() && #[trigger] beats[index].1) {
        Err(AnnotationError::NoDownbeats)
    } else if changes.len() > 0 && changes.last().1 != ChordLabel::Silent {
        Err(AnnotationError::UnterminatedChords)
    } else {
        Ok((beats, spans_of(changes), notes))
    }
}

/// The annotation `text` spells, or why it does not spell one.
pub open spec fn annotation_of(text: Seq<u8>) -> Result<AnnotationView, AnnotationError> {
    match read_from(text, 0, 1, nothing_read()) {
        Err(error) => Err(error),
        Ok(read) => finished(read),
    }
}

/// Whether what has been read so far is in order: each beat and each chord
/// change later than the one before it, each note ending after it starts and
/// no later than the next starts, and each pitch a MIDI note number.
pub open spec fn read_in_order(read: Read) -> bool {
    let (beats, changes, notes) = read;
    &&& forall|index: int| 0 <= index && index + 1 < beats.len() ==> #[trigger] beats[index].0 < beats[index + 1].0
    &&& forall|index: int|
        0 <= index && index + 1 < changes.len() ==> #[trigger] changes[index].0 < changes[index + 1].0
    &&& forall|index: int|
        0 <= index < notes.len() ==> #[trigger] notes[index].1 < notes[index].2 && notes[index].0
            <= HIGHEST_PITCH
    &&& forall|index: int|
        0 <= index && index + 1 < notes.len() ==> #[trigger] notes[index].2 <= notes[index + 1].1
            && notes[index].1 < notes[index + 1].1
}

/// Whether an annotation is what the format promises: at least one beat and
/// a downbeat among them, beats in strictly increasing time, each chord
/// ending after it starts where the next one starts, and the notes a
/// monophonic line of MIDI note numbers, each ending after it starts and no
/// later than the next starts.
pub open spec fn annotation_wf(view: AnnotationView) -> bool {
    parts_well_formed(view.0, view.1, view.2)
}

/// Whether beats, chords and notes are each as the format promises (see
/// `annotation_wf`).
pub open spec fn parts_well_formed(
    beats: Seq<(int, bool)>,
    chords: Seq<(ChordLabel, int, int)>,
    notes: Seq<(u8, int, int)>,
) -> bool {
    &&& beats.len() > 0
    &&& exists|index: int| 0 <= index < beats.len() && #[trigger] beats[index].1
    &&& forall|index: int|
        0 <= index && index + 1 < beats.len() ==> #[trigger] beats[index].0 < beats[index + 1].0
    &&& forall|index: int| 0 <= index < chords.len() ==> #[trigger] chords[index].1 < chords[index].2
    &&& forall|index: int|
        0 <= index && index + 1 < chords.len() ==> #[trigger] chords[index].2 == chords[index + 1].1
    &&& forall|index: int|
        0 <= index < notes.len() ==> #[trigger] notes[index].1 < notes[index].2 && notes[index].0
            <= HIGHEST_PITCH
    &&& forall|index: int|
        0 <= index && index + 1 < notes.len() ==> #[trigger] notes[index].2 <= notes[index + 1].1
            && notes[index].1 < notes[index + 1].1
}

proof fn lemma_note_pitch(fields: Seq<Seq<u8>>, line: usize)
    ensures
        entry_of(fields, line) matches Ok(Found::Note(pitch, _, _)) ==> pitch <= HIGHEST_PITCH,
{
    if fields.len() >= 4 {
        let field = fields[2];
        let digits = if field.len() > 0 && field[0] == PLUS { field.drop_first() } else { field };
        if digits.len() > 0 && all_digits(digits) && digits_value(digits) <= HIGHEST_PITCH {
            lemma_digits_grow(digits, 0);
        }
    }
}

proof fn lemma_absorb_in_order(read: Read, found: Found, line: usize)
    requires
        read_in_order(read),
        found matches Found::Note(pitch, _, _) ==> pitch <= HIGHEST_PITCH,
    ensures
        absorb(read, found, line) matches Ok(next) ==> read_in_order(next),
{
}

proof fn lemma_read_in_order(text: Seq<u8>, at: int, number: int, read: Read)
    requires
        read_in_order(read),
    ensures
        read_from(text, at, number, read) matches Ok(done) ==> read_in_order(done),
    decreases text.len() + 1 - at,
{
    if 0 <= at < text.len() {
        lemma_line_end(text, at);
        let end = line_end(text, at);
        let line = fields(text.subrange(at, end));
        if !is_blank(line) {
            lemma_note_pitch(line, number as usize);
            if let Ok(found) = entry_of(line, number as usize) {
                lemma_absorb_in_order(read, found, number as usize);
                if let Ok(next) = absorb(read, found, number as usize) {
                    lemma_read_in_order(text, end + 1, number + 1, next);
                }
            }
        } else {
            lemma_read_in_order(text, end + 1, number + 1, read);
        }
    }
}

/// Whatever an annotation parses from, it is what the format promises: beats
/// with a downbeat among them in strictly increasing time, chords end to end,
/// and the notes a monophonic line.
pub proof fn lemma_parsed_well_formed(text: Seq<u8>)
    ensures
        annotation_of(text) matches Ok(view) ==> annotation_wf(view),
{
    lemma_read_in_order(text, 0, 1, nothing_read());
    if let Ok(read) = read_from(text, 0, 1, nothing_read()) {
        let (beats, changes, notes) = read;
        let chords = spans_of(changes);
        assert forall|index: int| 0 <= index < chords.len() implies #[trigger] chords[index].1
            < chords[index].2 by {
            assert(changes[index].0 < changes[index + 1].0);
        }
        assert(parts_well_formed(beats, chords, notes) || finished(read) is Err);
    }
}

/// A fixture's ground truth: the beats, the harmony over them, and the notes of
/// a monophonic line.
///
/// # Format
///
/// One entry per line — decimal seconds, then `beat`, `downbeat`, `chord` or
/// `note`, then what that kind carries, which [`Beat`], [`Chord`] and [`Note`]
/// each give. `#` comments a line, and it still counts towards the one an
/// [`AnnotationError`] blames. Timestamps strictly increase within a kind, and
/// at least one beat is annotated and one of those is a downbeat.
#[derive(Debug, Clone, PartialEq, Eq)]
pub struct Annotation {
    beats: Vec<Beat>,
    chords: Vec<Chord>,
    notes: Vec<Note>,
}

impl View for Annotation {
    type V = AnnotationView;

    closed spec fn view(&self) -> AnnotationView {
        (beats_view(self.beats@), chords_view(self.chords@), notes_view(self.notes@))
    }
}

struct Change {
    at: Duration,
    label: ChordLabel,
}

spec fn change_view(change: Change) -> (int, ChordLabel) {
    (duration_nanos(change.at) as int, change.label)
}

/// The beats a run of them reads as.
pub open spec fn beats_view(beats: Seq<Beat>) -> Seq<(int, bool)> {
    beats.map_values(|beat: Beat| beat_view(beat))
}

/// The notes a run of them reads as.
pub open spec fn notes_view(notes: Seq<Note>) -> Seq<(u8, int, int)> {
    notes.map_values(|note: Note| note_view(note))
}

/// The chords a run of them reads as.
pub open spec fn chords_view(chords: Seq<Chord>) -> Seq<(ChordLabel, int, int)> {
    chords.map_values(|chord: Chord| chord_view(chord))
}

spec fn changes_view(changes: Seq<Change>) -> Seq<(int, ChordLabel)> {
    changes.map_values(|change: Change| change_view(change))
}

spec fn read_view(beats: Seq<Beat>, changes: Seq<Change>, notes: Seq<Note>) -> Read {
    (beats_view(beats), changes_view(changes), notes_view(notes))
}

enum Entry {
    Beat(Beat),
    Change(Change),
    Note(Note),
}

spec fn entry_view(entry: Entry) -> Found {
    match entry {
        Entry::Beat(beat) => Found::Beat(duration_nanos(beat.at) as int, beat.is_downbeat),
        Entry::Change(change) => Found::Change(duration_nanos(change.at) as int, change.label),
        Entry::Note(note) => Found::Note(
            note.pitch,
            duration_nanos(note.onset) as int,
            duration_nanos(note.offset) as int,
        ),
    }
}

fn field_is(line: &[u8], span: (usize, usize), word: &[u8]) -> (is: bool)
    requires
        span.0 <= span.1 <= line@.len(),
    ensures
        is == (line@.subrange(span.0 as int, span.1 as int) == word@),
{
    let (from, to) = span;
    if to - from != word.len() {
        proof {
            if line@.subrange(from as int, to as int) == word@ {
                assert(line@.subrange(from as int, to as int).len() == word@.len());
            }
        }
        return false;
    }
    let mut index: usize = 0;
    while index < word.len()
        invariant
            from == span.0,
            to == span.1,
            from <= to <= line@.len(),
            to - from == word@.len(),
            index <= word@.len(),
            forall|i: int| 0 <= i < index ==> line@[from + i] == word@[i],
        decreases word@.len() - index,
    {
        if line[from + index] != word[index] {
            assert(line@.subrange(from as int, to as int)[index as int] == line@[from + index]);
            assert(line@.subrange(from as int, to as int)[index as int] != word@[index as int]);
            return false;
        }
        index = index + 1;
    }
    assert(line@.subrange(from as int, to as int) =~= word@);
    true
}

fn parse_entry(line: &[u8], spans: &Vec<(usize, usize)>, number: usize) -> (entry: Result<
    Entry,
    AnnotationError,
>)
    requires
        spans@.len() == fields(line@).len(),
        forall|index: int|
            #![trigger spans@[index]]
            0 <= index < spans@.len() ==> {
                &&& spans@[index].0 <= spans@[index].1 <= line@.len()
                &&& line@.subrange(spans@[index].0 as int, spans@[index].1 as int) == fields(
                    line@,
                )[index]
            },
    ensures
        match entry {
            Ok(found) => entry_of(fields(line@), number) == Ok::<Found, AnnotationError>(
                entry_view(found),
            ),
            Err(error) => entry_of(fields(line@), number) == Err::<Found, AnnotationError>(error),
        },
{
    let ghost words = fields(line@);
    if spans.len() < 2 {
        return Err(AnnotationError::Malformed { line: number });
    }
    let (from, to) = spans[0];
    let at = match parse_seconds(line, from, to) {
        None => {
            return Err(AnnotationError::Timestamp { line: number });
        },
        Some(nanos) => nanos,
    };
    let kind = spans[1];
    let beat: [u8; 4] = [98, 101, 97, 116];
    let downbeat: [u8; 8] = [100, 111, 119, 110, 98, 101, 97, 116];
    let chord: [u8; 5] = [99, 104, 111, 114, 100];
    let note: [u8; 4] = [110, 111, 116, 101];
    assert(beat@ =~= beat_word());
    assert(downbeat@ =~= downbeat_word());
    assert(chord@ =~= chord_word());
    assert(note@ =~= note_word());
    let is_beat = field_is(line, kind, beat.as_slice());
    let is_downbeat = field_is(line, kind, downbeat.as_slice());
    if is_beat || is_downbeat {
        if spans.len() > 2 {
            return Err(AnnotationError::Malformed { line: number });
        }
        return Ok(Entry::Beat(Beat { at: from_total_nanos(at), is_downbeat }));
    }
    if field_is(line, kind, chord.as_slice()) {
        if spans.len() < 3 {
            return Err(AnnotationError::Malformed { line: number });
        }
        let (label_from, label_to) = spans[2];
        let spelled = &line[label_from..label_to];
        assert(spelled@ =~= words[2]);
        let label = match ChordLabel::from_bytes(spelled) {
            None => {
                return Err(AnnotationError::ChordLabel { line: number });
            },
            Some(label) => label,
        };
        proof {
            lemma_label_of(words[2], label);
        }
        if spans.len() > 3 {
            return Err(AnnotationError::Malformed { line: number });
        }
        return Ok(Entry::Change(Change { at: from_total_nanos(at), label }));
    }
    if field_is(line, kind, note.as_slice()) {
        if spans.len() < 4 {
            return Err(AnnotationError::Malformed { line: number });
        }
        let (pitch_from, pitch_to) = spans[2];
        let pitch = match parse_pitch(line, pitch_from, pitch_to) {
            None => {
                return Err(AnnotationError::Pitch { line: number });
            },
            Some(pitch) => pitch,
        };
        let (end_from, end_to) = spans[3];
        let offset = match parse_seconds(line, end_from, end_to) {
            None => {
                return Err(AnnotationError::Timestamp { line: number });
            },
            Some(nanos) => nanos,
        };
        if spans.len() > 4 {
            return Err(AnnotationError::Malformed { line: number });
        }
        return Ok(
            Entry::Note(Note { pitch, onset: from_total_nanos(at), offset: from_total_nanos(offset) }),
        );
    }
    Err(AnnotationError::EntryKind { line: number })
}

/// The positions among `beats` that begin a bar, or every one of them where
/// `only_downbeats` is false, in the order they fall.
pub open spec fn positions_of(beats: Seq<(int, bool)>, only_downbeats: bool) -> Seq<int>
    decreases beats.len(),
{
    if beats.len() == 0 {
        Seq::empty()
    } else {
        let earlier = positions_of(beats.drop_last(), only_downbeats);
        if beats.last().1 || !only_downbeats {
            earlier.push(beats.last().0)
        } else {
            earlier
        }
    }
}

/// The positions among `beats` a run is measured against: every beat, or only
/// those that begin a bar.
pub fn positions_among(beats: &[Beat], only_downbeats: bool) -> (positions: Vec<Duration>)
    ensures
        scoring::nanos_seq(positions@) == positions_of(beats_view(beats@), only_downbeats),
{
    let mut positions: Vec<Duration> = Vec::new();
    let mut index: usize = 0;
    while index < beats.len()
        invariant
            index <= beats@.len(),
            scoring::nanos_seq(positions@) == positions_of(
                beats_view(beats@).take(index as int),
                only_downbeats,
            ),
        decreases beats@.len() - index,
    {
        assert(beats_view(beats@).take(index as int + 1).drop_last() =~= beats_view(beats@).take(
            index as int,
        ));
        let beat = beats[index];
        if beat.is_downbeat || !only_downbeats {
            let ghost before = positions@;
            positions.push(beat.at);
            assert(scoring::nanos_seq(positions@) =~= scoring::nanos_seq(before).push(
                duration_nanos(beat.at) as int,
            ));
        }
        index = index + 1;
    }
    assert(beats_view(beats@).take(beats@.len() as int) =~= beats_view(beats@));
    positions
}

impl Annotation {
    /// How long the take runs: from its start to the last beat annotated in it.
    ///
    /// The audio may carry on past that beat, so this is at or under the true
    /// length, which is the safe direction for a deadline taken as a share of
    /// it.
    pub fn span(&self) -> (span: Duration)
        ensures
            duration_nanos(span) == if self@.0.len() > 0 { self@.0.last().0 } else { 0 },
    {
        let count = self.beats.len();
        if count == 0 {
            crate::time::zero()
        } else {
            self.beats[count - 1].at
        }
    }

    /// Where each bar begins.
    pub fn downbeats(&self) -> (downbeats: Vec<Duration>)
        ensures
            scoring::nanos_seq(downbeats@) == positions_of(self@.0, true),
    {
        positions_among(self.beats.as_slice(), true)
    }

    /// Every annotated beat, in the order they fall.
    pub fn beats(&self) -> (beats: &[Beat])
        ensures
            beats_view(beats@) == self@.0,
    {
        self.beats.as_slice()
    }

    /// Every annotated chord, in the order they sound, each spanning up to the
    /// one after it.
    pub fn chords(&self) -> (chords: &[Chord])
        ensures
            chords_view(chords@) == self@.1,
    {
        self.chords.as_slice()
    }

    /// Every annotated note, in the order they are played.
    pub fn notes(&self) -> (notes: &[Note])
        ensures
            notes_view(notes@) == self@.2,
    {
        self.notes.as_slice()
    }

    /// Read the format described on [`Annotation`].
    ///
    /// # Errors
    ///
    /// Returns [`AnnotationError`] naming the offending line, so that a
    /// mis-annotated fixture is corrected rather than silently scored.
    pub fn parse(text: &str) -> (parsed: Result<Self, AnnotationError>)
        ensures
            match parsed {
                Ok(annotation) => annotation_of(text.spec_bytes()) == Ok::<
                    AnnotationView,
                    AnnotationError,
                >(annotation@),
                Err(error) => annotation_of(text.spec_bytes()) == Err::<
                    AnnotationView,
                    AnnotationError,
                >(error),
            },
            parsed matches Ok(annotation) ==> annotation_wf(annotation@),
    {
        proof {
            lemma_parsed_well_formed(text.spec_bytes());
        }
        let bytes = text.as_bytes();
        let mut beats: Vec<Beat> = Vec::new();
        let mut changes: Vec<Change> = Vec::new();
        let mut notes: Vec<Note> = Vec::new();
        let mut at: usize = 0;
        let mut number: usize = 1;
        assert(beats_view(beats@) =~= Seq::<(int, bool)>::empty());
        assert(changes_view(changes@) =~= Seq::<(int, ChordLabel)>::empty());
        assert(notes_view(notes@) =~= Seq::<(u8, int, int)>::empty());
        while at < bytes.len()
            invariant
                bytes@ == text.spec_bytes(),
                at <= bytes@.len(),
                1 <= number <= at + 1,
                read_from(bytes@, 0, 1, nothing_read()) == read_from(
                    bytes@,
                    at as int,
                    number as int,
                    read_view(beats@, changes@, notes@),
                ),
            decreases bytes@.len() - at,
        {
            let ghost read = read_view(beats@, changes@, notes@);
            let end = find_line_end(bytes, at);
            let line = &bytes[at..end];
            assert(line@ =~= bytes@.subrange(at as int, end as int));
            let spans = split_fields(line);
            let ghost words = fields(line@);
            let blank = spans.len() == 0 || (spans[0].0 < spans[0].1 && line[spans[0].0] == HASH);
            proof {
                if spans@.len() > 0 {
                    assert(line@.subrange(spans@[0].0 as int, spans@[0].1 as int) == words[0]);
                    if spans@[0].0 < spans@[0].1 {
                        assert(words[0][0] == line@[spans@[0].0 as int]);
                    }
                }
            }
            assert(blank == is_blank(words));
            if !blank {
                let entry = parse_entry(line, &spans, number);
                match entry {
                    Err(error) => {
                        assert(read_from(bytes@, at as int, number as int, read) == Err::<
                            Read,
                            AnnotationError,
                        >(error));
                        return Err(error);
                    },
                    Ok(found) => {
                        let absorbed = absorb_entry(&mut beats, &mut changes, &mut notes, found, number);
                        match absorbed {
                            Err(error) => {
                                assert(read_from(bytes@, at as int, number as int, read) == Err::<
                                    Read,
                                    AnnotationError,
                                >(error));
                                return Err(error);
                            },
                            Ok(()) => {},
                        }
                    },
                }
            }
            if end >= bytes.len() || end + 1 >= bytes.len() {
                assert(read_from(bytes@, end + 1, number + 1, read_view(beats@, changes@, notes@)) == Ok::<Read, AnnotationError>(read_view(beats@, changes@, notes@)));
                at = bytes.len();
            } else {
                at = end + 1;
                number = number + 1;
            }
        }
        let ghost read = read_view(beats@, changes@, notes@);
        assert(read_from(bytes@, 0, 1, nothing_read()) == Ok::<Read, AnnotationError>(read));
        if beats.len() == 0 {
            return Err(AnnotationError::Empty);
        }
        let mut index: usize = 0;
        let mut downbeat = false;
        while index < beats.len()
            invariant
                index <= beats@.len(),
                downbeat == exists|i: int| 0 <= i < index && #[trigger] beats@[i].is_downbeat,
            decreases beats@.len() - index,
        {
            if beats[index].is_downbeat {
                downbeat = true;
            }
            index = index + 1;
        }
        if !downbeat {
            assert(!(exists|i: int| 0 <= i < read.0.len() && #[trigger] read.0[i].1)) by {
                if exists|i: int| 0 <= i < read.0.len() && #[trigger] read.0[i].1 {
                    let i = choose|i: int| 0 <= i < read.0.len() && #[trigger] read.0[i].1;
                    assert(beats@[i].is_downbeat);
                }
            }
            return Err(AnnotationError::NoDownbeats);
        }
        assert(exists|i: int| 0 <= i < read.0.len() && #[trigger] read.0[i].1) by {
            let i = choose|i: int| 0 <= i < index && #[trigger] beats@[i].is_downbeat;
            assert(read.0[i].1);
        }
        let count = changes.len();
        if count > 0 && changes[count - 1].label != ChordLabel::Silent {
            return Err(AnnotationError::UnterminatedChords);
        }
        let mut chords: Vec<Chord> = Vec::new();
        let mut index: usize = 1;
        while index < count
            invariant
                1 <= index,
                count == changes@.len(),
                count > 0 ==> index <= count,
                count == 0 ==> index == 1,
                chords@.len() == index - 1,
                forall|i: int|
                    0 <= i < chords@.len() ==> #[trigger] chord_view(chords@[i]) == (
                        changes@[i].label,
                        duration_nanos(changes@[i].at) as int,
                        duration_nanos(changes@[i + 1].at) as int,
                    ),
            decreases count - index,
        {
            chords.push(
                Chord { label: changes[index - 1].label, from: changes[index - 1].at, to: changes[index].at },
            );
            index = index + 1;
        }
        let ghost read = read_view(beats@, changes@, notes@);
        let ghost drawn = chords_view(chords@);
        assert forall|i: int| 0 <= i < chords@.len() implies #[trigger] drawn[i] == spans_of(
            read.1,
        )[i] by {
            assert(read.1[i] == change_view(changes@[i]));
            assert(read.1[i + 1] == change_view(changes@[i + 1]));
            assert(chord_view(chords@[i]) == (
                changes@[i].label,
                duration_nanos(changes@[i].at) as int,
                duration_nanos(changes@[i + 1].at) as int,
            ));
        }
        assert(drawn =~= spans_of(read.1));
        let parsed = Self { beats, chords, notes };
        Ok(parsed)
    }
}

impl std::str::FromStr for Annotation {
    type Err = AnnotationError;

    /// Read the format described on [`Annotation`], as
    /// [`parse`](Annotation::parse) does.
    fn from_str(text: &str) -> (parsed: Result<Self, AnnotationError>)
        ensures
            match parsed {
                Ok(annotation) => annotation_of(text.spec_bytes()) == Ok::<
                    AnnotationView,
                    AnnotationError,
                >(annotation@),
                Err(error) => annotation_of(text.spec_bytes()) == Err::<
                    AnnotationView,
                    AnnotationError,
                >(error),
            },
            parsed matches Ok(annotation) ==> annotation_wf(annotation@),
    {
        Self::parse(text)
    }
}

fn absorb_entry(
    beats: &mut Vec<Beat>,
    changes: &mut Vec<Change>,
    notes: &mut Vec<Note>,
    found: Entry,
    number: usize,
) -> (absorbed: Result<(), AnnotationError>)
    ensures
        ({
            let before = read_view(old(beats)@, old(changes)@, old(notes)@);
            let after = read_view(final(beats)@, final(changes)@, final(notes)@);
            match absorbed {
                Ok(()) => absorb(before, entry_view(found), number) == Ok::<Read, AnnotationError>(
                    after,
                ),
                Err(error) => absorb(before, entry_view(found), number) == Err::<
                    Read,
                    AnnotationError,
                >(error),
            }
        }),
{
    match found {
        Entry::Beat(beat) => {
            let count = beats.len();
            if count > 0 && nanos_of(beat.at) <= nanos_of(beats[count - 1].at) {
                return Err(AnnotationError::OutOfOrder { line: number });
            }
            let ghost before = beats@;
            beats.push(beat);
            assert(beats_view(beats@) =~= beats_view(before).push(beat_view(beat)));
            Ok(())
        },
        Entry::Change(change) => {
            let count = changes.len();
            if count > 0 && nanos_of(change.at) <= nanos_of(changes[count - 1].at) {
                return Err(AnnotationError::OutOfOrder { line: number });
            }
            let ghost before = changes@;
            let ghost viewed = change_view(change);
            changes.push(change);
            assert(changes_view(changes@) =~= changes_view(before).push(viewed));
            Ok(())
        },
        Entry::Note(note) => {
            let onset = nanos_of(note.onset);
            let offset = nanos_of(note.offset);
            if offset <= onset {
                return Err(AnnotationError::NoteSpan { line: number });
            }
            let count = notes.len();
            if count > 0 {
                let previous = notes[count - 1];
                if onset <= nanos_of(previous.onset) {
                    return Err(AnnotationError::OutOfOrder { line: number });
                }
                if onset < nanos_of(previous.offset) {
                    return Err(AnnotationError::Overlap { line: number });
                }
            }
            let ghost before = notes@;
            notes.push(note);
            assert(notes_view(notes@) =~= notes_view(before).push(note_view(note)));
            Ok(())
        },
    }
}

} // verus!
