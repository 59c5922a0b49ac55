use motif::fixtures::harness::{GroundTruth, Target};
use motif::fixtures::{
    Agreement, Annotation, AnnotationError, Axis, Beat, Chord, ChordLabel, Comparison, Note,
    PitchClass, Quality, Score,
};
use std::time::Duration;

const TWO_BARS: &str = "\
# two bars at 120 BPM
0.0 downbeat
0.5 beat
1.0 beat
1.5 beat
2.0 downbeat
0.0 chord C:maj
2.0 chord N
";

fn label(text: &str) -> ChordLabel {
    ChordLabel::parse(text).expect("a chord label")
}

fn over(text: &str, from: u64, to: u64) -> Chord {
    Chord { label: label(text), from: Duration::from_secs(from), to: Duration::from_secs(to) }
}

fn played(pitch: u8, onset: u64, offset: u64) -> Note {
    Note { pitch, onset: Duration::from_millis(onset), offset: Duration::from_millis(offset) }
}

fn failure(text: &str) -> AnnotationError {
    Annotation::parse(text).err().expect("the annotation is refused")
}

#[test]
fn an_annotation_reads_its_beats_downbeats_and_chords() {
    let annotation = Annotation::parse(TWO_BARS).expect("a well formed annotation");

    assert_eq!(annotation.beats().len(), 5);
    assert_eq!(annotation.downbeats(), [Duration::ZERO, Duration::from_secs(2)]);
    assert_eq!(annotation.chords().len(), 1);
    assert_eq!(annotation.chords()[0].to, Duration::from_secs(2));
    assert_eq!(annotation.chords()[0].label, label("C:maj"));
    assert_eq!(annotation.span(), Duration::from_secs(2));
    assert!(annotation.notes().is_empty());
}

#[test]
fn an_annotation_parses_through_from_str_too() {
    let annotation: Annotation = TWO_BARS.parse().expect("a well formed annotation");

    assert_eq!(annotation, Annotation::parse(TWO_BARS).expect("a well formed annotation"));
}

#[test]
fn an_annotation_reads_decimal_seconds_to_the_nanosecond() {
    let annotation =
        Annotation::parse("0.000000001 downbeat\n1.25 beat\n.5 note 60 0.75\n").expect("well formed");

    assert_eq!(annotation.beats()[0].at, Duration::from_nanos(1));
    assert_eq!(annotation.beats()[1].at, Duration::from_millis(1_250));
    assert_eq!(annotation.notes(), [played(60, 500, 750)]);
}

#[test]
fn a_target_measures_every_beat_or_only_the_downbeats() {
    let annotation = Annotation::parse("0.0 downbeat\n0.5 beat\n1.0 downbeat\n").expect("well formed");

    assert_eq!(Target::Beats.positions(&annotation).len(), 3);
    assert_eq!(Target::Downbeats.positions(&annotation).len(), 2);
    assert_eq!(
        Target::Downbeats.among(annotation.beats()),
        [Duration::ZERO, Duration::from_secs(1)]
    );
}

#[test]
fn ground_truth_carries_its_name_and_annotation() {
    let annotation = Annotation::parse(TWO_BARS).expect("well formed");
    let truth = GroundTruth::new("two-bars".to_owned(), annotation.clone());

    assert_eq!(truth.name(), "two-bars");
    assert_eq!(truth.annotation(), &annotation);
}

#[test]
fn a_line_with_too_few_fields_is_malformed() {
    assert_eq!(failure("0.0 downbeat\n0.5\n"), AnnotationError::Malformed { line: 2 });
    assert_eq!(failure("0.0 downbeat\n0.5 beat extra\n"), AnnotationError::Malformed { line: 2 });
    assert_eq!(failure("0.0 downbeat\n0.5 chord\n"), AnnotationError::Malformed { line: 2 });
    assert_eq!(failure("0.0 downbeat\n0.5 note 60\n"), AnnotationError::Malformed { line: 2 });
}

#[test]
fn a_timestamp_that_is_not_seconds_is_refused() {
    assert_eq!(failure("soon downbeat\n"), AnnotationError::Timestamp { line: 1 });
    assert_eq!(failure("-1.0 downbeat\n"), AnnotationError::Timestamp { line: 1 });
}

#[test]
fn an_unknown_entry_kind_is_refused() {
    assert_eq!(failure("# header\n0.0 clap\n"), AnnotationError::EntryKind { line: 2 });
}

#[test]
fn a_chord_outside_the_vocabulary_is_refused() {
    assert_eq!(failure("0.0 downbeat\n0.0 chord F#:sus4\n"), AnnotationError::ChordLabel { line: 2 });
}

#[test]
fn a_pitch_past_the_midi_range_is_refused() {
    assert_eq!(failure("0.0 downbeat\n0.0 note 128 1.0\n"), AnnotationError::Pitch { line: 2 });
}

#[test]
fn a_note_must_end_after_it_starts() {
    assert_eq!(failure("0.0 downbeat\n1.0 note 60 1.0\n"), AnnotationError::NoteSpan { line: 2 });
}

#[test]
fn notes_may_not_overlap() {
    assert_eq!(
        failure("0.0 downbeat\n0.0 note 60 1.0\n0.5 note 62 1.5\n"),
        AnnotationError::Overlap { line: 3 }
    );
}

#[test]
fn timestamps_must_increase_within_a_kind() {
    assert_eq!(failure("1.0 downbeat\n0.5 beat\n"), AnnotationError::OutOfOrder { line: 2 });
    assert_eq!(
        failure("0.0 downbeat\n1.0 chord C:maj\n1.0 chord N\n"),
        AnnotationError::OutOfOrder { line: 3 }
    );
}

#[test]
fn an_annotation_without_beats_or_downbeats_is_refused() {
    assert_eq!(failure("# nothing\n\n"), AnnotationError::Empty);
    assert_eq!(failure("0.0 beat\n0.5 beat\n"), AnnotationError::NoDownbeats);
    assert_eq!(AnnotationError::Empty.line(), None);
    assert_eq!(AnnotationError::Pitch { line: 4 }.line(), Some(4));
}

#[test]
fn chords_must_end_with_silence() {
    assert_eq!(failure("0.0 downbeat\n0.0 chord C:maj\n"), AnnotationError::UnterminatedChords);
}

#[test]
fn a_chord_label_reads_back_as_it_was_spelled() {
    let minor_seventh = label("F#:min7");

    assert_eq!(String::from_utf8(minor_seventh.spelled()).expect("ascii"), "F#:min7");
    assert_eq!(ChordLabel::parse("F#:sus4"), None);
    assert_eq!(ChordLabel::parse("N"), Some(ChordLabel::Silent));
    assert_eq!(ChordLabel::Silent.spelled(), b"N");
    assert_eq!(
        label("A#:7"),
        ChordLabel::Sounding(PitchClass::from_semitone(10), Quality::Dom7)
    );
    assert_eq!(ChordLabel::parse("E#:maj"), None);
    assert_eq!(ChordLabel::from_bytes(b"G:aug"), Some(label("G:aug")));
}

#[test]
fn a_pitch_class_wraps_at_the_octave() {
    assert_eq!(PitchClass::from_semitone(14).semitone(), 2);
    assert_eq!(PitchClass::from_semitone(11).semitone(), 11);
}

#[test]
fn chords_agree_at_a_level_of_detail() {
    let annotated = label("C:maj7");
    let detected = label("C:min");

    assert!(Comparison::Root.agree(annotated, detected));
    assert!(!Comparison::Thirds.agree(annotated, detected));
    assert!(!Comparison::Root.agree(ChordLabel::Silent, detected));
    assert!(Comparison::Sevenths.agree(ChordLabel::Silent, ChordLabel::Silent));
}

#[test]
fn agreement_is_the_time_the_two_agree_over() {
    let annotated = [over("C:maj", 0, 3), over("A:min", 3, 4)];
    let detected = [over("C:maj", 0, 3), over("F:maj", 3, 4)];

    let agreement = Agreement::of(&annotated, &detected, Comparison::Root);

    assert_eq!(agreement.agreed(), Duration::from_secs(3));
    assert_eq!(agreement.total(), Duration::from_secs(4));
}

#[test]
fn candidates_laid_over_each_other_score_no_more_than_the_span() {
    let annotated = [over("C:maj", 0, 2)];
    let detected = [over("C:maj", 0, 2), over("C:maj", 0, 2)];

    let agreement = Agreement::of(&annotated, &detected, Comparison::Root);

    assert_eq!(agreement.agreed(), Duration::from_secs(2));
    assert!(agreement.agreed() <= agreement.total());
}

#[test]
fn a_hit_is_a_candidate_within_the_tolerance() {
    let annotated = [Duration::ZERO, Duration::from_millis(500)];
    let detected = [Duration::from_millis(20), Duration::from_millis(800)];

    let score = Score::of(&annotated, &detected);

    assert_eq!(score.hits(), 1);
    assert_eq!(score.annotated(), 2);
    assert_eq!(score.detected(), 2);
}

#[test]
fn a_candidate_is_matched_only_once() {
    let annotated = [Duration::ZERO, Duration::from_millis(10)];
    let detected = [Duration::from_millis(5)];

    let score = Score::of(&annotated, &detected);

    assert_eq!(score.hits(), 1);
    assert!(score.hits() <= score.detected());
}

#[test]
fn a_double_rate_candidate_scores_no_more_hits_than_annotated() {
    let annotated = [Duration::ZERO, Duration::from_secs(1)];
    let detected: Vec<Duration> = (0..4).map(|beat| Duration::from_millis(beat * 500)).collect();

    let score = Score::of(&annotated, &detected);

    assert_eq!(score.hits(), 2);
    assert!(score.hits() <= score.annotated());
}

#[test]
fn the_tolerance_is_seventy_milliseconds_either_side() {
    let annotated = [Duration::from_millis(100)];

    assert_eq!(Score::of(&annotated, &[Duration::from_millis(170)]).hits(), 1);
    assert_eq!(Score::of(&annotated, &[Duration::from_millis(171)]).hits(), 0);
    assert_eq!(Score::of(&annotated, &[Duration::from_millis(30)]).hits(), 1);
}

#[test]
fn a_note_hits_only_where_pitch_onset_and_offset_agree() {
    let annotated = [played(60, 0, 400)];

    assert_eq!(Score::of_notes(&annotated, &[played(60, 20, 420)]).hits(), 1);
    assert_eq!(Score::of_notes(&annotated, &[played(61, 0, 400)]).hits(), 0);
    assert_eq!(Score::of_notes(&annotated, &[played(60, 60, 400)]).hits(), 0);
    assert_eq!(Score::of_notes(&annotated, &[played(60, 0, 480)]).hits(), 1);
    assert_eq!(Score::of_notes(&annotated, &[played(60, 0, 481)]).hits(), 0);
}

#[test]
fn each_axis_is_named_for_its_band() {
    assert_eq!(Axis::Tempo.named(), "tempo");
    assert_eq!(Axis::Syncopation.named(), "syncopation");
    assert_eq!(Axis::ALL.len(), 7);
}

#[test]
fn a_beat_knows_whether_it_begins_a_bar() {
    let beat = Beat { at: Duration::from_secs(1), is_downbeat: true };

    assert!(beat.is_downbeat);
}

#[test]
fn overlapping_candidates_count_the_time_they_share_once() {
    let annotated = [over("C:maj", 0, 4)];
    let detected = [over("C:maj", 0, 2), over("C:maj", 0, 2)];

    let agreement = Agreement::of(&annotated, &detected, Comparison::Root);

    assert_eq!(agreement.agreed(), Duration::from_secs(2));
    assert_eq!(agreement.total(), Duration::from_secs(4));
}

#[test]
fn agreeing_candidates_with_a_gap_are_credited_for_what_they_cover() {
    let annotated = [over("C:maj", 0, 10)];
    let detected = [over("C:maj", 1, 3), over("A:min", 3, 5), over("C:maj", 2, 4), over("C:maj", 6, 12)];

    let agreement = Agreement::of(&annotated, &detected, Comparison::Root);

    assert_eq!(agreement.agreed(), Duration::from_secs(7));
}

#[test]
fn a_parsed_annotation_is_in_order_end_to_end_and_monophonic() {
    let text = "\
0.0 downbeat
0.5 beat
1.0 beat
0.0 chord C:maj
0.75 chord A:min
1.5 chord N
0.1 note 60 0.3
0.3 note 62 0.9
1.0 note 127 1.2
";
    let annotation = Annotation::parse(text).expect("well formed");
    let beats = annotation.beats();
    assert!(!beats.is_empty());
    assert!(beats.iter().any(|beat| beat.is_downbeat));
    assert!(beats.windows(2).all(|pair| pair[0].at < pair[1].at));
    let chords = annotation.chords();
    assert_eq!(chords.len(), 2);
    assert!(chords.iter().all(|chord| chord.from < chord.to));
    assert!(chords.windows(2).all(|pair| pair[0].to == pair[1].from));
    let notes = annotation.notes();
    assert_eq!(notes.len(), 3);
    assert!(notes.iter().all(|note| note.onset < note.offset && note.pitch <= 127));
    assert!(notes.windows(2).all(|pair| pair[0].offset <= pair[1].onset && pair[0].onset < pair[1].onset));
}

#[test]
fn a_timestamp_may_carry_a_plus_sign() {
    let annotation = Annotation::parse("+0.5 downbeat\n+1 beat\n").expect("well formed");

    assert_eq!(annotation.beats()[0].at, Duration::from_millis(500));
    assert_eq!(annotation.beats()[1].at, Duration::from_secs(1));
    assert_eq!(failure("+ downbeat\n"), AnnotationError::Timestamp { line: 1 });
    assert_eq!(failure("++1 downbeat\n"), AnnotationError::Timestamp { line: 1 });
}

#[test]
fn fields_are_separated_by_unicode_white_space() {
    let text = "0.0\u{a0}downbeat\n\u{3000}0.5\u{2003}beat\u{2028}\n\u{85}\n\u{1680}# a comment\n";
    let annotation = Annotation::parse(text).expect("well formed");

    assert_eq!(annotation.beats().len(), 2);
    assert!(annotation.beats()[0].is_downbeat);
    assert_eq!(annotation.beats()[1].at, Duration::from_millis(500));
    assert_eq!(failure("0.0 downbeat \u{e9}\n"), AnnotationError::Malformed { line: 1 });
    assert_eq!(failure("0.0\u{200b}downbeat\n"), AnnotationError::Malformed { line: 1 });
}

#[test]
fn a_greedy_match_scores_at_or_below_the_best_pairing() {
    let annotated = [Duration::from_millis(50), Duration::from_millis(120)];
    let detected = [Duration::from_millis(100), Duration::ZERO];

    let score = Score::of(&annotated, &detected);

    // Pairing 50 ms with 0 ms and 120 ms with 100 ms would hit both; the first
    // annotated position takes the earlier of two equally near candidates.
    assert_eq!(score.hits(), 1);
    assert!(score.hits() <= 2);
}

fn downbeat_at(timestamp: &str) -> Duration {
    Annotation::parse(&format!("{timestamp} downbeat\n")).expect("well formed").beats()[0].at
}

#[test]
fn a_timestamp_may_be_scaled_by_a_power_of_ten() {
    assert_eq!(downbeat_at("1e0"), Duration::from_secs(1));
    assert_eq!(downbeat_at("2.5E-1"), Duration::from_millis(250));
    assert_eq!(downbeat_at("+1.5e+1"), Duration::from_secs(15));
    assert_eq!(downbeat_at("0.0000000001e9"), Duration::from_millis(100));
    assert_eq!(downbeat_at("1e-10"), Duration::ZERO);
    assert_eq!(downbeat_at("0e99999999999999999999999999999"), Duration::ZERO);
    assert_eq!(downbeat_at("7e-99999999999999999999999999999"), Duration::ZERO);
    assert_eq!(downbeat_at(".5e1"), Duration::from_secs(5));
    assert_eq!(downbeat_at("3.e2"), Duration::from_secs(300));
}

#[test]
fn a_malformed_or_overlong_scaled_timestamp_is_refused() {
    for timestamp in ["1e", "e5", "1e5.0", "1e+", "1e--1", ".e1", "1e99", "18446744073709551616e0", "1e1e1"] {
        assert_eq!(
            failure(&format!("{timestamp} downbeat\n")),
            AnnotationError::Timestamp { line: 1 },
            "{timestamp}"
        );
    }
}

#[test]
fn a_zero_exponent_reads_as_no_exponent() {
    for timestamp in ["1.5", "0.1234567891", "42", ".000000001", "7."] {
        assert_eq!(downbeat_at(&format!("{timestamp}e0")), downbeat_at(timestamp), "{timestamp}");
    }
}

#[test]
fn a_timestamp_rounds_to_the_nearest_nanosecond() {
    assert_eq!(downbeat_at("0.0000000009"), Duration::from_nanos(1));
    assert_eq!(downbeat_at("0.0000000014999"), Duration::from_nanos(1));
    assert_eq!(downbeat_at("0.00000000150001"), Duration::from_nanos(2));
    assert_eq!(downbeat_at("1.9999999996"), Duration::from_secs(2));
    assert_eq!(downbeat_at("9e-10"), Duration::from_nanos(1));
    assert_eq!(downbeat_at("4e-10"), Duration::ZERO);
    assert_eq!(downbeat_at("123456789012e-20"), Duration::from_nanos(1));
    // A tie goes to the even nanosecond, as it does for a binary fraction
    // such as 1/1024 s, which sits exactly between two.
    assert_eq!(downbeat_at("0.0009765625"), Duration::from_nanos(976_562));
    assert_eq!(downbeat_at("0.0000000015"), Duration::from_nanos(2));
    assert_eq!(downbeat_at("0.0000000025"), Duration::from_nanos(2));
    assert_eq!(downbeat_at("5e-10"), Duration::ZERO);
}
