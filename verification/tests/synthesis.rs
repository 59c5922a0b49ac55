use motif::analysis::{chord_spans, hop_of, take_end};
use motif::fixtures::synth::{
    a_monophonic_line, bars, detached, frame_time, lasting, one_chord_per_bar, past_the_end,
    percussive, pick, seed_of, sounding, struck_under, unsigned, voicing, wav_bytes, Noise, Onset,
    Voice, SAMPLE_RATE,
};
use motif::fixtures::{Beat, Chord, ChordLabel, PitchClass, Quality};
use motif::looper::{bucket_width, covered, BUCKETS};
use std::time::Duration;

fn at_millis(millis: &[u64], bar: usize) -> Vec<Beat> {
    millis
        .iter()
        .enumerate()
        .map(|(index, at)| Beat { at: Duration::from_millis(*at), is_downbeat: index % bar == 0 })
        .collect()
}

fn sounding_chord(root: u8, quality: Quality, from: u64, to: u64) -> Chord {
    Chord {
        label: ChordLabel::Sounding(PitchClass::from_semitone(root), quality),
        from: Duration::from_millis(from),
        to: Duration::from_millis(to),
    }
}

#[test]
fn noise_steps_as_a_xorshift_and_seeds_odd() {
    let mut noise = Noise::seeded(0);
    let mut expected: u32 = 1;
    for _ in 0..4 {
        expected ^= expected << 13;
        expected ^= expected >> 17;
        expected ^= expected << 5;
        assert_eq!(noise.step(), expected);
    }
    assert_eq!(Noise::seeded(0).step(), 270_369);
}

#[test]
fn noise_picks_below_the_bound() {
    let mut noise = Noise::seeded(7);
    for _ in 0..100 {
        assert!(noise.below(3) < 3);
    }
    let levels = [10, 20, 30];
    let mut draw = Noise::seeded(1);
    let picked = *pick(&levels, &mut draw);
    assert_eq!(picked, levels[270_369 % 3]);
}

#[test]
fn a_seed_is_the_fnv_hash_of_the_name() {
    assert_eq!(seed_of(""), 2_166_136_261);
    assert_eq!(seed_of("a"), 0xe40c_292c);
    assert_ne!(seed_of("steady-90-4-4"), seed_of("steady-120-4-4"));
}

#[test]
fn a_signed_sample_is_moved_to_the_middle_of_a_byte() {
    assert_eq!(unsigned(0), 128);
    assert_eq!(unsigned(-128), 0);
    assert_eq!(unsigned(127), 255);
    assert_eq!(unsigned(-1), 127);
}

#[test]
fn a_wav_file_carries_its_header_and_its_samples() {
    let wav = wav_bytes(&[0, -128, 127]);

    assert_eq!(wav.len(), 47);
    assert_eq!(&wav[0..4], b"RIFF");
    assert_eq!(&wav[4..8], &39u32.to_le_bytes());
    assert_eq!(&wav[8..16], b"WAVEfmt ");
    assert_eq!(&wav[16..20], &16u32.to_le_bytes());
    assert_eq!(&wav[20..22], &1u16.to_le_bytes());
    assert_eq!(&wav[22..24], &1u16.to_le_bytes());
    assert_eq!(&wav[24..28], &SAMPLE_RATE.to_le_bytes());
    assert_eq!(&wav[28..32], &SAMPLE_RATE.to_le_bytes());
    assert_eq!(&wav[32..34], &1u16.to_le_bytes());
    assert_eq!(&wav[34..36], &8u16.to_le_bytes());
    assert_eq!(&wav[36..40], b"data");
    assert_eq!(&wav[40..44], &3u32.to_le_bytes());
    assert_eq!(&wav[44..], &[128, 0, 255]);
}

#[test]
fn each_beat_lasts_until_the_next_and_the_last_as_long_as_the_one_before() {
    let beats = at_millis(&[0, 500, 1200], 4);

    assert_eq!(
        lasting(&beats),
        [Duration::from_millis(500), Duration::from_millis(700), Duration::from_millis(700)]
    );
    assert!(lasting(&beats[..1]).is_empty());
    assert_eq!(past_the_end(&beats), Some(Duration::from_millis(1900)));
    assert_eq!(past_the_end(&beats[..1]), None);
}

#[test]
fn a_tone_is_let_go_a_tenth_of_its_beat_early() {
    assert_eq!(
        detached(Duration::from_millis(1000), Duration::from_millis(500)),
        Duration::from_millis(1450)
    );
}

#[test]
fn bars_run_from_downbeat_to_downbeat_and_the_last_to_the_end() {
    let beats = at_millis(&[0, 500, 1000, 1500, 2000, 2500], 2);

    assert_eq!(
        bars(&beats),
        [
            (Duration::from_millis(0), Duration::from_millis(1000)),
            (Duration::from_millis(1000), Duration::from_millis(2000)),
            (Duration::from_millis(2000), Duration::from_millis(3000)),
        ]
    );
}

#[test]
fn a_chord_is_struck_on_the_beats_inside_its_span() {
    let chord = sounding_chord(0, Quality::Maj, 1000, 2000);
    let beat = |at: u64| Beat { at: Duration::from_millis(at), is_downbeat: false };

    assert!(struck_under(&chord, &beat(1000)));
    assert!(struck_under(&chord, &beat(1999)));
    assert!(!struck_under(&chord, &beat(2000)));
    assert!(!struck_under(&chord, &beat(999)));
}

#[test]
fn a_chord_is_voiced_from_middle_c() {
    assert_eq!(voicing(&sounding_chord(0, Quality::Maj, 0, 1)), [60, 64, 67]);
    assert_eq!(voicing(&sounding_chord(9, Quality::Min, 0, 1)), [69, 72, 76]);
    assert_eq!(voicing(&sounding_chord(7, Quality::Dom7, 0, 1)), [67, 71, 74, 77]);
    let silent = Chord { label: ChordLabel::Silent, from: Duration::ZERO, to: Duration::ZERO };
    assert!(voicing(&silent).is_empty());
}

#[test]
fn an_onset_sounds_for_its_tail_or_until_its_release() {
    let tick = Onset { at: Duration::from_millis(100), voice: Voice::Tick };
    let tone = Onset {
        at: Duration::from_millis(100),
        voice: Voice::Tone { pitch: 60, until: Duration::from_millis(400) },
    };

    assert_eq!(sounding(&tick), Duration::from_millis(300));
    assert_eq!(sounding(&tone), Duration::from_millis(360));
}

#[test]
fn the_progression_is_a_chord_to_a_bar_struck_on_every_beat() {
    let beats = at_millis(&[0, 500, 1000, 1500], 2);
    let content = one_chord_per_bar(&beats);

    assert_eq!(
        content.chords,
        [sounding_chord(0, Quality::Maj, 0, 1000), sounding_chord(9, Quality::Min, 1000, 2000)]
    );
    assert!(content.notes.is_empty());
    assert_eq!(content.onsets.len(), 12);
    assert_eq!(
        content.onsets[0],
        Onset {
            at: Duration::ZERO,
            voice: Voice::Tone { pitch: 60, until: Duration::from_millis(450) },
        }
    );
    assert_eq!(
        content.onsets[11],
        Onset {
            at: Duration::from_millis(1500),
            voice: Voice::Tone { pitch: 76, until: Duration::from_millis(1950) },
        }
    );
}

#[test]
fn the_line_plays_as_much_as_the_beats_have_room_for() {
    let beats = at_millis(&[0, 500, 1000, 1500], 4);
    let content = one_line(&beats);

    assert_eq!(content.len(), 3);
    assert_eq!(content[0], (60, Duration::ZERO, Duration::from_millis(450)));
    assert_eq!(content[2], (64, Duration::from_millis(1000), Duration::from_millis(1900)));
}

fn one_line(beats: &[Beat]) -> Vec<(u8, Duration, Duration)> {
    let content = a_monophonic_line(beats);
    assert!(content.chords.is_empty());
    assert_eq!(content.onsets.len(), content.notes.len());
    content.notes.iter().map(|note| (note.pitch, note.onset, note.offset)).collect()
}

#[test]
fn percussion_names_no_chord_or_note() {
    let onsets = vec![Onset { at: Duration::ZERO, voice: Voice::Accent }];
    let content = percussive(onsets.clone());

    assert_eq!(content.onsets, onsets);
    assert!(content.chords.is_empty() && content.notes.is_empty());
}

#[test]
fn a_frame_falls_on_the_sample_grid() {
    assert_eq!(frame_time(0), Duration::ZERO);
    assert_eq!(frame_time(8_000), Duration::from_secs(1));
    assert_eq!(frame_time(12_001), Duration::new(1, 500_125_000));
}

#[test]
fn chords_change_only_where_the_label_does() {
    let c = ChordLabel::Sounding(PitchClass::from_semitone(0), Quality::Maj);
    let a = ChordLabel::Sounding(PitchClass::from_semitone(9), Quality::Min);
    let beats: Vec<Duration> = [0, 500, 1000, 1500].iter().map(|at| Duration::from_millis(*at)).collect();

    let chords = chord_spans(&[c, c, a, a], &beats, Duration::from_millis(2000));

    assert_eq!(
        chords,
        [
            Chord { label: c, from: Duration::ZERO, to: Duration::from_millis(1000) },
            Chord { label: a, from: Duration::from_millis(1000), to: Duration::from_millis(2000) },
        ]
    );
    assert!(chord_spans(&[], &beats, Duration::ZERO).is_empty());
}

#[test]
fn a_take_ends_where_the_audio_does_or_at_its_last_beat() {
    assert_eq!(take_end(8_000, 8_000, &[]), Duration::from_secs(1));
    assert_eq!(take_end(8_000, 8_000, &[Duration::from_secs(3)]), Duration::from_secs(3));
    assert_eq!(take_end(16_000, 8_000, &[Duration::from_secs(1)]), Duration::from_secs(2));
}

#[test]
fn a_bucket_widens_to_the_next_power_of_two_that_covers_the_loop() {
    assert_eq!(bucket_width(0), 1);
    assert_eq!(bucket_width(BUCKETS), 1);
    assert_eq!(bucket_width(BUCKETS + 1), 2);
    assert_eq!(bucket_width(BUCKETS * 5), 8);
    assert_eq!(covered(1, BUCKETS, 64), (2, 4));
    assert_eq!(covered(0, 3, 2), (0, 1));
}

#[test]
fn a_hop_is_its_frames_in_nanoseconds_and_never_nothing() {
    assert_eq!(hop_of(192, 48_000), Duration::from_millis(4));
    assert_eq!(hop_of(1, 4_000_000_000), Duration::from_nanos(1));
    assert_eq!(hop_of(3, 44_100), Duration::from_nanos(68_027));
}
