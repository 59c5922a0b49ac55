//! The sounds a synthetic fixture is built from: when each happens, and what it
//! plays.
//!
//! Rendering them to samples is arithmetic on floating point, and is done
//! where the samples are wanted. What is whole numbers stays here: the noise
//! a render draws from and the seed it starts at, which tones a chord is
//! voiced with, how long each beat lasts and where each bar runs, and the
//! bytes a rendered fixture is written out as.

use std::time::Duration;
use vstd::prelude::*;
use vstd::string::StringSliceAdditionalSpecFns;

use crate::analysis::{divide, divided_nanos};
use crate::fixtures::{Beat, Chord, ChordLabel, Note, PitchClass, Quality};
use crate::time::{duration_nanos, from_nanos, from_total_nanos, max_nanos, nanos_of};

verus! {

/// The sample rate every synthetic fixture is rendered at.
///
/// 8 kHz, the rate Ellis's dynamic-programming beat tracker resamples to before
/// computing its onset envelope.
pub const SAMPLE_RATE: u32 = 8_000;

/// Which of the synthesised sounds an onset plays.
#[derive(Debug, Clone, Copy, PartialEq, Eq)]
pub enum Voice {
    /// A low decaying tone under a short transient, marking the start of a bar.
    Accent,
    /// A short noise burst, marking anything else.
    Tick,
    /// A pitched tone, held until it is released.
    Tone {
        /// Which note it plays, as a MIDI note number.
        pitch: u8,
        /// Where it stops, measured from the start of the audio.
        until: Duration,
    },
}

/// A sound in a fixture: when it happens, and what it plays.
#[derive(Debug, Clone, Copy, PartialEq, Eq)]
pub struct Onset {
    /// Where it falls, measured from the start of the audio.
    pub at: Duration,
    /// The sound it plays.
    pub voice: Voice,
}

/// The bit that moves a signed sample's zero to the middle of a byte.
pub const SIGN_BIT: u8 = 0x80;

/// Where a hash of a name starts.
pub const FNV_OFFSET: u32 = 2_166_136_261;

/// What a hash of a name is multiplied by at each byte.
pub const FNV_PRIME: u32 = 16_777_619;

/// The note the lowest chord root is voiced from, as a MIDI note number.
pub const LOWEST_ROOT: u8 = 60;

/// How long an accent or a tick sounds, in nanoseconds.
pub const TAIL_NANOS: u64 = 300_000_000;

/// How long a tone rings on after it is let go, in nanoseconds.
pub const RELEASE_NANOS: u64 = 60_000_000;

/// The state after one step of a xorshift generator from `state`.
pub open spec fn shifted(state: u32) -> u32 {
    let first = state ^ (state << 13u32);
    let second = first ^ (first >> 17u32);
    second ^ (second << 5u32)
}

/// A reproducible source of noise: a xorshift generator over 32 bits.
///
/// A render seeded from a fixture's name sounds the same on every run, so a
/// fixture can be rendered again rather than checked in.
#[derive(Debug)]
pub struct Noise {
    state: u32,
}

impl Noise {
    /// Where the generator stands.
    pub closed spec fn spec_state(&self) -> u32 {
        self.state
    }

    /// A generator started from `seed`, made odd so it never sticks at zero.
    pub fn seeded(seed: u32) -> (noise: Self)
        ensures
            noise.spec_state() == seed | 1,
    {
        Noise { state: seed | 1 }
    }

    /// Step the generator, and give the number it stepped to.
    pub fn step(&mut self) -> (drawn: u32)
        ensures
            drawn == shifted(old(self).spec_state()),
            final(self).spec_state() == drawn,
    {
        let first = self.state ^ (self.state << 13u32);
        let second = first ^ (first >> 17u32);
        self.state = second ^ (second << 5u32);
        self.state
    }

    /// Step the generator, and give an index below `bound`.
    pub fn below(&mut self, bound: usize) -> (index: usize)
        requires
            bound > 0,
        ensures
            index == (shifted(old(self).spec_state()) as int) % (bound as int),
            final(self).spec_state() == shifted(old(self).spec_state()),
            index < bound,
    {
        let drawn = self.step();
        (drawn as usize) % bound
    }
}

/// The generator never sticks: from any state but zero it steps to another
/// state but zero, so a seeded generator, being odd, never falls silent.
pub proof fn lemma_noise_never_sticks(state: u32)
    requires
        state != 0,
    ensures
        shifted(state) != 0,
{
    assert(state != 0 ==> (state ^ (state << 13u32)) ^ ((state ^ (state << 13u32)) >> 17u32) ^ (((state ^ (
    state << 13u32)) ^ ((state ^ (state << 13u32)) >> 17u32)) << 5u32) != 0) by (bit_vector);
}

/// One of `levels`, picked by the next draw of `draw`.
pub fn pick<'a, T>(levels: &'a [T], draw: &mut Noise) -> (picked: &'a T)
    requires
        levels@.len() > 0,
    ensures
        *picked == levels@[(shifted(old(draw).spec_state()) as int) % (levels@.len() as int)],
        final(draw).spec_state() == shifted(old(draw).spec_state()),
{
    let index = draw.below(levels.len());
    &levels[index]
}

/// The hash of the first `count` bytes of `bytes`: FNV-1a over 32 bits.
pub open spec fn hash_of(bytes: Seq<u8>, count: nat) -> u32
    decreases count,
{
    if count == 0 {
        FNV_OFFSET
    } else {
        (hash_of(bytes, (count - 1) as nat) ^ (bytes[count - 1] as u32)).wrapping_mul(FNV_PRIME)
    }
}

/// The seed a fixture named `name` renders its noise from: the hash of its
/// name's bytes.
pub fn seed_of(name: &str) -> (seed: u32)
    ensures
        seed == hash_of(name.spec_bytes(), name.spec_bytes().len()),
{
    let bytes = name.as_bytes();
    let mut hash = FNV_OFFSET;
    let mut index: usize = 0;
    while index < bytes.len()
        invariant
            bytes@ == name.spec_bytes(),
            index <= bytes@.len(),
            hash == hash_of(bytes@, index as nat),
        decreases bytes@.len() - index,
    {
        hash = (hash ^ (bytes[index] as u32)).wrapping_mul(FNV_PRIME);
        index = index + 1;
    }
    hash
}

/// A signed sample as an unsigned byte: moved up by half the range, so
/// silence sits at the middle.
pub open spec fn unsigned_of(sample: i8) -> u8 {
    (sample + 128) as u8
}

/// A signed sample as the unsigned byte an 8-bit WAV file holds.
pub fn unsigned(sample: i8) -> (byte: u8)
    ensures
        byte == unsigned_of(sample),
{
    assert(((sample as u8) ^ 0x80u8) == ((sample + 128) as u8)) by (bit_vector);
    (sample as u8) ^ SIGN_BIT
}

/// `RIFF`, read as a little-endian word: the tag a RIFF file opens with.
pub const RIFF_TAG: u32 = 0x4646_4952;

/// `WAVE`, read as a little-endian word: the form a RIFF file holds.
pub const WAVE_TAG: u32 = 0x4556_4157;

/// `fmt `, read as a little-endian word: the tag of the format chunk.
pub const FORMAT_TAG: u32 = 0x2074_6d66;

/// `data`, read as a little-endian word: the tag of the samples' chunk.
pub const DATA_TAG: u32 = 0x6174_6164;

/// The four bytes of `value`, least significant first.
pub open spec fn le32(value: u32) -> Seq<u8> {
    seq![
        (value & 0xff) as u8,
        ((value >> 8u32) & 0xff) as u8,
        ((value >> 16u32) & 0xff) as u8,
        ((value >> 24u32) & 0xff) as u8,
    ]
}

/// The two bytes of `value`, least significant first.
pub open spec fn le16(value: u16) -> Seq<u8> {
    seq![(value & 0xff) as u8, ((value >> 8u16) & 0xff) as u8]
}

/// The header of a mono 8-bit WAV file at [`SAMPLE_RATE`] holding `data`
/// bytes of samples: a RIFF chunk whose size counts the rest of the file, a
/// format chunk, and the start of the data chunk.
///
/// The sizes are 32-bit fields, so they are written modulo 2^32.
pub open spec fn wav_header(data: usize) -> Seq<u8> {
    le32(RIFF_TAG) + le32((data as u32).wrapping_add(36)) + le32(WAVE_TAG) + le32(FORMAT_TAG) + le32(16)
        + le16(1) + le16(1) + le32(SAMPLE_RATE) + le32(SAMPLE_RATE) + le16(1) + le16(8) + le32(DATA_TAG)
        + le32(data as u32)
}

fn push_le32(bytes: &mut Vec<u8>, value: u32)
    ensures
        final(bytes)@ == old(bytes)@ + le32(value),
{
    bytes.push((value & 0xff) as u8);
    bytes.push(((value >> 8u32) & 0xff) as u8);
    bytes.push(((value >> 16u32) & 0xff) as u8);
    bytes.push(((value >> 24u32) & 0xff) as u8);
    assert(final(bytes)@ =~= old(bytes)@ + le32(value));
}

fn push_le16(bytes: &mut Vec<u8>, value: u16)
    ensures
        final(bytes)@ == old(bytes)@ + le16(value),
{
    bytes.push((value & 0xff) as u8);
    bytes.push(((value >> 8u16) & 0xff) as u8);
    assert(final(bytes)@ =~= old(bytes)@ + le16(value));
}

/// `samples` written out as a mono 8-bit WAV file at [`SAMPLE_RATE`]: the
/// header, then each sample as an unsigned byte.
pub fn wav_bytes(samples: &[i8]) -> (wav: Vec<u8>)
    ensures
        wav@ == wav_header(samples@.len() as usize) + samples@.map_values(|sample: i8| unsigned_of(sample)),
{
    let data = samples.len();
    let mut wav: Vec<u8> = Vec::new();
    push_le32(&mut wav, RIFF_TAG);
    push_le32(&mut wav, (data as u32).wrapping_add(36));
    push_le32(&mut wav, WAVE_TAG);
    push_le32(&mut wav, FORMAT_TAG);
    push_le32(&mut wav, 16);
    push_le16(&mut wav, 1);
    push_le16(&mut wav, 1);
    push_le32(&mut wav, SAMPLE_RATE);
    push_le32(&mut wav, SAMPLE_RATE);
    push_le16(&mut wav, 1);
    push_le16(&mut wav, 8);
    push_le32(&mut wav, DATA_TAG);
    push_le32(&mut wav, data as u32);
    let ghost header = wav@;
    let mut index: usize = 0;
    while index < samples.len()
        invariant
            index <= samples@.len(),
            wav@ == header + samples@.take(index as int).map_values(|sample: i8| unsigned_of(sample)),
        decreases samples@.len() - index,
    {
        wav.push(unsigned(samples[index]));
        index = index + 1;
        assert(samples@.take(index as int).map_values(|sample: i8| unsigned_of(sample)) =~= samples@.take(
            (index - 1) as int,
        ).map_values(|sample: i8| unsigned_of(sample)).push(unsigned_of(samples@[index - 1])));
    }
    assert(samples@.take(samples@.len() as int) =~= samples@);
    wav
}

/// How much of a beat a struck tone is let go before the next: a tenth.
pub const DETACHED: u32 = 10;

/// Where beat `index` of `beats` falls, in nanoseconds.
pub open spec fn at_nanos(beats: Seq<Beat>, index: int) -> int {
    duration_nanos(beats[index].at) as int
}

/// Whether no beat of `beats` falls before the one ahead of it.
pub open spec fn in_order(beats: Seq<Beat>) -> bool {
    forall|index: int|
        0 <= index && index + 1 < beats.len() ==> #[trigger] at_nanos(beats, index) <= at_nanos(beats, index + 1)
}

/// How many beats carry a length: every one where there are two or more, and
/// none otherwise, since a lone beat has nothing to measure against.
pub open spec fn lasting_count(beats: Seq<Beat>) -> nat {
    if beats.len() >= 2 {
        beats.len()
    } else {
        0
    }
}

/// How long beat `index` of `beats` lasts, in nanoseconds: until the next
/// beat, and the last as long as the one before it.
pub open spec fn lasting_nanos(beats: Seq<Beat>, index: int) -> int {
    if index + 1 < beats.len() {
        at_nanos(beats, index + 1) - at_nanos(beats, index)
    } else {
        at_nanos(beats, beats.len() - 1) - at_nanos(beats, beats.len() - 2)
    }
}

/// Where the last of `beats` ends, in nanoseconds: as long after it as it is
/// after the one before.
pub open spec fn end_nanos(beats: Seq<Beat>) -> int {
    at_nanos(beats, beats.len() - 1) + lasting_nanos(beats, beats.len() - 1)
}

/// Whether `beats` can be measured: in order, with the end of the last one
/// still a span of time there is.
pub open spec fn beats_fit(beats: Seq<Beat>) -> bool {
    &&& in_order(beats)
    &&& beats.len() >= 2 ==> end_nanos(beats) <= max_nanos()
}

/// How long each of `beats` lasts: until the next, and the last as long as
/// the one before it. A single beat has no length to give.
pub fn lasting(beats: &[Beat]) -> (spans: Vec<Duration>)
    requires
        in_order(beats@),
    ensures
        spans@.len() == lasting_count(beats@),
        forall|index: int| 0 <= index < spans@.len() ==> #[trigger] duration_nanos(spans@[index]) == lasting_nanos(beats@, index),
        forall|index: int| 0 <= index < spans@.len() ==> #[trigger] at_nanos(beats@, index) <= max_nanos(),
{
    let mut spans: Vec<Duration> = Vec::new();
    if beats.len() < 2 {
        return spans;
    }
    let mut index: usize = 0;
    while index < beats.len() - 1
        invariant
            beats@.len() >= 2,
            in_order(beats@),
            index + 1 <= beats@.len(),
            spans@.len() == index,
            forall|at: int| 0 <= at < index ==> #[trigger] duration_nanos(spans@[at]) == lasting_nanos(beats@, at),
            index > 0 ==> forall|at: int| 0 <= at <= index ==> #[trigger] at_nanos(beats@, at) <= max_nanos(),
        decreases beats@.len() - index,
    {
        assert(at_nanos(beats@, index as int) <= at_nanos(beats@, index + 1));
        let start = nanos_of(beats[index].at);
        let gap = nanos_of(beats[index + 1].at) - start;
        spans.push(from_total_nanos(gap));
        index = index + 1;
    }
    let last = spans[spans.len() - 1];
    spans.push(last);
    spans
}

/// Where a tone struck at `from` for a beat lasting `span` is let go: a tenth
/// of the span before the beat ends.
pub fn detached(from: Duration, span: Duration) -> (until: Duration)
    requires
        duration_nanos(from) + duration_nanos(span) <= max_nanos(),
    ensures
        duration_nanos(until) == duration_nanos(from) + duration_nanos(span) - divided_nanos(
            duration_nanos(span) as int,
            DETACHED as int,
        ),
{
    let length = nanos_of(span);
    let short = divide(length, DETACHED);
    from_total_nanos(nanos_of(from) + length - short)
}

/// Where the last of `beats` ends: as long after it as it is after the one
/// before; nowhere where there are fewer than two.
pub fn past_the_end(beats: &[Beat]) -> (end: Option<Duration>)
    requires
        beats_fit(beats@),
    ensures
        match end {
            Some(end) => beats@.len() >= 2 && duration_nanos(end) == end_nanos(beats@),
            None => beats@.len() < 2,
        },
{
    if beats.len() < 2 {
        return None;
    }
    let last = nanos_of(beats[beats.len() - 1].at);
    let before = nanos_of(beats[beats.len() - 2].at);
    assert(at_nanos(beats@, beats@.len() - 2) <= at_nanos(beats@, beats@.len() - 1));
    Some(from_total_nanos(last + (last - before)))
}

/// Where the downbeats among the first `count` of `beats` fall, in
/// nanoseconds.
pub open spec fn downbeat_nanos(beats: Seq<Beat>, count: nat) -> Seq<int>
    decreases count,
{
    if count == 0 {
        Seq::empty()
    } else if beats[count - 1].is_downbeat {
        downbeat_nanos(beats, (count - 1) as nat).push(at_nanos(beats, count - 1))
    } else {
        downbeat_nanos(beats, (count - 1) as nat)
    }
}

/// The bars of `beats`, in nanoseconds: each from a downbeat to the next, and
/// the last to where the last beat ends. A bar with nowhere to end is not
/// one.
pub open spec fn bar_spans(beats: Seq<Beat>) -> Seq<(int, int)> {
    let starts = downbeat_nanos(beats, beats.len());
    let ends = starts.skip(1) + if beats.len() >= 2 {
        seq![end_nanos(beats)]
    } else {
        Seq::empty()
    };
    Seq::new(
        if starts.len() <= ends.len() {
            starts.len()
        } else {
            ends.len()
        },
        |bar: int| (starts[bar], ends[bar]),
    )
}

/// The bars of `beats`: each from a downbeat to the next, and the last to
/// where the last beat ends.
pub fn bars(beats: &[Beat]) -> (spans: Vec<(Duration, Duration)>)
    requires
        beats_fit(beats@),
    ensures
        spans@.len() == bar_spans(beats@).len(),
        forall|bar: int|
            0 <= bar < spans@.len() ==> (duration_nanos(#[trigger] spans@[bar].0) as int, duration_nanos(
                spans@[bar].1,
            ) as int) == bar_spans(beats@)[bar],
{
    let mut starts: Vec<Duration> = Vec::new();
    let mut index: usize = 0;
    while index < beats.len()
        invariant
            index <= beats@.len(),
            starts@.len() == downbeat_nanos(beats@, index as nat).len(),
            forall|at: int|
                0 <= at < starts@.len() ==> duration_nanos(#[trigger] starts@[at]) as int == downbeat_nanos(
                    beats@,
                    index as nat,
                )[at],
        decreases beats@.len() - index,
    {
        if beats[index].is_downbeat {
            starts.push(beats[index].at);
        }
        index = index + 1;
    }
    let end = past_the_end(beats);
    let ghost wanted = bar_spans(beats@);
    let ghost starts_nanos = downbeat_nanos(beats@, beats@.len());
    let count = match end {
        Some(_) => starts.len(),
        None => if starts.len() > 0 {
            starts.len() - 1
        } else {
            0
        },
    };
    assert(count == wanted.len());
    let mut spans: Vec<(Duration, Duration)> = Vec::new();
    let mut bar: usize = 0;
    while bar < count
        invariant
            count == wanted.len(),
            wanted == bar_spans(beats@),
            starts_nanos == downbeat_nanos(beats@, beats@.len()),
            count <= starts@.len(),
            starts@.len() == starts_nanos.len(),
            forall|at: int| 0 <= at < starts@.len() ==> duration_nanos(#[trigger] starts@[at]) as int == starts_nanos[at],
            match end {
                Some(end) => beats@.len() >= 2 && duration_nanos(end) == end_nanos(beats@),
                None => beats@.len() < 2,
            },
            bar <= count,
            spans@.len() == bar,
            forall|done: int|
                0 <= done < bar ==> (duration_nanos(#[trigger] spans@[done].0) as int, duration_nanos(
                    spans@[done].1,
                ) as int) == wanted[done],
        decreases count - bar,
    {
        let to = if bar + 1 < starts.len() {
            starts[bar + 1]
        } else {
            match end {
                Some(end) => end,
                None => starts[bar],
            }
        };
        spans.push((starts[bar], to));
        bar = bar + 1;
    }
    spans
}

/// Whether a chord sounds at a beat: the beat falls in its span.
pub open spec fn sounds_at(chord: Chord, beat: Beat) -> bool {
    duration_nanos(chord.from) <= duration_nanos(beat.at) < duration_nanos(chord.to)
}

/// Whether `beat` falls in `chord`'s span, so the chord is struck on it.
pub fn struck_under(chord: &Chord, beat: &Beat) -> (struck: bool)
    ensures
        struck == sounds_at(*chord, *beat),
{
    let at = nanos_of(beat.at);
    nanos_of(chord.from) <= at && at < nanos_of(chord.to)
}

/// The semitones above its root that a chord of `quality` stacks.
pub open spec fn intervals_of(quality: Quality) -> Seq<u8> {
    match quality {
        Quality::Maj => seq![0u8, 4, 7],
        Quality::Min => seq![0u8, 3, 7],
        Quality::Dim => seq![0u8, 3, 6],
        Quality::Aug => seq![0u8, 4, 8],
        Quality::Maj7 => seq![0u8, 4, 7, 11],
        Quality::Min7 => seq![0u8, 3, 7, 10],
        Quality::Dom7 => seq![0u8, 4, 7, 10],
    }
}

/// The notes a chord labelled `label` is voiced with, as MIDI note numbers:
/// its tones stacked from its root in the octave above [`LOWEST_ROOT`], and
/// none for silence.
pub open spec fn voiced(label: ChordLabel) -> Seq<u8> {
    match label {
        ChordLabel::Silent => Seq::empty(),
        ChordLabel::Sounding(root, quality) => intervals_of(quality).map_values(
            |interval: u8| (LOWEST_ROOT + root.spec_semitone() + interval) as u8,
        ),
    }
}

/// The notes `chord` is voiced with, lowest first.
pub fn voicing(chord: &Chord) -> (pitches: Vec<u8>)
    ensures
        pitches@ == voiced(chord.label),
{
    let (root, quality) = match chord.label {
        ChordLabel::Silent => {
            return Vec::new();
        },
        ChordLabel::Sounding(root, quality) => (root, quality),
    };
    let intervals: Vec<u8> = match quality {
        Quality::Maj => vec![0u8, 4, 7],
        Quality::Min => vec![0u8, 3, 7],
        Quality::Dim => vec![0u8, 3, 6],
        Quality::Aug => vec![0u8, 4, 8],
        Quality::Maj7 => vec![0u8, 4, 7, 11],
        Quality::Min7 => vec![0u8, 3, 7, 10],
        Quality::Dom7 => vec![0u8, 4, 7, 10],
    };
    assert(intervals@ =~= intervals_of(quality));
    let base = LOWEST_ROOT + root.semitone();
    let mut pitches: Vec<u8> = Vec::new();
    let mut index: usize = 0;
    while index < intervals.len()
        invariant
            intervals@ == intervals_of(quality),
            base == LOWEST_ROOT + root.spec_semitone(),
            root.spec_semitone() < 12,
            index <= intervals@.len(),
            pitches@ == intervals@.take(index as int).map_values(
                |interval: u8| (LOWEST_ROOT + root.spec_semitone() + interval) as u8,
            ),
        decreases intervals@.len() - index,
    {
        assert(intervals@[index as int] <= 11);
        pitches.push(base + intervals[index]);
        index = index + 1;
        assert(pitches@ =~= intervals@.take(index as int).map_values(
            |interval: u8| (LOWEST_ROOT + root.spec_semitone() + interval) as u8,
        ));
    }
    assert(intervals@.take(intervals@.len() as int) =~= intervals@);
    pitches
}

/// How long an onset sounds, in nanoseconds: a tone until it is let go and a
/// release after, an accent or a tick for its tail.
pub open spec fn sounding_nanos(onset: Onset) -> int {
    match onset.voice {
        Voice::Tone { until, .. } => (if duration_nanos(until) >= duration_nanos(onset.at) {
            duration_nanos(until) - duration_nanos(onset.at)
        } else {
            0
        }) + RELEASE_NANOS,
        _ => TAIL_NANOS as int,
    }
}

/// How long `onset` sounds for.
pub fn sounding(onset: &Onset) -> (span: Duration)
    requires
        sounding_nanos(*onset) <= max_nanos(),
    ensures
        duration_nanos(span) == sounding_nanos(*onset),
{
    match onset.voice {
        Voice::Tone { until, .. } => {
            let end = nanos_of(until);
            let at = nanos_of(onset.at);
            let held = if end >= at { end - at } else { 0 };
            from_total_nanos(held + RELEASE_NANOS as u128)
        },
        _ => from_nanos(TAIL_NANOS),
    }
}

/// What a fixture sounds, besides its beats: the chords and the notes its
/// annotation names, and the onsets it is rendered from.
#[derive(Debug, Clone, PartialEq, Eq)]
pub struct Content {
    /// The chords, in order.
    pub chords: Vec<Chord>,
    /// The notes of a monophonic line, in order.
    pub notes: Vec<Note>,
    /// Every sound struck, in the order they were laid down.
    pub onsets: Vec<Onset>,
}

/// Percussion alone: the onsets, and no chord or note to name.
pub fn percussive(onsets: Vec<Onset>) -> (content: Content)
    ensures
        content.chords@.len() == 0,
        content.notes@.len() == 0,
        content.onsets@ == onsets@,
{
    Content { chords: Vec::new(), notes: Vec::new(), onsets }
}

/// How many bars the chord progression runs for.
pub const PROGRESSION_BARS: usize = 4;

/// The root, as semitones above C, and the quality of the chord in bar
/// `bar` of the progression: I, vi, IV, V7 in C.
pub open spec fn progression(bar: int) -> (u8, Quality) {
    if bar == 0 {
        (0u8, Quality::Maj)
    } else if bar == 1 {
        (9u8, Quality::Min)
    } else if bar == 2 {
        (5u8, Quality::Maj)
    } else {
        (7u8, Quality::Dom7)
    }
}

fn progression_at(bar: usize) -> (chord: (u8, Quality))
    ensures
        chord == progression(bar as int),
{
    if bar == 0 {
        (0, Quality::Maj)
    } else if bar == 1 {
        (9, Quality::Min)
    } else if bar == 2 {
        (5, Quality::Maj)
    } else {
        (7, Quality::Dom7)
    }
}

/// Where a tone is let go, in nanoseconds, when struck at `from` on a beat
/// lasting `span`.
pub open spec fn detached_nanos(from: int, span: int) -> int {
    from + span - divided_nanos(span, DETACHED as int)
}

/// Whether `onset` is a tone of `pitch` struck at `at` and let go at `until`
/// nanoseconds.
pub open spec fn tone_struck(onset: Onset, at: Duration, pitch: u8, until: int) -> bool {
    &&& onset.at == at
    &&& onset.voice matches Voice::Tone { pitch: struck, until: released } && struck == pitch
        && duration_nanos(released) == until
}

/// The tones `chord` strikes over the first `count` of `beats`: on each beat
/// it sounds at, every note of its voicing, let go before the beat ends.
pub open spec fn struck_at(chord: Chord, beats: Seq<Beat>, count: nat) -> Seq<(Duration, u8, int)>
    decreases count,
{
    if count == 0 {
        Seq::empty()
    } else {
        let beat = beats[count - 1];
        let released = detached_nanos(at_nanos(beats, count - 1), lasting_nanos(beats, count - 1));
        struck_at(chord, beats, (count - 1) as nat) + if sounds_at(chord, beat) {
            voiced(chord.label).map_values(|pitch: u8| (beat.at, pitch, released))
        } else {
            Seq::empty()
        }
    }
}

/// The tones the first `count` of `chords` strike over `beats`, chord by
/// chord.
pub open spec fn all_struck(chords: Seq<Chord>, beats: Seq<Beat>, count: nat) -> Seq<(Duration, u8, int)>
    decreases count,
{
    if count == 0 {
        Seq::empty()
    } else {
        all_struck(chords, beats, (count - 1) as nat) + struck_at(chords[count - 1], beats, beats.len())
    }
}

/// Whether `onsets` are the tones `shape` lists, in order.
pub open spec fn tones_as(onsets: Seq<Onset>, shape: Seq<(Duration, u8, int)>) -> bool {
    &&& onsets.len() == shape.len()
    &&& forall|index: int|
        0 <= index < onsets.len() ==> #[trigger] tone_struck(
            onsets[index],
            shape[index].0,
            shape[index].1,
            shape[index].2,
        )
}

/// Whether `chords` are the progression laid over the bars of `beats`, one
/// chord to a bar, for as many bars as both have.
pub open spec fn progression_over(chords: Seq<Chord>, beats: Seq<Beat>) -> bool {
    &&& chords.len() == if bar_spans(beats).len() <= PROGRESSION_BARS {
        bar_spans(beats).len()
    } else {
        PROGRESSION_BARS as nat
    }
    &&& forall|bar: int|
        0 <= bar < chords.len() ==> {
            &&& #[trigger] chords[bar].label matches ChordLabel::Sounding(root, quality) && root.spec_semitone()
                == progression(bar).0 && quality == progression(bar).1
            &&& duration_nanos(chords[bar].from) == bar_spans(beats)[bar].0
            &&& duration_nanos(chords[bar].to) == bar_spans(beats)[bar].1
        }
}

proof fn lemma_downbeats_few(beats: Seq<Beat>, count: nat)
    ensures
        downbeat_nanos(beats, count).len() <= count,
    decreases count,
{
    if count > 0 {
        lemma_downbeats_few(beats, (count - 1) as nat);
    }
}

/// A chord to a bar, voiced on every beat of it: the progression over the
/// bars of `beats`, each chord struck on each beat it sounds at and let go a
/// little before the beat ends.
pub fn one_chord_per_bar(beats: &[Beat]) -> (content: Content)
    requires
        beats_fit(beats@),
    ensures
        progression_over(content.chords@, beats@),
        content.notes@.len() == 0,
        tones_as(content.onsets@, all_struck(content.chords@, beats@, content.chords@.len())),
{
    if beats.len() < 2 {
        proof {
            lemma_downbeats_few(beats@, beats@.len());
        }
        assert(bar_spans(beats@).len() == 0);
        assert(all_struck(Seq::<Chord>::empty(), beats@, 0) =~= Seq::empty());
        return Content { chords: Vec::new(), notes: Vec::new(), onsets: Vec::new() };
    }
    let spans = bars(beats);
    let mut chords: Vec<Chord> = Vec::new();
    let mut bar: usize = 0;
    while bar < spans.len() && bar < PROGRESSION_BARS
        invariant
            spans@.len() == bar_spans(beats@).len(),
            forall|at: int|
                0 <= at < spans@.len() ==> (duration_nanos(#[trigger] spans@[at].0) as int, duration_nanos(
                    spans@[at].1,
                ) as int) == bar_spans(beats@)[at],
            bar <= spans@.len(),
            bar <= PROGRESSION_BARS,
            chords@.len() == bar,
            forall|done: int|
                0 <= done < bar ==> {
                    &&& #[trigger] chords@[done].label matches ChordLabel::Sounding(root, quality)
                        && root.spec_semitone() == progression(done).0 && quality == progression(done).1
                    &&& duration_nanos(chords@[done].from) == bar_spans(beats@)[done].0
                    &&& duration_nanos(chords@[done].to) == bar_spans(beats@)[done].1
                },
        decreases PROGRESSION_BARS - bar,
    {
        let (semitone, quality) = progression_at(bar);
        let (from, to) = spans[bar];
        chords.push(Chord { label: ChordLabel::Sounding(PitchClass::from_semitone(semitone), quality), from, to });
        bar = bar + 1;
    }
    let spans_of_beats = lasting(beats);
    let mut onsets: Vec<Onset> = Vec::new();
    let mut chord: usize = 0;
    while chord < chords.len()
        invariant
            beats_fit(beats@),
            beats@.len() >= 2,
            forall|at: int| 0 <= at < beats@.len() ==> #[trigger] at_nanos(beats@, at) <= max_nanos(),
            spans_of_beats@.len() == beats@.len(),
            forall|at: int| 0 <= at < spans_of_beats@.len() ==> #[trigger] duration_nanos(spans_of_beats@[at])
                == lasting_nanos(beats@, at),
            chord <= chords@.len(),
            tones_as(onsets@, all_struck(chords@, beats@, chord as nat)),
        decreases chords@.len() - chord,
    {
        let ghost before = onsets@;
        let pitches = voicing(&chords[chord]);
        let mut index: usize = 0;
        while index < beats.len()
            invariant
                beats_fit(beats@),
                beats@.len() >= 2,
                forall|at: int| 0 <= at < beats@.len() ==> #[trigger] at_nanos(beats@, at) <= max_nanos(),
                spans_of_beats@.len() == beats@.len(),
                forall|at: int| 0 <= at < spans_of_beats@.len() ==> #[trigger] duration_nanos(spans_of_beats@[at])
                    == lasting_nanos(beats@, at),
                chord < chords@.len(),
                pitches@ == voiced(chords@[chord as int].label),
                index <= beats@.len(),
                tones_as(before, all_struck(chords@, beats@, chord as nat)),
                tones_as(
                    onsets@,
                    all_struck(chords@, beats@, chord as nat) + struck_at(chords@[chord as int], beats@, index as nat),
                ),
            decreases beats@.len() - index,
        {
            let ghost mid = onsets@;
            let ghost shape = all_struck(chords@, beats@, chord as nat) + struck_at(
                chords@[chord as int],
                beats@,
                index as nat,
            );
            if struck_under(&chords[chord], &beats[index]) {
                let at = beats[index].at;
                assert(at_nanos(beats@, index as int) + lasting_nanos(beats@, index as int) <= max_nanos()) by {
                    if index + 1 < beats@.len() {
                        assert(at_nanos(beats@, index + 1) <= max_nanos());
                    }
                }
                let until = detached(at, spans_of_beats[index]);
                let mut pitch: usize = 0;
                while pitch < pitches.len()
                    invariant
                        pitch <= pitches@.len(),
                        tones_as(
                            onsets@,
                            shape + pitches@.take(pitch as int).map_values(
                                |struck: u8|
                                    (
                                        at,
                                        struck,
                                        detached_nanos(
                                            at_nanos(beats@, index as int),
                                            lasting_nanos(beats@, index as int),
                                        ),
                                    ),
                            ),
                        ),
                        at == beats@[index as int].at,
                        duration_nanos(until) == detached_nanos(
                            at_nanos(beats@, index as int),
                            lasting_nanos(beats@, index as int),
                        ),
                    decreases pitches@.len() - pitch,
                {
                    onsets.push(Onset { at, voice: Voice::Tone { pitch: pitches[pitch], until } });
                    pitch = pitch + 1;
                    let ghost laid = shape + pitches@.take(pitch as int).map_values(
                        |struck: u8|
                            (
                                at,
                                struck,
                                detached_nanos(at_nanos(beats@, index as int), lasting_nanos(beats@, index as int)),
                            ),
                    );
                    assert forall|entry: int| 0 <= entry < onsets@.len() implies #[trigger] tone_struck(
                        onsets@[entry],
                        laid[entry].0,
                        laid[entry].1,
                        laid[entry].2,
                    ) by {
                        if entry + 1 < onsets@.len() {
                            assert(laid[entry] == (shape + pitches@.take(pitch - 1).map_values(
                                |struck: u8|
                                    (
                                        at,
                                        struck,
                                        detached_nanos(
                                            at_nanos(beats@, index as int),
                                            lasting_nanos(beats@, index as int),
                                        ),
                                    ),
                            ))[entry]);
                        }
                    }
                }
                assert(pitches@.take(pitches@.len() as int) =~= pitches@);
                assert(shape + pitches@.map_values(
                    |struck: u8|
                        (at, struck, detached_nanos(at_nanos(beats@, index as int), lasting_nanos(beats@, index as int))),
                ) =~= all_struck(chords@, beats@, chord as nat) + struck_at(
                    chords@[chord as int],
                    beats@,
                    (index + 1) as nat,
                ));
            } else {
                assert(shape =~= all_struck(chords@, beats@, chord as nat) + struck_at(
                    chords@[chord as int],
                    beats@,
                    (index + 1) as nat,
                ));
            }
            index = index + 1;
        }
        chord = chord + 1;
        assert(all_struck(chords@, beats@, chord as nat) =~= all_struck(chords@, beats@, (chord - 1) as nat)
            + struck_at(chords@[chord - 1], beats@, beats@.len()));
    }
    Content { chords, notes: Vec::new(), onsets }
}

/// How many notes the monophonic line holds.
pub const LINE_NOTES: usize = 12;

/// Note `note` of the monophonic line: the beat it starts on, how many beats
/// it lasts, and its MIDI note number.
pub open spec fn line_entry(note: int) -> (int, int, u8) {
    if note == 0 { (0, 1, 60u8) }
    else if note == 1 { (1, 1, 62u8) }
    else if note == 2 { (2, 2, 64u8) }
    else if note == 3 { (4, 1, 65u8) }
    else if note == 4 { (5, 1, 64u8) }
    else if note == 5 { (6, 2, 62u8) }
    else if note == 6 { (8, 1, 67u8) }
    else if note == 7 { (9, 1, 65u8) }
    else if note == 8 { (10, 2, 64u8) }
    else if note == 9 { (12, 1, 62u8) }
    else if note == 10 { (13, 1, 60u8) }
    else { (14, 2, 55u8) }
}

fn line_at(note: usize) -> (entry: (usize, usize, u8))
    requires
        note < LINE_NOTES,
    ensures
        entry.0 == line_entry(note as int).0,
        entry.1 == line_entry(note as int).1,
        entry.2 == line_entry(note as int).2,
{
    if note == 0 { (0, 1, 60) }
    else if note == 1 { (1, 1, 62) }
    else if note == 2 { (2, 2, 64) }
    else if note == 3 { (4, 1, 65) }
    else if note == 4 { (5, 1, 64) }
    else if note == 5 { (6, 2, 62) }
    else if note == 6 { (8, 1, 67) }
    else if note == 7 { (9, 1, 65) }
    else if note == 8 { (10, 2, 64) }
    else if note == 9 { (12, 1, 62) }
    else if note == 10 { (13, 1, 60) }
    else { (14, 2, 55) }
}

/// How many notes of the line, from note `note` on, fit in `beats` beats
/// that carry a length: the line stops at the first that runs past them.
pub open spec fn line_taken(beats: nat, note: nat) -> nat
    decreases LINE_NOTES - note,
{
    if note < LINE_NOTES && line_entry(note as int).0 + line_entry(note as int).1 <= beats {
        line_taken(beats, note + 1)
    } else {
        note
    }
}

/// How long `count` beats of `beats` from beat `from` last together, in
/// nanoseconds.
pub open spec fn lasting_sum(beats: Seq<Beat>, from: int, count: nat) -> int
    decreases count,
{
    if count == 0 {
        0
    } else {
        lasting_sum(beats, from, (count - 1) as nat) + lasting_nanos(beats, from + count - 1)
    }
}

/// Where beat `index` of `beats` falls, or, one past the last, where the last
/// ends; in nanoseconds.
pub open spec fn reached(beats: Seq<Beat>, index: int) -> int {
    if index < beats.len() {
        at_nanos(beats, index)
    } else {
        end_nanos(beats)
    }
}

proof fn lemma_lasting_adds_up(beats: Seq<Beat>, from: int, count: nat)
    requires
        beats.len() >= 2,
        0 <= from < beats.len(),
        from + count <= beats.len(),
    ensures
        lasting_sum(beats, from, count) == reached(beats, from + count) - at_nanos(beats, from),
    decreases count,
{
    if count > 0 {
        lemma_lasting_adds_up(beats, from, (count - 1) as nat);
    }
}

/// Whether `played` is note `note` of the monophonic line over `beats`: on
/// its beat, let go a little before its last beat ends.
pub open spec fn on_the_line(played: Note, beats: Seq<Beat>, note: int) -> bool {
    let entry = line_entry(note);
    &&& played.pitch == entry.2
    &&& played.onset == beats[entry.0].at
    &&& duration_nanos(played.offset) == detached_nanos(
        at_nanos(beats, entry.0),
        lasting_sum(beats, entry.0, entry.1 as nat),
    )
}

/// Whether `notes` are the first of the monophonic line over `beats`, as
/// many as the beats have room for.
pub open spec fn line_over(notes: Seq<Note>, beats: Seq<Beat>) -> bool {
    &&& notes.len() == line_taken(lasting_count(beats), 0)
    &&& forall|note: int| 0 <= note < notes.len() ==> #[trigger] on_the_line(notes[note], beats, note)
}

/// Note `note` of the line over `beats`, whose beats last `spans`.
fn line_note(beats: &[Beat], spans: &Vec<Duration>, note: usize) -> (played: Note)
    requires
        beats_fit(beats@),
        spans@.len() == lasting_count(beats@),
        forall|at: int| 0 <= at < spans@.len() ==> #[trigger] duration_nanos(spans@[at]) == lasting_nanos(beats@, at),
        forall|at: int| 0 <= at < spans@.len() ==> #[trigger] at_nanos(beats@, at) <= max_nanos(),
        note < LINE_NOTES,
        line_entry(note as int).0 + line_entry(note as int).1 <= spans@.len(),
    ensures
        on_the_line(played, beats@, note as int),
{
    let (first, length, pitch) = line_at(note);
    let count = spans.len();
    let mut total: u128 = 0;
    let mut counted: usize = 0;
    while counted < length
        invariant
            first + length <= count,
            count == spans@.len(),
            spans@.len() == lasting_count(beats@),
            forall|at: int| 0 <= at < spans@.len() ==> #[trigger] duration_nanos(spans@[at]) == lasting_nanos(beats@, at),
            forall|at: int| 0 <= at < spans@.len() ==> #[trigger] at_nanos(beats@, at) <= max_nanos(),
            beats_fit(beats@),
            beats@.len() >= 2,
            first < beats@.len(),
            counted <= length,
            total == lasting_sum(beats@, first as int, counted as nat),
        decreases length - counted,
    {
        proof {
            lemma_lasting_adds_up(beats@, first as int, (counted + 1) as nat);
            if first + counted + 1 < beats@.len() {
                assert(at_nanos(beats@, first + counted + 1) <= max_nanos());
            }
        }
        total = total + nanos_of(spans[first + counted]);
        counted = counted + 1;
    }
    proof {
        lemma_lasting_adds_up(beats@, first as int, length as nat);
        if first + length < beats@.len() {
            assert(at_nanos(beats@, first + length) <= max_nanos());
        }
    }
    let at = beats[first].at;
    let offset = detached(at, from_total_nanos(total));
    Note { pitch, onset: at, offset }
}

/// A monophonic line over `beats`: as much of it as the beats have room for,
/// each note struck on its beat and let go a little before its last beat
/// ends, and a tone for each.
pub fn a_monophonic_line(beats: &[Beat]) -> (content: Content)
    requires
        beats_fit(beats@),
    ensures
        content.chords@.len() == 0,
        line_over(content.notes@, beats@),
        content.onsets@.len() == content.notes@.len(),
        forall|note: int|
            0 <= note < content.onsets@.len() ==> #[trigger] content.onsets@[note] == (Onset {
                at: content.notes@[note].onset,
                voice: Voice::Tone { pitch: content.notes@[note].pitch, until: content.notes@[note].offset },
            }),
{
    let spans = lasting(beats);
    let mut notes: Vec<Note> = Vec::new();
    let mut note: usize = 0;
    while note < LINE_NOTES
        invariant
            beats_fit(beats@),
            spans@.len() == lasting_count(beats@),
            forall|at: int| 0 <= at < spans@.len() ==> #[trigger] duration_nanos(spans@[at]) == lasting_nanos(beats@, at),
            forall|at: int| 0 <= at < spans@.len() ==> #[trigger] at_nanos(beats@, at) <= max_nanos(),
            note <= LINE_NOTES,
            line_taken(spans@.len() as nat, 0) == line_taken(spans@.len() as nat, note as nat),
            notes@.len() == note,
            forall|done: int| 0 <= done < note ==> #[trigger] on_the_line(notes@[done], beats@, done),
        ensures
            line_over(notes@, beats@),
        decreases LINE_NOTES - note,
    {
        let (first, length, _pitch) = line_at(note);
        if first + length > spans.len() {
            break;
        }
        let played = line_note(beats, &spans, note);
        notes.push(played);
        note = note + 1;
    }
    let mut onsets: Vec<Onset> = Vec::new();
    let mut index: usize = 0;
    while index < notes.len()
        invariant
            index <= notes@.len(),
            onsets@.len() == index,
            forall|done: int|
                0 <= done < index ==> #[trigger] onsets@[done] == (Onset {
                    at: notes@[done].onset,
                    voice: Voice::Tone { pitch: notes@[done].pitch, until: notes@[done].offset },
                }),
        decreases notes@.len() - index,
    {
        let played = notes[index];
        onsets.push(Onset { at: played.onset, voice: Voice::Tone { pitch: played.pitch, until: played.offset } });
        index = index + 1;
    }
    Content { chords: Vec::new(), notes, onsets }
}

/// Where frame `frame` of a fixture falls, at [`SAMPLE_RATE`]: its whole
/// seconds, and the nanoseconds of the frames left over, rounded down.
pub open spec fn frame_nanos(frame: u64) -> int {
    (frame / SAMPLE_RATE as u64) * 1_000_000_000 + (frame % SAMPLE_RATE as u64) * 1_000_000_000 / SAMPLE_RATE as int
}

/// Where frame `frame` of a fixture falls, so every beat lands on a sample.
pub fn frame_time(frame: u64) -> (at: Duration)
    ensures
        duration_nanos(at) == frame_nanos(frame),
{
    let rate = SAMPLE_RATE as u64;
    let seconds = frame / rate;
    let over = (frame % rate) * 1_000_000_000 / rate;
    assert(seconds * 1_000_000_000 + over <= max_nanos()) by (nonlinear_arith)
        requires
            seconds == frame / 8000,
            over < 1_000_000_000,
            frame <= u64::MAX,
    ;
    from_total_nanos(seconds as u128 * 1_000_000_000 + over as u128)
}

} // verus!
