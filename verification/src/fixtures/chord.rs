//! The chord vocabulary a fixture is annotated in, and how two segmentations of
//! it are compared.
//!
//! A chord is a label over a span, so it is scored by agreement over time rather
//! than by hits within a tolerance: what a chord scorer has to say is the share
//! of a passage labelled correctly. [`Comparison`] is what grades one error
//! against another.

use std::time::Duration;
use vstd::prelude::*;
use vstd::string::StringSliceAdditionalSpecFns;

use crate::time::{duration_nanos, from_total_nanos, max_nanos, nanos_of};

verus! {

/// The ASCII byte `:`, as a label spells it.
pub const COLON: u8 = 58;
/// The ASCII byte `7`, as a label spells it.
pub const DIGIT_SEVEN: u8 = 55;
/// The ASCII byte `a`, as a label spells it.
pub const LOWER_A: u8 = 97;
/// The ASCII byte `d`, as a label spells it.
pub const LOWER_D: u8 = 100;
/// The ASCII byte `g`, as a label spells it.
pub const LOWER_G: u8 = 103;
/// The ASCII byte `i`, as a label spells it.
pub const LOWER_I: u8 = 105;
/// The ASCII byte `j`, as a label spells it.
pub const LOWER_J: u8 = 106;
/// The ASCII byte `m`, as a label spells it.
pub const LOWER_M: u8 = 109;
/// The ASCII byte `n`, as a label spells it.
pub const LOWER_N: u8 = 110;
/// The ASCII byte `u`, as a label spells it.
pub const LOWER_U: u8 = 117;
/// The ASCII byte `#`, as a label spells it.
pub const SHARP: u8 = 35;
/// The ASCII byte `A`, as a label spells it.
pub const UPPER_A: u8 = 65;
/// The ASCII byte `B`, as a label spells it.
pub const UPPER_B: u8 = 66;
/// The ASCII byte `C`, as a label spells it.
pub const UPPER_C: u8 = 67;
/// The ASCII byte `D`, as a label spells it.
pub const UPPER_D: u8 = 68;
/// The ASCII byte `E`, as a label spells it.
pub const UPPER_E: u8 = 69;
/// The ASCII byte `F`, as a label spells it.
pub const UPPER_F: u8 = 70;
/// The ASCII byte `G`, as a label spells it.
pub const UPPER_G: u8 = 71;
/// The ASCII byte `N`, as a label spells it.
pub const UPPER_N: u8 = 78;

/// How many pitch classes an octave holds.
pub const PITCH_CLASSES: u8 = 12;

/// One of the twelve pitch classes, counted in semitones above C.
///
/// A root rather than a pitch: `C` names every C, since the octave a chord is
/// voiced in is not part of what it is called.
#[derive(Debug, Clone, Copy, PartialEq, Eq, Structural)]
pub struct PitchClass(u8);

impl PitchClass {
    /// How far above C it is.
    pub closed spec fn spec_semitone(self) -> u8 {
        self.0
    }

    /// Every pitch class is under an octave above C.
    pub proof fn lemma_under_an_octave(self)
        requires
            self.wf(),
        ensures
            self.spec_semitone() < PITCH_CLASSES,
    {
    }

    /// Whether this is one of the twelve.
    pub closed spec fn wf(self) -> bool {
        self.0 < PITCH_CLASSES
    }

    #[verifier::type_invariant]
    spec fn one_of_twelve(self) -> bool {
        self.0 < PITCH_CLASSES
    }

    /// The pitch class that many semitones above C, wrapping at the octave.
    pub fn from_semitone(semitone: u8) -> (class: Self)
        ensures
            class.wf(),
            class.spec_semitone() == semitone % PITCH_CLASSES,
    {
        Self(semitone % PITCH_CLASSES)
    }

    /// How far above C it is, from zero to eleven semitones.
    pub fn semitone(self) -> (semitone: u8)
        ensures
            semitone == self.spec_semitone(),
            semitone < PITCH_CLASSES,
    {
        proof {
            use_type_invariant(self);
        }
        self.0
    }
}

/// The quality of a chord: which third and fifth it stacks, and which seventh
/// over them, if any, spelled as MIREX chord annotations spell them.
#[derive(Debug, Clone, Copy, PartialEq, Eq, Structural)]
pub enum Quality {
    /// A major triad, written `maj`.
    Maj,
    /// A minor triad, written `min`.
    Min,
    /// A diminished triad, written `dim`.
    Dim,
    /// An augmented triad, written `aug`.
    Aug,
    /// A major triad under a major seventh, written `maj7`.
    Maj7,
    /// A minor triad under a minor seventh, written `min7`.
    Min7,
    /// A major triad under a minor seventh, written `7`.
    Dom7,
}

/// What sounds over a span: a chord, or nothing.
///
/// Written as MIREX chord annotations are — a root, a colon and a quality, as
/// in `C:maj`, `A:min` or `G:7` — or `N` where no chord sounds. Roots are
/// spelled with sharps.
#[derive(Debug, Clone, Copy, PartialEq, Eq, Structural)]
pub enum ChordLabel {
    /// No chord sounds, written `N`.
    Silent,
    /// A chord on a root, of a quality.
    Sounding(PitchClass, Quality),
}

/// How a pitch class is spelled, with a sharp where it takes one.
pub open spec fn root_spelling(semitone: u8) -> Seq<u8> {
    if semitone == 0 { seq![UPPER_C] }
    else if semitone == 1 { seq![UPPER_C, SHARP] }
    else if semitone == 2 { seq![UPPER_D] }
    else if semitone == 3 { seq![UPPER_D, SHARP] }
    else if semitone == 4 { seq![UPPER_E] }
    else if semitone == 5 { seq![UPPER_F] }
    else if semitone == 6 { seq![UPPER_F, SHARP] }
    else if semitone == 7 { seq![UPPER_G] }
    else if semitone == 8 { seq![UPPER_G, SHARP] }
    else if semitone == 9 { seq![UPPER_A] }
    else if semitone == 10 { seq![UPPER_A, SHARP] }
    else { seq![UPPER_B] }
}

/// How a quality is spelled.
pub open spec fn quality_spelling(quality: Quality) -> Seq<u8> {
    match quality {
        Quality::Maj => seq![LOWER_M, LOWER_A, LOWER_J],
        Quality::Min => seq![LOWER_M, LOWER_I, LOWER_N],
        Quality::Dim => seq![LOWER_D, LOWER_I, LOWER_M],
        Quality::Aug => seq![LOWER_A, LOWER_U, LOWER_G],
        Quality::Maj7 => seq![LOWER_M, LOWER_A, LOWER_J, DIGIT_SEVEN],
        Quality::Min7 => seq![LOWER_M, LOWER_I, LOWER_N, DIGIT_SEVEN],
        Quality::Dom7 => seq![DIGIT_SEVEN],
    }
}

/// How a label is spelled.
pub open spec fn label_spelling(label: ChordLabel) -> Seq<u8> {
    match label {
        ChordLabel::Silent => seq![UPPER_N],
        ChordLabel::Sounding(root, quality) => root_spelling(root.spec_semitone()) + seq![COLON]
            + quality_spelling(quality),
    }
}

/// Whether `label` names a chord this vocabulary holds.
pub open spec fn label_wf(label: ChordLabel) -> bool {
    match label {
        ChordLabel::Silent => true,
        ChordLabel::Sounding(root, _) => root.wf(),
    }
}

/// Whether `text` spells `label`.
pub open spec fn spells(text: Seq<u8>, label: ChordLabel) -> bool {
    label_wf(label) && text == label_spelling(label)
}

fn byte_is(text: &[u8], at: usize, wanted: u8) -> (is: bool)
    ensures
        is == (at < text@.len() && text@[at as int] == wanted),
{
    at < text.len() && text[at] == wanted
}

fn root_named(text: &[u8], from: usize, to: usize) -> (root: Option<PitchClass>)
    requires
        from <= to <= text@.len(),
    ensures
        match root {
            Some(class) => class.wf() && root_spelling(class.spec_semitone()) == text@.subrange(
                from as int,
                to as int,
            ),
            None => forall|semitone: u8|
                semitone < PITCH_CLASSES ==> root_spelling(semitone) != text@.subrange(
                    from as int,
                    to as int,
                ),
        },
{
    let ghost named = text@.subrange(from as int, to as int);
    let length = to - from;
    if length == 0 || length > 2 {
        assert forall|semitone: u8| semitone < PITCH_CLASSES implies root_spelling(semitone)
            != named by {
            assert(root_spelling(semitone).len() == 1 || root_spelling(semitone).len() == 2);
        }
        return None;
    }
    let sharp = length == 2;
    if sharp && !byte_is(text, from + 1, SHARP) {
        assert forall|semitone: u8| semitone < PITCH_CLASSES implies root_spelling(semitone)
            != named by {
            if root_spelling(semitone).len() == 2 {
                assert(root_spelling(semitone)[1] == SHARP);
                assert(named[1] == text@[from + 1]);
            }
        }
        return None;
    }
    let letter = text[from];
    assert(named[0] == letter);
    let natural: u8 = if letter == UPPER_C {
        0
    } else if letter == UPPER_D {
        2
    } else if letter == UPPER_E {
        4
    } else if letter == UPPER_F {
        5
    } else if letter == UPPER_G {
        7
    } else if letter == UPPER_A {
        9
    } else if letter == UPPER_B {
        11
    } else {
        assert forall|semitone: u8| semitone < PITCH_CLASSES implies root_spelling(semitone)
            != named by {
            assert(root_spelling(semitone)[0] != letter);
        }
        return None;
    };
    if sharp {
        if natural == 4 || natural == 11 {
            assert forall|semitone: u8| semitone < PITCH_CLASSES implies root_spelling(semitone)
                != named by {
                if root_spelling(semitone).len() == 2 {
                    assert(root_spelling(semitone)[0] != letter);
                }
            }
            return None;
        }
        assert(named =~= root_spelling((natural + 1) as u8));
        Some(PitchClass(natural + 1))
    } else {
        assert(named =~= root_spelling(natural));
        Some(PitchClass(natural))
    }
}

fn quality_named(text: &[u8], from: usize) -> (quality: Option<Quality>)
    requires
        from <= text@.len(),
    ensures
        match quality {
            Some(q) => quality_spelling(q) == text@.subrange(from as int, text@.len() as int),
            None => forall|q: Quality|
                quality_spelling(q) != text@.subrange(from as int, text@.len() as int),
        },
{
    let ghost named = text@.subrange(from as int, text@.len() as int);
    let length = text.len() - from;
    if length == 1 {
        if byte_is(text, from, DIGIT_SEVEN) {
            assert(named =~= quality_spelling(Quality::Dom7));
            return Some(Quality::Dom7);
        }
        assert forall|q: Quality| quality_spelling(q) != named by {
            if quality_spelling(q).len() == 1 {
                assert(named[0] == text@[from as int]);
            }
        }
        return None;
    }
    if length == 3 || length == 4 {
        let seventh = length == 4;
        if seventh && !byte_is(text, from + 3, DIGIT_SEVEN) {
            assert forall|q: Quality| quality_spelling(q) != named by {
                if quality_spelling(q).len() == 4 {
                    assert(named[3] == text@[from + 3]);
                }
            }
            return None;
        }
        let (first, second, third) = (text[from], text[from + 1], text[from + 2]);
        assert(named[0] == first && named[1] == second && named[2] == third);
        let triad = if first == LOWER_M && second == LOWER_A && third == LOWER_J {
            Some(if seventh { Quality::Maj7 } else { Quality::Maj })
        } else if first == LOWER_M && second == LOWER_I && third == LOWER_N {
            Some(if seventh { Quality::Min7 } else { Quality::Min })
        } else if !seventh && first == LOWER_D && second == LOWER_I && third == LOWER_M {
            Some(Quality::Dim)
        } else if !seventh && first == LOWER_A && second == LOWER_U && third == LOWER_G {
            Some(Quality::Aug)
        } else {
            None
        };
        match triad {
            Some(q) => {
                assert(named =~= quality_spelling(q));
                return Some(q);
            },
            None => {
                assert forall|q: Quality| quality_spelling(q) != named by {
                    if quality_spelling(q).len() == length {
                        assert(quality_spelling(q)[0] != first || quality_spelling(q)[1] != second
                            || quality_spelling(q)[2] != third);
                    }
                }
                return None;
            },
        }
    }
    assert forall|q: Quality| quality_spelling(q) != named by {
        assert(quality_spelling(q).len() == 1 || quality_spelling(q).len() == 3
            || quality_spelling(q).len() == 4);
    }
    None
}

/// The label `text` spells, where it spells one.
pub open spec fn label_of(text: Seq<u8>) -> Option<ChordLabel> {
    if exists|label: ChordLabel| spells(text, label) {
        Some(choose|label: ChordLabel| spells(text, label))
    } else {
        None
    }
}

/// No two labels are spelled alike.
pub proof fn lemma_spelling_unique(text: Seq<u8>, one: ChordLabel, other: ChordLabel)
    requires
        spells(text, one),
        spells(text, other),
    ensures
        one == other,
{
    match (one, other) {
        (ChordLabel::Sounding(a, p), ChordLabel::Sounding(b, q)) => {
            let ra = root_spelling(a.spec_semitone());
            let rb = root_spelling(b.spec_semitone());
            let colon = ra.len() as int;
            assert(text[colon] == COLON);
            assert(forall|i: int| 0 <= i < colon ==> text[i] == ra[i]);
            assert(forall|i: int| 0 <= i < colon ==> text[i] != COLON);
            lemma_colon_first(other, text, colon);
            assert(ra =~= text.subrange(0, colon));
            assert(rb =~= text.subrange(0, colon));
            assert(quality_spelling(p) =~= text.subrange(colon + 1, text.len() as int));
            assert(quality_spelling(q) =~= text.subrange(colon + 1, text.len() as int));
            assert(ra[0] == rb[0] && ra.len() == rb.len());
            lemma_root_spelling_injective(a.spec_semitone(), b.spec_semitone());
            assert(quality_spelling(p).len() == quality_spelling(q).len());
            assert(quality_spelling(p)[0] == quality_spelling(q)[0]);
            assert(quality_spelling(p).len() >= 3 ==> quality_spelling(p)[1] == quality_spelling(q)[1]);
            assert(p == q);
        },
        (ChordLabel::Silent, ChordLabel::Sounding(b, q)) => {
            assert(text.len() == 1);
        },
        (ChordLabel::Sounding(a, p), ChordLabel::Silent) => {
            assert(text.len() == 1);
        },
        _ => {},
    }
}

/// Two roots spelled with the same letter and the same length are one root.
proof fn lemma_root_spelling_injective(one: u8, other: u8)
    requires
        one < PITCH_CLASSES,
        other < PITCH_CLASSES,
        root_spelling(one)[0] == root_spelling(other)[0],
        root_spelling(one).len() == root_spelling(other).len(),
    ensures
        one == other,
{
}

/// Where a label spells `text`, it is the one [`label_of`] names.
pub proof fn lemma_label_of(text: Seq<u8>, label: ChordLabel)
    requires
        spells(text, label),
    ensures
        label_of(text) == Some(label),
{
    let chosen = choose|l: ChordLabel| spells(text, l);
    lemma_spelling_unique(text, label, chosen);
}

/// No spelling holds two colons' worth of text before its first colon.
proof fn lemma_colon_first(label: ChordLabel, text: Seq<u8>, colon: int)
    requires
        spells(text, label),
        label is Sounding,
        0 <= colon < text.len(),
        text[colon] == COLON,
        forall|i: int| 0 <= i < colon ==> text[i] != COLON,
    ensures
        colon == root_spelling(label->Sounding_0.spec_semitone()).len(),
{
    let root = root_spelling(label->Sounding_0.spec_semitone());
    assert(text[root.len() as int] == COLON);
    assert(forall|i: int| 0 <= i < root.len() ==> root[i] != COLON);
    assert(forall|i: int| 0 <= i < root.len() ==> text[i] == root[i]);
    if colon > root.len() {
        assert(text[root.len() as int] != COLON);
    }
}

/// What a label spells reads back as that label.
pub proof fn lemma_spelling_reads_back(label: ChordLabel)
    requires
        label_wf(label),
    ensures
        label_of(label_spelling(label)) == Some(label),
{
    lemma_label_of(label_spelling(label), label);
}

fn push_root(text: &mut Vec<u8>, semitone: u8)
    requires
        semitone < PITCH_CLASSES,
    ensures
        final(text)@ == old(text)@ + root_spelling(semitone),
{
    let letter = if semitone < 2 {
        UPPER_C
    } else if semitone < 4 {
        UPPER_D
    } else if semitone == 4 {
        UPPER_E
    } else if semitone < 7 {
        UPPER_F
    } else if semitone < 9 {
        UPPER_G
    } else if semitone < 11 {
        UPPER_A
    } else {
        UPPER_B
    };
    let ghost before = text@;
    text.push(letter);
    if semitone == 1 || semitone == 3 || semitone == 6 || semitone == 8 || semitone == 10 {
        text.push(SHARP);
    }
    assert(text@ =~= before + root_spelling(semitone));
}

fn push_quality(text: &mut Vec<u8>, quality: Quality)
    ensures
        final(text)@ == old(text)@ + quality_spelling(quality),
{
    let ghost before = text@;
    match quality {
        Quality::Maj => {
            text.push(LOWER_M);
            text.push(LOWER_A);
            text.push(LOWER_J);
        },
        Quality::Min => {
            text.push(LOWER_M);
            text.push(LOWER_I);
            text.push(LOWER_N);
        },
        Quality::Dim => {
            text.push(LOWER_D);
            text.push(LOWER_I);
            text.push(LOWER_M);
        },
        Quality::Aug => {
            text.push(LOWER_A);
            text.push(LOWER_U);
            text.push(LOWER_G);
        },
        Quality::Maj7 => {
            text.push(LOWER_M);
            text.push(LOWER_A);
            text.push(LOWER_J);
            text.push(DIGIT_SEVEN);
        },
        Quality::Min7 => {
            text.push(LOWER_M);
            text.push(LOWER_I);
            text.push(LOWER_N);
            text.push(DIGIT_SEVEN);
        },
        Quality::Dom7 => {
            text.push(DIGIT_SEVEN);
        },
    }
    assert(text@ =~= before + quality_spelling(quality));
}

impl ChordLabel {
    /// Read a label written the way [`ChordLabel`] describes.
    ///
    /// `None` where the text is neither `N` nor a root and quality this
    /// vocabulary holds, so a mis-spelled label fails the fixture rather than
    /// scoring against a chord nobody meant.
    pub fn parse(text: &str) -> (label: Option<Self>)
        ensures
            match label {
                Some(l) => spells(text.spec_bytes(), l),
                None => forall|l: ChordLabel| !spells(text.spec_bytes(), l),
            },
    {
        let bytes = text.as_bytes();
        Self::from_bytes(bytes)
    }

    /// How the label is written, as the bytes of its text: `N`, or the root,
    /// a colon and the quality. Reading it back gives the label again.
    pub fn spelled(&self) -> (text: Vec<u8>)
        ensures
            text@ == label_spelling(*self),
            label_wf(*self),
    {
        let mut text: Vec<u8> = Vec::new();
        match *self {
            ChordLabel::Silent => {
                text.push(UPPER_N);
                assert(text@ =~= label_spelling(*self));
            },
            ChordLabel::Sounding(root, quality) => {
                proof {
                    use_type_invariant(root);
                }
                push_root(&mut text, root.semitone());
                text.push(COLON);
                push_quality(&mut text, quality);
                assert(text@ =~= label_spelling(*self));
            },
        }
        text
    }

    /// Read a label from its bytes, as [`parse`](Self::parse) does.
    pub fn from_bytes(bytes: &[u8]) -> (label: Option<Self>)
        ensures
            match label {
                Some(l) => spells(bytes@, l),
                None => forall|l: ChordLabel| !spells(bytes@, l),
            },
    {
        if bytes.len() == 1 && bytes[0] == UPPER_N {
            assert(bytes@ =~= label_spelling(ChordLabel::Silent));
            return Some(Self::Silent);
        }
        let mut colon: usize = 0;
        while colon < bytes.len() && bytes[colon] != COLON
            invariant
                colon <= bytes@.len(),
                forall|i: int| 0 <= i < colon ==> bytes@[i] != COLON,
            decreases bytes@.len() - colon,
        {
            colon = colon + 1;
        }
        if colon == bytes.len() {
            assert forall|l: ChordLabel| !spells(bytes@, l) by {
                if spells(bytes@, l) {
                    match l {
                        ChordLabel::Silent => {},
                        ChordLabel::Sounding(root, q) => {
                            let at = root_spelling(root.spec_semitone()).len() as int;
                            assert(bytes@[at] == COLON);
                        },
                    }
                }
            }
            return None;
        }
        let root = root_named(bytes, 0, colon);
        let quality = quality_named(bytes, colon + 1);
        match (root, quality) {
            (Some(r), Some(q)) => {
                assert(bytes@ =~= bytes@.subrange(0, colon as int) + seq![COLON] + bytes@.subrange(
                    colon + 1,
                    bytes@.len() as int,
                ));
                Some(Self::Sounding(r, q))
            },
            _ => {
                assert forall|l: ChordLabel| !spells(bytes@, l) by {
                    if spells(bytes@, l) {
                        match l {
                            ChordLabel::Silent => {
                                assert(bytes@.len() == 1);
                                assert(bytes@[0] == UPPER_N);
                            },
                            ChordLabel::Sounding(rr, qq) => {
                                lemma_colon_first(l, bytes@, colon as int);
                                let rs = root_spelling(rr.spec_semitone());
                                assert(bytes@.subrange(0, colon as int) =~= rs);
                                assert(bytes@.subrange(colon + 1, bytes@.len() as int)
                                    =~= quality_spelling(qq));
                            },
                        }
                    }
                }
                None
            },
        }
    }
}

/// One annotated chord: what sounds, and over what span.
///
/// # Format
///
/// One entry per line, `<seconds> chord <label>`. An entry runs until the next
/// one, so the last must be `N`.
#[derive(Debug, Clone, Copy, PartialEq, Eq)]
pub struct Chord {
    /// What sounds over the span.
    pub label: ChordLabel,
    /// Where it starts, measured from the start of the audio.
    pub from: Duration,
    /// Where it stops, which is where the next entry starts.
    pub to: Duration,
}

/// How much of a chord label two sides must agree on for the time to count,
/// at the comparison levels `mir_eval` scores chords at.
#[derive(Debug, Clone, Copy, PartialEq, Eq, Structural)]
pub enum Comparison {
    /// The roots agree, whatever is stacked over them.
    Root,
    /// The roots agree, and the third is major in both or minor in both.
    Thirds,
    /// The roots agree, and so does the whole quality, seventh included.
    Sevenths,
}

/// Whether a quality stacks a major third.
pub open spec fn major_third(quality: Quality) -> bool {
    quality is Maj || quality is Aug || quality is Maj7 || quality is Dom7
}

/// Whether `detected` counts as having found `annotated` at `comparison`.
pub open spec fn labels_agree(comparison: Comparison, annotated: ChordLabel, detected: ChordLabel) -> bool {
    match (annotated, detected) {
        (ChordLabel::Silent, ChordLabel::Silent) => true,
        (ChordLabel::Sounding(heard, quality), ChordLabel::Sounding(root, over)) => heard == root
            && match comparison {
            Comparison::Root => true,
            Comparison::Thirds => major_third(quality) == major_third(over),
            Comparison::Sevenths => quality == over,
        },
        _ => false,
    }
}

impl Comparison {
    /// Whether `detected` counts as having found `annotated` at this level.
    ///
    /// Silence agrees only with silence: naming a chord where the ground truth
    /// names none is wrong at every level, and so is the reverse.
    pub fn agree(self, annotated: ChordLabel, detected: ChordLabel) -> (agreed: bool)
        ensures
            agreed == labels_agree(self, annotated, detected),
    {
        match (annotated, detected) {
            (ChordLabel::Silent, ChordLabel::Silent) => true,
            (ChordLabel::Sounding(heard, quality), ChordLabel::Sounding(root, over)) => {
                heard == root && self.qualities_agree(quality, over)
            },
            _ => false,
        }
    }

    fn qualities_agree(self, annotated: Quality, detected: Quality) -> (agreed: bool)
        ensures
            agreed == match self {
                Comparison::Root => true,
                Comparison::Thirds => major_third(annotated) == major_third(detected),
                Comparison::Sevenths => annotated == detected,
            },
    {
        match self {
            Self::Root => true,
            Self::Thirds => third_is_major(annotated) == third_is_major(detected),
            Self::Sevenths => annotated == detected,
        }
    }
}

fn third_is_major(quality: Quality) -> (major: bool)
    ensures
        major == major_third(quality),
{
    match quality {
        Quality::Maj | Quality::Aug | Quality::Maj7 | Quality::Dom7 => true,
        Quality::Min | Quality::Dim | Quality::Min7 => false,
    }
}

/// A chord as its scorer reads it: label, start and end in nanoseconds.
pub open spec fn chord_view(chord: Chord) -> (ChordLabel, int, int) {
    (chord.label, duration_nanos(chord.from) as int, duration_nanos(chord.to) as int)
}

/// Chords as their scorer reads them.
pub open spec fn views_of(chords: Seq<Chord>) -> Seq<(ChordLabel, int, int)> {
    chords.map_values(|c: Chord| chord_view(c))
}

/// How long a span runs, and nothing where it ends before it starts.
pub open spec fn span_nanos(chord: (ChordLabel, int, int)) -> int {
    if chord.2 >= chord.1 { chord.2 - chord.1 } else { 0 }
}

/// How long two spans share.
pub open spec fn overlap_nanos(one: (ChordLabel, int, int), other: (ChordLabel, int, int)) -> int {
    let from = if one.1 >= other.1 { one.1 } else { other.1 };
    let to = if one.2 <= other.2 { one.2 } else { other.2 };
    if to >= from { to - from } else { 0 }
}

/// Whether a candidate in `detected` whose label agrees with `truth`'s at
/// `comparison` sounds at instant `at`.
pub open spec fn agreed_at(
    truth: (ChordLabel, int, int),
    detected: Seq<(ChordLabel, int, int)>,
    comparison: Comparison,
    at: int,
) -> bool {
    exists|index: int|
        0 <= index < detected.len() && #[trigger] agrees_over(truth, detected[index], comparison, at)
}

/// Whether `candidate` agrees with `truth` at `comparison` and sounds at `at`.
pub open spec fn agrees_over(
    truth: (ChordLabel, int, int),
    candidate: (ChordLabel, int, int),
    comparison: Comparison,
    at: int,
) -> bool {
    &&& labels_agree(comparison, truth.0, candidate.0)
    &&& candidate.1 <= at < candidate.2
}

/// How many nanoseconds from `from` up to `to` some agreeing candidate sounds
/// at: the measure of the union of the agreeing candidates over that stretch.
pub open spec fn covered_nanos(
    truth: (ChordLabel, int, int),
    detected: Seq<(ChordLabel, int, int)>,
    comparison: Comparison,
    from: int,
    to: int,
) -> int
    decreases to - from,
{
    if to <= from {
        0
    } else {
        covered_nanos(truth, detected, comparison, from, to - 1) + if agreed_at(
            truth,
            detected,
            comparison,
            to - 1,
        ) {
            1int
        } else {
            0
        }
    }
}

/// What each annotated span contributes: the time within it that an agreeing
/// candidate overlaps, however many candidates overlap it at once.
pub open spec fn credited_nanos(
    truth: (ChordLabel, int, int),
    detected: Seq<(ChordLabel, int, int)>,
    comparison: Comparison,
) -> int {
    covered_nanos(truth, detected, comparison, truth.1, truth.2)
}

/// The agreed time over every annotated span.
pub open spec fn agreed_nanos(
    annotated: Seq<(ChordLabel, int, int)>,
    detected: Seq<(ChordLabel, int, int)>,
    comparison: Comparison,
) -> int
    decreases annotated.len(),
{
    if annotated.len() == 0 {
        0
    } else {
        agreed_nanos(annotated.drop_last(), detected, comparison) + credited_nanos(
            annotated.last(),
            detected,
            comparison,
        )
    }
}

/// The length of every annotated span, summed.
pub open spec fn total_nanos(annotated: Seq<(ChordLabel, int, int)>) -> int
    decreases annotated.len(),
{
    if annotated.len() == 0 {
        0
    } else {
        total_nanos(annotated.drop_last()) + span_nanos(annotated.last())
    }
}

/// Whether scoring `annotated` stays inside what a [`Duration`] holds: the
/// annotated time as a whole, past which adding another span overflows.
pub open spec fn scorable(annotated: Seq<(ChordLabel, int, int)>) -> bool {
    total_nanos(annotated) <= max_nanos()
}

/// Agreed time is credited at most at each span's length.
pub proof fn lemma_agreed_within_total(
    annotated: Seq<(ChordLabel, int, int)>,
    detected: Seq<(ChordLabel, int, int)>,
    comparison: Comparison,
)
    ensures
        0 <= agreed_nanos(annotated, detected, comparison) <= total_nanos(annotated),
    decreases annotated.len(),
{
    if annotated.len() > 0 {
        lemma_agreed_within_total(annotated.drop_last(), detected, comparison);
        let last = annotated.last();
        lemma_covered_within(last, detected, comparison, last.1, last.2);
    }
}

proof fn lemma_covered_within(
    truth: (ChordLabel, int, int),
    detected: Seq<(ChordLabel, int, int)>,
    comparison: Comparison,
    from: int,
    to: int,
)
    ensures
        0 <= covered_nanos(truth, detected, comparison, from, to) <= if to >= from {
            to - from
        } else {
            0
        },
    decreases to - from,
{
    if to > from {
        lemma_covered_within(truth, detected, comparison, from, to - 1);
    }
}

/// Over a stretch from `cursor` to `end` where every instant is covered, or
/// none is, the covered time from `from` grows by the stretch, or not at all.
proof fn lemma_covered_run(
    truth: (ChordLabel, int, int),
    detected: Seq<(ChordLabel, int, int)>,
    comparison: Comparison,
    from: int,
    cursor: int,
    end: int,
    full: bool,
)
    requires
        from <= cursor <= end,
        forall|at: int| cursor <= at < end ==> agreed_at(truth, detected, comparison, at) == full,
    ensures
        covered_nanos(truth, detected, comparison, from, end) == covered_nanos(
            truth,
            detected,
            comparison,
            from,
            cursor,
        ) + if full {
            end - cursor
        } else {
            0
        },
    decreases end - cursor,
{
    if end > cursor {
        lemma_covered_run(truth, detected, comparison, from, cursor, end - 1, full);
        assert(agreed_at(truth, detected, comparison, end - 1) == full);
    }
}

proof fn lemma_total_prefix(annotated: Seq<(ChordLabel, int, int)>, count: int)
    requires
        0 <= count <= annotated.len(),
    ensures
        0 <= total_nanos(annotated.take(count)) <= total_nanos(annotated),
    decreases annotated.len(),
{
    if count < annotated.len() {
        assert(annotated.drop_last().take(count) =~= annotated.take(count));
        lemma_total_prefix(annotated.drop_last(), count);
    } else {
        assert(annotated.take(count) =~= annotated);
    }
    lemma_total_nonnegative(annotated);
    lemma_total_nonnegative(annotated.take(count));
}

proof fn lemma_total_nonnegative(annotated: Seq<(ChordLabel, int, int)>)
    ensures
        total_nanos(annotated) >= 0,
    decreases annotated.len(),
{
    if annotated.len() > 0 {
        lemma_total_nonnegative(annotated.drop_last());
    }
}

/// How much of an annotated passage a candidate labelled correctly.
///
/// A share of time rather than of chords: a wrong label over a bar costs more
/// than one over a beat.
#[derive(Debug, Clone, Copy, PartialEq, Eq)]
pub struct Agreement {
    agreed: Duration,
    total: Duration,
}

impl Agreement {
    /// The agreed time, in nanoseconds.
    pub closed spec fn spec_agreed(self) -> int {
        duration_nanos(self.agreed) as int
    }

    /// The annotated time, in nanoseconds.
    pub closed spec fn spec_total(self) -> int {
        duration_nanos(self.total) as int
    }

    /// Score the spans in `detected` against the ground truth in `annotated`,
    /// counting time the two agree over at `comparison`.
    ///
    /// A span agrees for as long as an agreeing candidate overlaps it: where
    /// agreeing candidates overlap each other the time counts once, so they
    /// never score above the span itself.
    pub fn of(annotated: &[Chord], detected: &[Chord], comparison: Comparison) -> (agreement: Self)
        requires
            scorable(annotated@.map_values(|c: Chord| chord_view(c))),
        ensures
            agreement.spec_agreed() == agreed_nanos(
                annotated@.map_values(|c: Chord| chord_view(c)),
                detected@.map_values(|c: Chord| chord_view(c)),
                comparison,
            ),
            agreement.spec_total() == total_nanos(annotated@.map_values(|c: Chord| chord_view(c))),
    {
        let ghost truths = annotated@.map_values(|c: Chord| chord_view(c));
        let ghost candidates = detected@.map_values(|c: Chord| chord_view(c));
        let mut agreed: u128 = 0;
        let mut total: u128 = 0;
        let mut done: usize = 0;
        proof {
            lemma_agreed_within_total(truths, candidates, comparison);
        }
        while done < annotated.len()
            invariant
                done <= annotated@.len(),
                truths == annotated@.map_values(|c: Chord| chord_view(c)),
                candidates == detected@.map_values(|c: Chord| chord_view(c)),
                scorable(truths),
                agreed == agreed_nanos(truths.take(done as int), candidates, comparison),
                total == total_nanos(truths.take(done as int)),
            decreases annotated@.len() - done,
        {
            let truth = &annotated[done];
            assert(truths.take(done as int + 1).drop_last() =~= truths.take(done as int));
            proof {
                lemma_total_prefix(truths, done as int + 1);
                lemma_agreed_within_total(truths.take(done as int + 1), candidates, comparison);
            }
            let from = nanos_of(truth.from);
            let to = nanos_of(truth.to);
            let span = if to >= from { to - from } else { 0 };
            let credited = heard_by(truth, detected, comparison);
            proof {
                lemma_covered_within(truths[done as int], candidates, comparison, from as int, to as int);
            }
            agreed = agreed + credited;
            total = total + span;
            done = done + 1;
        }
        assert(truths.take(annotated@.len() as int) =~= truths);
        proof {
            lemma_agreed_within_total(truths, candidates, comparison);
        }
        Self { agreed: from_total_nanos(agreed), total: from_total_nanos(total) }
    }

    /// How much of the annotated passage the candidate labelled correctly.
    pub fn agreed(&self) -> (agreed: Duration)
        ensures
            duration_nanos(agreed) == self.spec_agreed(),
    {
        self.agreed
    }

    /// How much passage the ground truth covers.
    pub fn total(&self) -> (total: Duration)
        ensures
            duration_nanos(total) == self.spec_total(),
    {
        self.total
    }
}

/// How long within `truth`'s span an agreeing candidate of `detected`
/// sounds: walked from the start of the span, taking each stretch a candidate
/// covers in one step, and jumping each gap to where the next one starts.
fn heard_by(truth: &Chord, detected: &[Chord], comparison: Comparison) -> (heard: u128)
    ensures
        heard == credited_nanos(
            chord_view(*truth),
            detected@.map_values(|c: Chord| chord_view(c)),
            comparison,
        ),
{
    let ghost view = chord_view(*truth);
    let ghost candidates = detected@.map_values(|c: Chord| chord_view(c));
    let from = nanos_of(truth.from);
    let to = nanos_of(truth.to);
    if to <= from {
        return 0;
    }
    let mut heard: u128 = 0;
    let mut cursor: u128 = from;
    while cursor < to
        invariant
            candidates == detected@.map_values(|c: Chord| chord_view(c)),
            view == chord_view(*truth),
            from == view.1,
            to == view.2,
            from <= cursor <= to,
            heard == covered_nanos(view, candidates, comparison, from as int, cursor as int),
            heard <= cursor - from,
        decreases to - cursor,
    {
        let (reach, next) = reach_from(truth, detected, comparison, cursor);
        assert(views_of(detected@) == candidates);
        match reach {
            Some(end) => {
                let stop = if end <= to { end } else { to };
                proof {
                    lemma_covered_run(view, candidates, comparison, from as int, cursor as int, stop as int, true);
                }
                heard = heard + (stop - cursor);
                cursor = stop;
            },
            None => {
                proof {
                    lemma_covered_run(view, candidates, comparison, from as int, cursor as int, next as int, false);
                }
                cursor = next;
            },
        }
    }
    heard
}

/// From instant `cursor` of `truth`'s span: how far an agreeing candidate
/// sounding at `cursor` runs, if one does, and otherwise where the next
/// agreeing candidate starts, or the end of the span where none does.
fn reach_from(truth: &Chord, detected: &[Chord], comparison: Comparison, cursor: u128) -> (found: (
    Option<u128>,
    u128,
))
    requires
        cursor < duration_nanos(truth.to),
    ensures
        match found.0 {
            Some(end) => end > cursor && forall|at: int|
                cursor <= at < end ==> #[trigger] agreed_at(
                    chord_view(*truth),
                    views_of(detected@),
                    comparison,
                    at,
                ),
            None => cursor < found.1 <= duration_nanos(truth.to) && forall|at: int|
                cursor <= at < found.1 ==> !#[trigger] agreed_at(
                    chord_view(*truth),
                    views_of(detected@),
                    comparison,
                    at,
                ),
        },
{
    let ghost view = chord_view(*truth);
    let ghost candidates = views_of(detected@);
    let mut reach: Option<u128> = None;
    let mut next: u128 = nanos_of(truth.to);
    let ghost mut witness: int = 0;
    let mut index: usize = 0;
    while index < detected.len()
        invariant
            index <= detected@.len(),
            candidates == views_of(detected@),
            view == chord_view(*truth),
            cursor < next <= view.2,
            match reach {
                Some(end) => 0 <= witness < candidates.len() && agrees_over(
                    view,
                    candidates[witness],
                    comparison,
                    cursor as int,
                ) && candidates[witness].2 == end,
                None => forall|k: int|
                    0 <= k < index ==> !#[trigger] agrees_over(view, candidates[k], comparison, cursor as int),
            },
            forall|k: int|
                0 <= k < index && labels_agree(comparison, view.0, #[trigger] candidates[k].0) && candidates[k].1
                    > cursor ==> candidates[k].1 >= next,
        decreases detected@.len() - index,
    {
        let candidate = &detected[index];
        if comparison.agree(truth.label, candidate.label) {
            let starts = nanos_of(candidate.from);
            let ends = nanos_of(candidate.to);
            if starts <= cursor && cursor < ends {
                if reach.is_none() {
                    reach = Some(ends);
                    proof {
                        witness = index as int;
                    }
                }
            } else if starts > cursor && starts < next {
                next = starts;
            }
        }
        index = index + 1;
    }
    proof {
        match reach {
            Some(end) => {
                assert forall|at: int| cursor <= at < end implies #[trigger] agreed_at(
                    view,
                    candidates,
                    comparison,
                    at,
                ) by {
                    assert(agrees_over(view, candidates[witness], comparison, at));
                }
            },
            None => {
                assert forall|at: int| cursor <= at < next implies !#[trigger] agreed_at(
                    view,
                    candidates,
                    comparison,
                    at,
                ) by {
                    assert forall|k: int| 0 <= k < candidates.len() implies !#[trigger] agrees_over(
                        view,
                        candidates[k],
                        comparison,
                        at,
                    ) by {
                        assert(!agrees_over(view, candidates[k], comparison, cursor as int));
                        if labels_agree(comparison, view.0, candidates[k].0) && candidates[k].1 > cursor {
                            assert(candidates[k].1 >= next);
                        }
                    }
                }
            },
        }
    }
    (reach, next)
}

} // verus!
