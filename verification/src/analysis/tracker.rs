//! What a manual looper knows about a take, the pulses a grid may be placed at,
//! and the beats a grid found.
//!
//! Placing a grid is a search that scores onset strength, which is arithmetic
//! on floating point and is done where the envelope is. What is decided on
//! spans of time alone — which pulses divide a take, which beats begin a bar —
//! is here.

use std::time::Duration;
use vstd::prelude::*;

use crate::time::{duration_nanos, from_total_nanos, max_nanos, nanos_of, NANOS_PER_SECOND};

verus! {

/// The shortest period a grid is placed at, in nanoseconds: a beat at 200 BPM,
/// the fastest pulse a hand-played loop falls inside.
pub const BRISKEST_NANOS: u64 = 300_000_000;

/// The longest period a grid is placed at, in nanoseconds: a beat at 60 BPM,
/// the slowest pulse a hand-played loop falls inside.
pub const SLOWEST_NANOS: u64 = 1_000_000_000;

/// How many beats go to a bar where nothing says: four.
pub const ASSUMED_BAR: usize = 4;

/// What a manual looper knows about a take that a beat tracker does not.
///
/// The player closed the loop, so its length is a fact rather than an
/// estimate, and a pulse has to divide it into a whole number of beats. How
/// many of those go to a bar is the other half, and it is optional, with
/// [`ASSUMED_BAR`] standing in.
#[derive(Debug, Clone, Copy, PartialEq, Eq)]
pub struct Priors {
    length: Option<Duration>,
    beats_per_bar: Option<usize>,
}

impl Priors {
    /// The length the player closed the loop at, where it is known.
    pub closed spec fn spec_length(self) -> Option<Duration> {
        self.length
    }

    /// How many beats go to a bar, where something said.
    pub closed spec fn spec_beats_per_bar(self) -> Option<usize> {
        self.beats_per_bar
    }

    /// How many beats a bar is counted in: what was said, or [`ASSUMED_BAR`].
    pub open spec fn spec_bar(self) -> usize {
        match self.spec_beats_per_bar() {
            Some(beats) => beats,
            None => ASSUMED_BAR,
        }
    }

    #[verifier::type_invariant]
    spec fn a_bar_holds_a_beat(self) -> bool {
        self.beats_per_bar matches Some(beats) ==> beats > 0
    }

    /// Knowing nothing about the take, as a general beat tracker has it.
    pub fn blind() -> (priors: Self)
        ensures
            priors.spec_length() is None,
            priors.spec_beats_per_bar() is None,
    {
        Self { length: None, beats_per_bar: None }
    }

    /// Knowing that the take is `length` long and repeats there.
    pub fn of_take(length: Duration) -> (priors: Self)
        ensures
            priors.spec_length() == Some(length),
            priors.spec_beats_per_bar() is None,
    {
        Self { length: Some(length), beats_per_bar: None }
    }

    /// Also knowing that a bar is `beats_per_bar` beats.
    ///
    /// A bar of no beats is not a bar, so it is refused and [`ASSUMED_BAR`] is
    /// used instead.
    pub fn with_meter(self, beats_per_bar: usize) -> (priors: Self)
        ensures
            priors.spec_length() == self.spec_length(),
            priors.spec_beats_per_bar() == if beats_per_bar > 0 {
                Some(beats_per_bar)
            } else {
                None
            },
    {
        Self { length: self.length, beats_per_bar: if beats_per_bar > 0 { Some(beats_per_bar) } else { None } }
    }

    /// How many beats a bar is counted in, which is never none.
    pub fn bar(&self) -> (beats: usize)
        ensures
            beats == self.spec_bar(),
            beats > 0,
    {
        proof {
            use_type_invariant(self);
        }
        match self.beats_per_bar {
            Some(beats) => beats,
            None => ASSUMED_BAR,
        }
    }

    /// The length the player closed the loop at, where it is known.
    pub fn length(&self) -> (length: Option<Duration>)
        ensures
            length == self.spec_length(),
    {
        self.length
    }
}

/// A pulse a grid may be placed at: its period, and how many beats of it the
/// take holds where the take's length is known.
#[derive(Debug, Clone, Copy, PartialEq, Eq)]
pub struct Candidate {
    /// How far apart its beats fall.
    pub period: Duration,
    /// How many beats of it fill the take, where the take's length is known.
    pub beats: Option<usize>,
}

/// A span of `nanos` divided into `parts`, as [`Duration`] divides: the whole
/// seconds first, and what they leave carried into the nanoseconds.
pub open spec fn divided_nanos(nanos: int, parts: int) -> int {
    let seconds = nanos / (NANOS_PER_SECOND as int);
    let rest = nanos % (NANOS_PER_SECOND as int);
    let whole = seconds / parts;
    let carry = seconds - whole * parts;
    whole * (NANOS_PER_SECOND as int) + rest / parts + (carry * (NANOS_PER_SECOND as int)) / parts
}

/// The pulses that divide a take of `length` nanoseconds into a whole number
/// of beats, among one to `count` beats, keeping those whose beat is no shorter
/// than [`BRISKEST_NANOS`] and no longer than [`SLOWEST_NANOS`]: each as its
/// beat count and its period, fewest beats first.
pub open spec fn divisions(length: int, count: int) -> Seq<(int, int)>
    decreases count,
{
    if count < 1 {
        Seq::empty()
    } else {
        let earlier = divisions(length, count - 1);
        let period = divided_nanos(length, count);
        if period >= BRISKEST_NANOS && period <= SLOWEST_NANOS {
            earlier.push((count, period))
        } else {
            earlier
        }
    }
}

/// A candidate as the pulses it stands for read: its beat count, and its period
/// in nanoseconds.
pub open spec fn candidate_view(candidate: Candidate) -> (int, int) {
    (
        match candidate.beats {
            Some(beats) => beats as int,
            None => -1,
        },
        duration_nanos(candidate.period) as int,
    )
}

/// The candidates of a run, as the pulses they stand for read.
pub open spec fn candidates_view(candidates: Seq<Candidate>) -> Seq<(int, int)> {
    candidates.map_values(|candidate: Candidate| candidate_view(candidate))
}

/// How many beats of the briskest pulse a take of `length` nanoseconds holds,
/// counted no further than a `u32` counts.
pub open spec fn briskest_count(length: int) -> int {
    if length / (BRISKEST_NANOS as int) <= u32::MAX {
        length / (BRISKEST_NANOS as int)
    } else {
        u32::MAX as int
    }
}

/// A span divided into parts, counted in nanoseconds, as [`Duration`] divides
/// it.
pub fn divide(nanos: u128, parts: u32) -> (divided: u128)
    requires
        parts > 0,
        nanos <= max_nanos(),
    ensures
        divided == divided_nanos(nanos as int, parts as int),
        divided <= nanos,
{
    let second = NANOS_PER_SECOND as u128;
    let seconds = nanos / second;
    let rest = nanos % second;
    let whole = seconds / parts as u128;
    assert(whole * parts <= seconds) by (nonlinear_arith)
        requires
            whole == (seconds as int) / (parts as int),
            parts > 0,
            seconds >= 0,
    ;
    let carry = seconds - whole * parts as u128;
    assert(carry < parts) by (nonlinear_arith)
        requires
            whole == (seconds as int) / (parts as int),
            carry == seconds - whole * parts,
            parts > 0,
    ;
    let divided = whole * second + rest / parts as u128 + carry * second / parts as u128;
    assert(divided <= nanos) by (nonlinear_arith)
        requires
            seconds == nanos / 1_000_000_000u128,
            rest == nanos % 1_000_000_000u128,
            whole == (seconds as int) / (parts as int),
            carry == seconds - whole * parts,
            0 <= carry < parts,
            parts > 0,
            divided == whole * 1_000_000_000 + (rest as int) / (parts as int) + (carry * 1_000_000_000)
                / (parts as int),
    ;
    divided
}

/// The pulses that divide a take of `length` into a whole number of beats no
/// shorter than [`BRISKEST_NANOS`] and no longer than [`SLOWEST_NANOS`]: the
/// take as one beat, as two, and so on, in that order.
///
/// A take holding more than `u32::MAX` of the briskest beats counts them no
/// further than that.
pub fn dividing(length: Duration) -> (candidates: Vec<Candidate>)
    ensures
        candidates_view(candidates@) == divisions(
            duration_nanos(length) as int,
            briskest_count(duration_nanos(length) as int),
        ),
{
    let nanos = nanos_of(length);
    let most = nanos / BRISKEST_NANOS as u128;
    let until: u32 = if most <= u32::MAX as u128 { most as u32 } else { u32::MAX };
    let mut kept: Vec<Candidate> = Vec::new();
    let mut beats: u32 = 1;
    assert(candidates_view(kept@) =~= divisions(nanos as int, 0));
    while beats <= until
        invariant
            1 <= beats,
            beats <= until + 1,
            nanos == duration_nanos(length),
            nanos <= max_nanos(),
            until == briskest_count(nanos as int),
            candidates_view(kept@) == divisions(nanos as int, beats - 1),
        decreases until + 1 - beats,
    {
        let period = divide(nanos, beats);
        if period >= BRISKEST_NANOS as u128 && period <= SLOWEST_NANOS as u128 {
            let ghost before = kept@;
            let candidate = Candidate { period: from_total_nanos(period), beats: Some(beats as usize) };
            kept.push(candidate);
            assert(candidates_view(kept@) =~= candidates_view(before).push(candidate_view(candidate)));
        }
        if beats == until {
            return kept;
        }
        beats = beats + 1;
    }
    kept
}

/// How far apart an envelope's strengths are when each is measured over
/// `per_hop` frames at `sample_rate`: that many frames' worth of nanoseconds,
/// rounded down, and never less than one.
pub fn hop_of(per_hop: usize, sample_rate: u32) -> (hop: Duration)
    requires
        sample_rate > 0,
        per_hop * NANOS_PER_SECOND <= u64::MAX,
    ensures
        duration_nanos(hop) == if per_hop * NANOS_PER_SECOND / (sample_rate as int) >= 1 {
            per_hop * NANOS_PER_SECOND / (sample_rate as int)
        } else {
            1
        },
{
    let nanos = per_hop as u64 * NANOS_PER_SECOND / sample_rate as u64;
    from_total_nanos(if nanos >= 1 { nanos as u128 } else { 1 })
}

/// How many whole hops of `hop` fit in `span`, counted in the low 32 bits.
pub fn frames_in(span: Duration, hop: Duration) -> (frames: u32)
    requires
        duration_nanos(hop) > 0,
    ensures
        frames == ((duration_nanos(span) as int) / (duration_nanos(hop) as int)) as u32,
{
    (nanos_of(span) / nanos_of(hop)) as u32
}

/// The beats found in a take, and where its bars begin.
///
/// The beats are timestamps from the start of the take and nothing here is a
/// tempo: what the take was played at is arithmetic over these.
#[derive(Debug, PartialEq)]
pub struct TrackedGrid {
    beats: Vec<Duration>,
    beats_per_bar: usize,
    downbeat: usize,
}

/// Every `step`-th of `beats` from the one at `first` on.
pub open spec fn every_from(beats: Seq<Duration>, first: int, step: int) -> Seq<Duration> {
    Seq::new(
        if first < beats.len() { ((beats.len() - first + step - 1) / step) as nat } else { 0 },
        |index: int| beats[first + index * step],
    )
}

impl TrackedGrid {
    /// Every beat found.
    pub closed spec fn spec_beats(&self) -> Seq<Duration> {
        self.beats@
    }

    /// How many beats a bar was counted in.
    pub closed spec fn spec_beats_per_bar(&self) -> usize {
        self.beats_per_bar
    }

    /// Which beat the first bar begins on.
    pub closed spec fn spec_downbeat(&self) -> usize {
        self.downbeat
    }

    #[verifier::type_invariant]
    spec fn a_bar_holds_a_beat(&self) -> bool {
        self.beats_per_bar > 0
    }

    /// The grid of `beats` placed under `priors`, its first bar beginning on
    /// the beat at `downbeat`.
    pub fn placed(beats: Vec<Duration>, priors: Priors, downbeat: usize) -> (found: Self)
        ensures
            found.spec_beats() == beats@,
            found.spec_beats_per_bar() == priors.spec_bar(),
            found.spec_downbeat() == downbeat,
    {
        Self { beats, beats_per_bar: priors.bar(), downbeat }
    }

    /// Every beat, in the order they fall.
    pub fn beats(&self) -> (beats: &[Duration])
        ensures
            beats@ == self.spec_beats(),
    {
        self.beats.as_slice()
    }

    /// The beats that begin a bar, which are every
    /// [`beats_per_bar`](Self::beats_per_bar)-th of them from the first
    /// downbeat on.
    pub fn downbeats(&self) -> (downbeats: Vec<Duration>)
        ensures
            downbeats@ == every_from(
                self.spec_beats(),
                self.spec_downbeat() as int,
                self.spec_beats_per_bar() as int,
            ),
    {
        proof {
            use_type_invariant(self);
        }
        let step = self.beats_per_bar;
        let first = self.downbeat;
        let length = self.beats.len();
        let count = if first < length { (length - first - 1) / step + 1 } else { 0 };
        proof {
            if first < length {
                lemma_ceiling(length - first, step as int);
            }
        }
        let mut downbeats: Vec<Duration> = Vec::new();
        let mut index: usize = 0;
        while index < count
            invariant
                step == self.beats_per_bar,
                step > 0,
                first == self.downbeat,
                length == self.beats@.len(),
                count == (if first < length { ((length - first + step - 1) / (step as int)) as nat } else { 0 }),
                index <= count,
                downbeats@.len() == index,
                forall|i: int| 0 <= i < index ==> #[trigger] downbeats@[i] == self.beats@[first + i * step],
            decreases count - index,
        {
            proof {
                lemma_step_inside(first as int, index as int, step as int, length as int, count as int);
            }
            let at = first + index * step;
            downbeats.push(self.beats[at]);
            index = index + 1;
        }
        assert(downbeats@ =~= every_from(self.beats@, first as int, step as int));
        downbeats
    }

    /// Another grid holding the same beats, counted the same way.
    pub fn duplicate(&self) -> (copy: Self)
        ensures
            copy.spec_beats() == self.spec_beats(),
            copy.spec_beats_per_bar() == self.spec_beats_per_bar(),
            copy.spec_downbeat() == self.spec_downbeat(),
    {
        proof {
            use_type_invariant(self);
        }
        let mut beats: Vec<Duration> = Vec::new();
        let mut index: usize = 0;
        while index < self.beats.len()
            invariant
                index <= self.beats@.len(),
                beats@ == self.beats@.take(index as int),
            decreases self.beats@.len() - index,
        {
            beats.push(self.beats[index]);
            index = index + 1;
            assert(beats@ =~= self.beats@.take(index as int));
        }
        assert(self.beats@.take(self.beats@.len() as int) =~= self.beats@);
        Self { beats, beats_per_bar: self.beats_per_bar, downbeat: self.downbeat }
    }

    /// How many beats the bars were counted in.
    pub fn beats_per_bar(&self) -> (beats: usize)
        ensures
            beats == self.spec_beats_per_bar(),
    {
        self.beats_per_bar
    }
}

proof fn lemma_ceiling(span: int, step: int)
    requires
        span > 0,
        step > 0,
    ensures
        (span - 1) / step + 1 == (span + step - 1) / step,
{
    assert((span - 1) / step + 1 == (span + step - 1) / step) by (nonlinear_arith)
        requires
            span > 0,
            step > 0,
    {
        vstd::arithmetic::div_mod::lemma_div_plus_one(span - 1, step);
    }
}

proof fn lemma_step_inside(first: int, index: int, step: int, length: int, count: int)
    requires
        step > 0,
        first >= 0,
        0 <= index < count,
        count == (if first < length { (length - first + step - 1) / step } else { 0 }),
    ensures
        first + index * step < length,
{
    assert(first + index * step < length) by (nonlinear_arith)
        requires
            step > 0,
            first >= 0,
            0 <= index,
            index < count,
            count == (if first < length { (length - first + step - 1) / step } else { 0 }),
    ;
}

} // verus!
