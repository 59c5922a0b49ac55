//! The shape of the loop, published from the thread that owns it to the thread
//! that draws it.
//!
//! Samples themselves cannot cross: the loop is megabytes, and neither a lock
//! nor a copy per drawn frame is available. What crosses is a fixed number of
//! buckets, each the peak and trough of a span of the loop packed into one
//! word, with the width of a bucket in frames and the length of the loop.
//!
//! The buckets cannot cross in one store, so a count either side of the stores
//! is what makes a summary arrive whole: odd while a publish is under way, and
//! moved on by two once it is done. A read that finds the count odd, or finds
//! it moved by the time it has read, caught a publish and is taken again.

use std::sync::Arc;
use std::sync::atomic::{fence, AtomicU32, AtomicU64, AtomicUsize, Ordering};
use vstd::prelude::*;

verus! {

/// How many buckets a summary holds.
pub const BUCKETS: usize = 128;

/// Whether `width` is a power of two.
pub open spec fn is_power_of_two(width: nat) -> bool
    decreases width,
{
    width == 1 || (width >= 2 && width % 2 == 0 && is_power_of_two(width / 2))
}

/// How many frames a bucket spans once the loop is `length` frames long: the
/// narrowest power of two at which the buckets cover the whole loop, so a
/// bucket widens by folding whole buckets together.
pub fn bucket_width(length: usize) -> (width: usize)
    requires
        length <= usize::MAX / 2,
    ensures
        width >= 1,
        is_power_of_two(width as nat),
        width * BUCKETS >= length,
        width == 1 || (width / 2) * BUCKETS < length,
{
    let mut width: usize = 1;
    while width * BUCKETS < length
        invariant
            width >= 1,
            is_power_of_two(width as nat),
            width == 1 || (width / 2) * BUCKETS < length,
            width * BUCKETS <= 2 * length + BUCKETS,
            length <= usize::MAX / 2,
        decreases length - width,
    {
        width = width * 2;
    }
    width
}

/// Which buckets column `at` of `columns` covers, as its first bucket and the
/// bucket past its last, when `buckets` are spread over the columns.
pub fn covered(at: usize, buckets: usize, columns: usize) -> (range: (usize, usize))
    requires
        at < columns,
        (at + 1) * buckets <= usize::MAX,
    ensures
        range.0 == (at * buckets) as int / columns as int,
        range.1 == ((at + 1) * buckets) as int / columns as int,
{
    proof {
        assert(at * buckets <= (at + 1) * buckets) by (nonlinear_arith);
    }
    (at * buckets / columns, (at + 1) * buckets / columns)
}

struct Published {
    sequence: AtomicU32,
    buckets: Vec<AtomicU64>,
    width: AtomicUsize,
    length: AtomicUsize,
}

/// A summary as it crosses: each bucket's peak and trough packed into one
/// word, how many frames a bucket spans, and how many frames the loop holds.
#[derive(Debug, Clone, PartialEq, Eq)]
pub struct WaveformWords {
    /// The packed buckets, [`BUCKETS`] of them, from the loop's first frame.
    pub buckets: Vec<u64>,
    /// How many frames each bucket spans.
    pub width: usize,
    /// How many frames the loop holds.
    pub length: usize,
}

/// The sequence mark a summary is published under after the one at
/// `sequence`: two on, round the word, past the odd mark a publish under way
/// stands at.
pub open spec fn marked_after(sequence: u32) -> u32 {
    ((sequence + 2) % 0x1_0000_0000) as u32
}

/// What a read makes of the summary `words` it took between the sequence
/// marks `before` and `after`: the summary where no publish was under way when
/// it began and none started before it ended, and nothing otherwise.
pub open spec fn settled_read(before: u32, after: u32, words: WaveformWords) -> Option<WaveformWords> {
    if before % 2 == 0 && after == before {
        Some(words)
    } else {
        None
    }
}

/// What a read makes of the summary `words` it took between the sequence
/// marks `before` and `after`.
pub fn settled(before: u32, after: u32, words: WaveformWords) -> (read: Option<WaveformWords>)
    ensures
        read == settled_read(before, after, words),
{
    if before % 2 == 0 && after == before {
        Some(words)
    } else {
        None
    }
}

/// [`fence`] with release ordering: no store before it is seen after a store
/// that follows it.
#[verifier::external_body]
fn release_fence() {
    fence(Ordering::Release);
}

/// [`fence`] with acquire ordering: no load after it is taken before a load
/// that precedes it.
#[verifier::external_body]
fn acquire_fence() {
    fence(Ordering::Acquire);
}

/// Build a waveform meter, and split it into the end that publishes and the end
/// that reads.
///
/// The storage is allocated here and never again, so this belongs in setup,
/// before the stream starts. Until the first publish it reads as a summary of
/// no loop at all: silent buckets a frame wide, and no frames.
pub fn waveform_meter() -> (ends: (WaveformWriter, WaveformReader))
    ensures
        ends.0.feeds(ends.1),
        ends.0.spec_last() == (Seq::new(BUCKETS as nat, |bucket: int| 0u64), 1usize, 0usize),
        ends.0.spec_sequence() == 0,
{
    let mut buckets: Vec<AtomicU64> = Vec::new();
    while buckets.len() < BUCKETS
        invariant
            buckets@.len() <= BUCKETS,
        decreases BUCKETS - buckets@.len(),
    {
        buckets.push(AtomicU64::new(0));
    }
    let published = Arc::new(
        Published {
            sequence: AtomicU32::new(0),
            buckets,
            width: AtomicUsize::new(1),
            length: AtomicUsize::new(0),
        },
    );
    (
        WaveformWriter {
            published: Arc::clone(&published),
            last: Ghost((Seq::new(BUCKETS as nat, |bucket: int| 0u64), 1usize, 0usize)),
            sequence: 0,
        },
        WaveformReader { published },
    )
}

/// The publishing end of a waveform meter, held by whichever thread owns the
/// loop.
///
/// This is the end the audio callback holds.
pub struct WaveformWriter {
    published: Arc<Published>,
    last: Ghost<(Seq<u64>, usize, usize)>,
    sequence: u32,
}

impl WaveformWriter {
    /// Whether `reader` reads the summaries this writer publishes: the two
    /// hold one shared summary.
    pub closed spec fn feeds(&self, reader: WaveformReader) -> bool {
        self.published == reader.published
    }

    /// The summary this writer published last, as its buckets, their width
    /// and the length of the loop: the empty one a meter starts on, until it
    /// publishes another.
    pub closed spec fn spec_last(&self) -> (Seq<u64>, usize, usize) {
        self.last@
    }

    /// Whether this writer publishes to the same summary as `other`.
    pub closed spec fn feeds_as(&self, other: WaveformWriter) -> bool {
        self.published == other.published
    }

    /// The sequence mark this writer last published under: even, since a
    /// publish under way is the only thing that stands at an odd one.
    pub closed spec fn spec_sequence(&self) -> u32 {
        self.sequence
    }

    #[verifier::type_invariant]
    spec fn all_buckets(&self) -> bool {
        &&& self.published.buckets@.len() == BUCKETS
        &&& self.sequence % 2 == 0
    }

    /// Publish the summary `buckets`, `width` and `length` describe, replacing
    /// whatever was there.
    ///
    /// A fixed number of stores into storage that is already there, waiting on
    /// nobody: a summary the reader never looked at is gone, which is what
    /// makes this safe on a callback.
    pub fn publish_words(&mut self, buckets: &[u64], width: usize, length: usize)
        requires
            buckets@.len() == BUCKETS,
        ensures
            final(self).spec_last() == (buckets@, width, length),
            final(self).feeds_as(*old(self)),
            final(self).spec_sequence() == marked_after(old(self).spec_sequence()),
            final(self).spec_sequence() % 2 == 0,
    {
        proof {
            use_type_invariant(&*self);
        }
        let writing = self.sequence.wrapping_add(1);
        self.published.sequence.store(writing, Ordering::Relaxed);
        release_fence();
        let mut bucket: usize = 0;
        while bucket < BUCKETS
            invariant
                buckets@.len() == BUCKETS,
                self.published.buckets@.len() == BUCKETS,
                bucket <= BUCKETS,
            decreases BUCKETS - bucket,
        {
            self.published.buckets[bucket].store(buckets[bucket], Ordering::Relaxed);
            bucket = bucket + 1;
        }
        self.published.width.store(width, Ordering::Relaxed);
        self.published.length.store(length, Ordering::Relaxed);
        let done = writing.wrapping_add(1);
        assert(done == marked_after(old(self).spec_sequence()));
        self.published.sequence.store(done, Ordering::Release);
        self.sequence = done;
        self.last = Ghost((buckets@, width, length));
    }
}

/// The reading end of a waveform meter, held by whichever thread draws it.
///
/// This is the end the application thread holds.
pub struct WaveformReader {
    published: Arc<Published>,
}

impl WaveformReader {
    #[verifier::type_invariant]
    spec fn all_buckets(&self) -> bool {
        self.published.buckets@.len() == BUCKETS
    }

    /// The most recently published summary, or nothing where this read caught
    /// a publish under way and has to be taken again.
    ///
    /// Reading takes nothing, so a screen running faster than the callback
    /// repeats a summary rather than finding nothing there; the retrying falls
    /// on the thread that draws and never on the one that may not wait.
    pub fn read_words(&self) -> (read: Option<WaveformWords>)
        ensures
            exists|before: u32, after: u32, words: WaveformWords|
                read == #[trigger] settled_read(before, after, words),
            read matches Some(words) ==> words.buckets@.len() == BUCKETS,
    {
        proof {
            use_type_invariant(self);
        }
        let before = self.published.sequence.load(Ordering::Acquire);
        if before % 2 != 0 {
            assert(settled_read(before, before, vstd::pervasive::arbitrary()) is None);
            return None;
        }
        let mut buckets: Vec<u64> = Vec::new();
        let mut bucket: usize = 0;
        while bucket < BUCKETS
            invariant
                self.published.buckets@.len() == BUCKETS,
                bucket <= BUCKETS,
                buckets@.len() == bucket,
            decreases BUCKETS - bucket,
        {
            buckets.push(self.published.buckets[bucket].load(Ordering::Relaxed));
            bucket = bucket + 1;
        }
        let width = self.published.width.load(Ordering::Relaxed);
        let length = self.published.length.load(Ordering::Relaxed);
        acquire_fence();
        let after = self.published.sequence.load(Ordering::Relaxed);
        let words = WaveformWords { buckets, width, length };
        let ghost taken = words;
        let read = settled(before, after, words);
        assert(read == settled_read(before, after, taken));
        read
    }
}

} // verus!
