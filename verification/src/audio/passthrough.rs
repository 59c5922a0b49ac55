//! A path that plays what it captures, split across the two callbacks of a
//! duplex stream.
//!
//! Capture folds each input frame to one sample and writes it into a ring;
//! playback reads from the ring and spreads each sample across every output
//! channel. The ring starts holding `slack` samples of silence, which is the
//! latency the path adds and the room it has to absorb the two callbacks
//! drifting against each other. Samples travel as the bits of their value.

use vstd::prelude::*;

use super::{primed_ring, SampleConsumer, SampleProducer, StreamConfig};

verus! {

/// How silence crosses: the bits of a sample of nothing.
pub const SILENCE: u32 = 0;

/// Build a passthrough path for a stream running at `config`, starting
/// `slack` samples behind, and split it into the capturing end and the
/// playing end.
///
/// The ring holds the slack and two blocks more, allocated here and never
/// again, so this belongs in setup. A stream with no block, or without
/// channels on either side, carries nothing and has no path.
pub fn passthrough(config: StreamConfig, slack: usize) -> (ends: (PassthroughInput, PassthroughOutput))
    requires
        config.block_size > 0,
        config.input_channels > 0,
        config.output_channels > 0,
        slack + 2 * config.block_size <= usize::MAX,
    ensures
        ends.0.spec_channels() == config.input_channels,
        ends.0.spec_block() == config.block_size,
        ends.0.spec_capacity() == slack + 2 * config.block_size,
        ends.0.spec_primed() == Seq::new(slack as nat, |index: int| SILENCE),
        ends.1.spec_channels() == config.output_channels,
{
    let block = config.block_size as usize;
    let (producer, consumer) = primed_ring(slack + 2 * block, slack, SILENCE);
    (
        PassthroughInput {
            producer,
            channels: Positive { count: config.input_channels as usize },
            block: Positive { count: block },
        },
        PassthroughOutput { consumer, channels: Positive { count: config.output_channels as usize } },
    )
}

/// A count that is never none.
struct Positive {
    count: usize,
}

impl Positive {
    #[verifier::type_invariant]
    spec fn never_none(&self) -> bool {
        self.count > 0
    }

    fn get(&self) -> (count: usize)
        ensures
            count == self.count,
            count > 0,
    {
        proof {
            use_type_invariant(self);
        }
        self.count
    }
}

/// The capturing end of a passthrough path, held by the input callback.
pub struct PassthroughInput {
    producer: SampleProducer,
    channels: Positive,
    block: Positive,
}

impl PassthroughInput {
    /// The samples the path was built holding for the output end to play
    /// first: the slack, in silence.
    pub closed spec fn spec_primed(&self) -> Seq<u32> {
        self.producer.spec_primed()
    }

    /// How many channels an input frame carries.
    pub closed spec fn spec_channels(&self) -> int {
        self.channels.count as int
    }

    /// How many frames a block of capture folds at once.
    pub closed spec fn spec_block(&self) -> int {
        self.block.count as int
    }

    /// The most samples the path holds between its ends.
    pub closed spec fn spec_capacity(&self) -> int {
        self.producer.spec_capacity() as int
    }

    /// How many channels an input frame carries, which is never none.
    pub fn channels(&self) -> (channels: usize)
        ensures
            channels == self.spec_channels(),
            channels > 0,
    {
        self.channels.get()
    }

    /// How many frames one pass of capture folds, which is never none.
    pub fn block(&self) -> (block: usize)
        ensures
            block == self.spec_block(),
            block > 0,
    {
        self.block.get()
    }

    /// Write the folded frames `folded`, one sample a frame, and report how
    /// many the ring took; the rest were dropped because playback is not
    /// keeping up.
    pub fn write_folded(&mut self, folded: &[u32]) -> (taken: usize)
        ensures
            taken <= folded@.len(),
            final(self).spec_channels() == old(self).spec_channels(),
            final(self).spec_block() == old(self).spec_block(),
            final(self).spec_capacity() == old(self).spec_capacity(),
    {
        self.producer.write_bits(folded)
    }

    /// The most samples the path holds between its two ends.
    pub fn capacity(&self) -> (capacity: usize)
        ensures
            capacity == self.spec_capacity(),
    {
        self.producer.capacity()
    }
}

/// Whether `after` holds `frames` frames of `channels` channels each, every
/// channel of a frame the frame's one sample of `read`, and silence past them.
pub open spec fn spread_over(after: Seq<u32>, read: Seq<u32>, frames: int, channels: int) -> bool {
    &&& forall|frame: int, channel: int|
        0 <= frame < frames && 0 <= channel < channels ==> #[trigger] after[frame * channels + channel]
            == read[frame]
    &&& forall|index: int| frames * channels <= index < after.len() ==> #[trigger] after[index] == SILENCE
}

/// The playing end of a passthrough path, held by the output callback.
pub struct PassthroughOutput {
    consumer: SampleConsumer,
    channels: Positive,
}

pub(crate) proof fn lemma_slots_apart(later: int, earlier: int, channels: int, one: int, other: int)
    requires
        0 <= earlier < later,
        0 <= one < channels,
        0 <= other < channels,
    ensures
        later * channels + one > earlier * channels + other,
        earlier * channels + other >= earlier,
{
    assert(later * channels >= (earlier + 1) * channels) by (nonlinear_arith)
        requires
            earlier < later,
            channels > 0,
    ;
    assert((earlier + 1) * channels == earlier * channels + channels) by (nonlinear_arith);
    assert(earlier * channels >= earlier) by (nonlinear_arith)
        requires
            earlier >= 0,
            channels >= 1,
    ;
}

pub(crate) proof fn lemma_slot_inside(frame: int, frames: int, channels: int, channel: int)
    requires
        0 <= frame < frames,
        0 <= channel < channels,
    ensures
        0 <= frame * channels + channel < frames * channels,
        frame * channels + channel >= frame,
{
    assert(frame * channels + channel < frames * channels) by (nonlinear_arith)
        requires
            0 <= frame < frames,
            0 <= channel < channels,
    ;
    assert(frame * channels >= frame) by (nonlinear_arith)
        requires
            frame >= 0,
            channels >= 1,
    ;
    assert(frame * channels >= 0) by (nonlinear_arith)
        requires
            frame >= 0,
            channels >= 1,
    ;
}

impl PassthroughOutput {
    /// How many channels an output frame carries.
    pub closed spec fn spec_channels(&self) -> int {
        self.channels.count as int
    }

    /// Fill `output` with as many whole frames as it holds, and report how
    /// many of them came from the ring.
    ///
    /// Each frame's sample is spread across every channel. Frames past what
    /// the ring held, and samples past the last whole frame, are silence: a
    /// ring that ran dry is a gap the player hears, not stale samples.
    pub fn render_bits(&mut self, output: &mut [u32]) -> (supplied: usize)
        ensures
            final(output)@.len() == old(output)@.len(),
            supplied <= old(output)@.len() as int / old(self).spec_channels(),
            exists|read: Seq<u32>|
                {
                    &&& read.len() == old(output)@.len() as int / old(self).spec_channels()
                    &&& forall|frame: int| supplied <= frame < read.len() ==> #[trigger] read[frame] == SILENCE
                    &&& spread_over(final(output)@, read, read.len() as int, old(self).spec_channels())
                },
            final(self).spec_channels() == old(self).spec_channels(),
    {
        let channels = self.channels.get();
        let length = output.len();
        let frames = length / channels;
        proof {
            assert(frames * channels <= length) by (nonlinear_arith)
                requires
                    frames == length / channels,
                    channels > 0,
            ;
        }
        let supplied = self.consumer.read_bits_up_to(output, frames);
        let mut silent = supplied;
        while silent < frames
            invariant
                supplied <= silent <= frames,
                frames <= length,
                output@.len() == length,
                forall|frame: int| supplied <= frame < silent ==> #[trigger] output@[frame] == SILENCE,
            decreases frames - silent,
        {
            output[silent] = SILENCE;
            silent = silent + 1;
        }
        let ghost read = output@.take(frames as int);
        assert(forall|frame: int| supplied <= frame < frames ==> #[trigger] read[frame] == SILENCE);
        let mut next = frames;
        while next > 0
            invariant
                next <= frames,
                frames <= length,
                supplied <= frames,
                forall|frame: int| supplied <= frame < frames ==> #[trigger] read[frame] == SILENCE,
                frames * channels <= length,
                channels > 0,
                output@.len() == length,
                read.len() == frames,
                forall|frame: int| 0 <= frame < next ==> #[trigger] output@[frame] == read[frame],
                forall|frame: int, channel: int|
                    next <= frame < frames && 0 <= channel < channels ==> #[trigger] output@[frame
                        * channels + channel] == read[frame],
            decreases next,
        {
            next = next - 1;
            let sample = output[next];
            proof {
                lemma_slot_inside(next as int, frames as int, channels as int, 0);
            }
            let base = next * channels;
            let mut channel: usize = 0;
            while channel < channels
                invariant
                    next < frames,
                    frames <= length,
                    supplied <= frames,
                    forall|frame: int| supplied <= frame < frames ==> #[trigger] read[frame] == SILENCE,
                    frames * channels <= length,
                    channels > 0,
                    base == next * channels,
                    sample == read[next as int],
                    output@.len() == length,
                    read.len() == frames,
                    channel <= channels,
                    forall|frame: int| 0 <= frame < next ==> #[trigger] output@[frame] == read[frame],
                    forall|frame: int, other: int|
                        next < frame < frames && 0 <= other < channels ==> #[trigger] output@[frame
                            * channels + other] == read[frame],
                    forall|other: int|
                        0 <= other < channel ==> #[trigger] output@[base + other] == read[next as int],
                decreases channels - channel,
            {
                proof {
                    lemma_slot_inside(next as int, frames as int, channels as int, channel as int);
                }
                let ghost before = output@;
                output[base + channel] = sample;
                proof {
                    assert forall|frame: int| 0 <= frame < next implies #[trigger] output@[frame]
                        == read[frame] by {
                        assert(before[frame] == read[frame]);
                    }
                    assert forall|frame: int, other: int|
                        next < frame < frames && 0 <= other < channels implies #[trigger] output@[frame
                        * channels + other] == read[frame] by {
                        lemma_slots_apart(frame, next as int, channels as int, other, channel as int);
                        lemma_slot_inside(frame, frames as int, channels as int, other);
                        assert(before[frame * channels + other] == read[frame]);
                    }
                    assert forall|other: int| 0 <= other < channel + 1 implies #[trigger] output@[base
                        + other] == read[next as int] by {
                        if other < channel {
                            assert(before[base + other] == read[next as int]);
                        }
                    }
                }
                channel = channel + 1;
            }
            proof {
                assert forall|frame: int, other: int|
                    next <= frame < frames && 0 <= other < channels implies #[trigger] output@[frame
                    * channels + other] == read[frame] by {
                    if frame == next {
                        assert(output@[base + other] == read[next as int]);
                    }
                }
            }
        }
        let mut tail = frames * channels;
        while tail < length
            invariant
                frames * channels <= tail <= length,
                frames == length / channels,
                supplied <= frames,
                forall|frame: int| supplied <= frame < frames ==> #[trigger] read[frame] == SILENCE,
                output@.len() == length,
                read.len() == frames,
                forall|frame: int, channel: int|
                    0 <= frame < frames && 0 <= channel < channels ==> #[trigger] output@[frame
                        * channels + channel] == read[frame],
                forall|index: int| frames * channels <= index < tail ==> #[trigger] output@[index] == SILENCE,
            decreases length - tail,
        {
            let ghost before = output@;
            output[tail] = SILENCE;
            proof {
                assert forall|frame: int, channel: int|
                    0 <= frame < frames && 0 <= channel < channels implies #[trigger] output@[frame
                    * channels + channel] == read[frame] by {
                    lemma_slot_inside(frame, frames as int, channels as int, channel);
                    assert(before[frame * channels + channel] == read[frame]);
                }
            }
            tail = tail + 1;
        }
        assert(spread_over(output@, read, frames as int, channels as int));
        assert(read.len() == length as int / channels as int);
        assert(channels == old(self).spec_channels());
        assert(forall|frame: int| supplied <= frame < read.len() ==> #[trigger] read[frame] == SILENCE);
        assert(spread_over(output@, read, read.len() as int, old(self).spec_channels()));
        supplied
    }
}

} // verus!
