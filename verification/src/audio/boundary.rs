//! Whether both ends of a boundary have run, and which channels each end
//! carries.
//!
//! A duplex device is two streams with two callbacks on two threads, so the
//! route from input to output is a hand-off: the capture end writes what the
//! device gave it, the playback end takes whatever is there. [`Priming`] keeps
//! either from being owed anything before the other has run.

use std::sync::Arc;
use std::sync::atomic::{AtomicBool, Ordering};
use vstd::prelude::*;

use super::{
    level_meter, primed_ring, slack_hold, trim_of, ChannelSelection, LevelReader, LevelWriter,
    SampleConsumer, SampleProducer, SlackReader, SlackTrim, StreamConfig, Trim, SILENCE,
    SILENT_BITS,
};
use super::passthrough::{lemma_slot_inside, lemma_slots_apart};

verus! {

struct Ends {
    captured: AtomicBool,
    played: AtomicBool,
    carrying: AtomicBool,
}

/// Whether both ends of a boundary have run since it was last started.
///
/// Two streams start independently, so the one calling back first faces a ring
/// the other is not yet servicing. Those frames are lost, but nothing was owed
/// across a half-built boundary. So capture drops what it is handed until
/// playback has run, and playback plays silence until the ring has risen past
/// its slack.
#[derive(Clone)]
pub struct Priming {
    ends: Arc<Ends>,
}

impl Priming {
    /// A boundary neither end of which has run.
    pub fn new() -> Self {
        Self {
            ends: Arc::new(
                Ends {
                    captured: AtomicBool::new(false),
                    played: AtomicBool::new(false),
                    carrying: AtomicBool::new(false),
                },
            ),
        }
    }

    /// Another handle on the same flags.
    pub fn handle(&self) -> (copy: Priming)
        ensures
            copy == *self,
    {
        Priming { ends: Arc::clone(&self.ends) }
    }

    /// Put the boundary back to how it starts, so that the next callback on
    /// each end is a start again.
    ///
    /// For the application thread to call while both streams are stopped.
    pub fn restart(&self) {
        self.ends.captured.store(false, Ordering::Release);
        self.ends.played.store(false, Ordering::Release);
        self.ends.carrying.store(false, Ordering::Release);
    }

    /// Mark that the capture end has run.
    pub fn capture_ran(&self) {
        self.ends.captured.store(true, Ordering::Release);
    }

    /// Mark that the playback end has run.
    pub fn playback_ran(&self) {
        self.ends.played.store(true, Ordering::Release);
    }

    /// Whether the capture end has run, as the other thread left it.
    pub fn capture_has_run(&self) -> bool {
        self.ends.captured.load(Ordering::Acquire)
    }

    /// Whether the playback end has run, as the other thread left it.
    pub fn playback_has_run(&self) -> bool {
        self.ends.played.load(Ordering::Acquire)
    }

    /// Whether the ring has risen past its slack since the last start.
    pub fn carrying(&self) -> bool {
        self.ends.carrying.load(Ordering::Acquire)
    }

    /// Mark that the ring has risen past its slack.
    pub fn now_carrying(&self) {
        self.ends.carrying.store(true, Ordering::Release);
    }
}

/// The channels of each frame an end carries: from the selection's first, up
/// to one past its last.
pub fn selected(selection: ChannelSelection) -> (range: (usize, usize))
    ensures
        range.0 == selection.first,
        range.1 == selection.spec_reach(),
{
    (selection.first as usize, selection.reach() as usize)
}

/// What a chunk of `frames` frames asks the ring for while `holding` frames
/// of slack are still held back: the frames the hold does not cover. The hold
/// is spent on the first chunk, so none is left after it.
pub fn chunk_asks(frames: usize, holding: usize) -> (asked: usize)
    ensures
        asked == if holding <= frames { frames - holding } else { 0 },
{
    if holding <= frames {
        frames - holding
    } else {
        0
    }
}

/// How many frames a chunk of `frames` counts as supplied when the ring gave
/// `taken` of the `asked` it was asked for: the whole chunk where it gave all
/// of them, held-back frames included, and what it gave where it ran short.
pub fn chunk_supplied(frames: usize, asked: usize, taken: usize) -> (supplied: usize)
    ensures
        supplied == if taken < asked { taken } else { frames },
{
    if taken < asked {
        taken
    } else {
        frames
    }
}

/// How many channels the played level is measured over: the one the path
/// plays, before it is spread.
pub const PLAYED_CHANNELS: u16 = 1;

/// How an end carries frames: how many channels a device frame has, which of
/// them the end carries, and how many frames a pass works at once.
struct Shape {
    channels: usize,
    first: usize,
    reach: usize,
    block: usize,
}

impl Shape {
    #[verifier::type_invariant]
    spec fn carries_something(&self) -> bool {
        &&& self.first < self.reach <= self.channels
        &&& self.block > 0
    }

    fn channels(&self) -> (channels: usize)
        ensures
            channels == self.channels,
            channels > 0,
            self.first < self.reach <= channels,
            self.block > 0,
    {
        proof {
            use_type_invariant(self);
        }
        self.channels
    }
}

/// Build the two ends of a boundary for a stream running at `config`, carrying
/// the `input` channels of each captured frame and playing into the `output`
/// channels of each played one, starting `slack` frames behind.
///
/// The ring holds the slack and two blocks more, allocated here and never
/// again, so this belongs in setup. A stream with no block, without channels
/// on either side, selecting none, or selecting a channel its device has not
/// got, carries nothing and has no boundary.
pub fn boundary(config: StreamConfig, input: ChannelSelection, output: ChannelSelection, slack: usize) -> (ends: (
    BlockCapture,
    BlockPlayback,
))
    requires
        config.block_size > 0,
        config.input_channels > 0,
        config.output_channels > 0,
        input.count > 0,
        output.count > 0,
        input.spec_reach() <= config.input_channels,
        output.spec_reach() <= config.output_channels,
        slack + 2 * config.block_size <= usize::MAX,
    ensures
        ends.0.spec_channels() == config.input_channels,
        ends.0.spec_selected() == (input.first as int, input.spec_reach()),
        ends.0.spec_block() == config.block_size,
        ends.1.spec_channels() == config.output_channels,
        ends.1.spec_selected() == (output.first as int, output.spec_reach()),
        ends.1.spec_block() == config.block_size,
        ends.1.spec_slack() == slack,
        ends.0.spec_primed() == Seq::new(slack as nat, |index: int| SILENCE),
        ends.0.spec_priming() == ends.1.spec_priming(),
        ends.1.meters_what_it_plays(),
        ends.1.spec_played_last() == SILENT_BITS,
{
    let block = config.block_size as usize;
    let (producer, consumer) = primed_ring(slack + 2 * block, slack, SILENCE);
    let priming = Priming::new();
    let (played, metering) = level_meter(PLAYED_CHANNELS, ChannelSelection::all(PLAYED_CHANNELS));
    let (trim, holding) = slack_hold(slack, block);
    let (taken_first, taken_reach) = selected(input);
    let (played_first, played_reach) = selected(output);
    (
        BlockCapture {
            producer,
            shape: Shape {
                channels: config.input_channels as usize,
                first: taken_first,
                reach: taken_reach,
                block,
            },
            priming: priming.handle(),
        },
        BlockPlayback {
            consumer,
            shape: Shape {
                channels: config.output_channels as usize,
                first: played_first,
                reach: played_reach,
                block,
            },
            trim,
            holding,
            priming,
            played,
            metering,
        },
    )
}

/// The capture end of a boundary, held by the input callback.
///
/// The callback folds each frame of what the device hands it to one sample,
/// the mean of the selected channels, and writes those to the ring.
pub struct BlockCapture {
    producer: SampleProducer,
    shape: Shape,
    priming: Priming,
}

impl BlockCapture {
    /// The samples the ring was built holding for the playback end to read
    /// first: the slack, in silence.
    pub closed spec fn spec_primed(&self) -> Seq<u32> {
        self.producer.spec_primed()
    }

    /// The flags this end shares with the other end of its boundary.
    pub closed spec fn spec_priming(&self) -> Priming {
        self.priming
    }

    /// How many channels a captured frame has.
    pub closed spec fn spec_channels(&self) -> int {
        self.shape.channels as int
    }

    /// The channels of a frame folded: from the first, up to one past the last.
    pub closed spec fn spec_selected(&self) -> (int, int) {
        (self.shape.first as int, self.shape.reach as int)
    }

    /// How many frames a pass folds at once.
    pub closed spec fn spec_block(&self) -> int {
        self.shape.block as int
    }

    /// Mark that the capture end has run, and report whether the playback end
    /// has.
    ///
    /// Until it has, what the device hands over is dropped and reported whole,
    /// so that the ring does not carry the pre-roll for the life of the stream.
    pub fn begin(&mut self) -> bool {
        self.priming.capture_ran();
        self.priming.playback_has_run()
    }

    /// How many channels a captured frame has, the channels folded, and how
    /// many frames a pass folds at once.
    pub fn shape(&self) -> (shape: (usize, (usize, usize), usize))
        ensures
            shape.0 == self.spec_channels(),
            (shape.1.0 as int, shape.1.1 as int) == self.spec_selected(),
            shape.2 == self.spec_block(),
            shape.1.0 < shape.1.1 <= shape.0,
            shape.2 > 0,
    {
        let channels = self.shape.channels();
        (channels, (self.shape.first, self.shape.reach), self.shape.block)
    }

    /// Write the folded frames `folded`, one sample a frame, and report how
    /// many the ring took; the rest were dropped because playback is not
    /// keeping up.
    pub fn write_folded(&mut self, folded: &[u32]) -> (taken: usize)
        ensures
            taken <= folded@.len(),
            final(self).spec_channels() == old(self).spec_channels(),
            final(self).spec_selected() == old(self).spec_selected(),
            final(self).spec_block() == old(self).spec_block(),
    {
        self.producer.write_bits(folded)
    }

    /// A handle on whether both ends have run, for whatever starts the streams.
    pub fn priming(&self) -> (primed: Priming)
        ensures
            primed == self.spec_priming(),
    {
        self.priming.handle()
    }
}

/// Whether `chunk` holds whole frames of `channels` channels, each carrying
/// its frame's sample of `playing` on the channels from `first` up to `reach`
/// and silence on the rest, with silence past the last whole frame.
pub open spec fn spread_into(chunk: Seq<u32>, playing: Seq<u32>, channels: int, first: int, reach: int) -> bool {
    &&& forall|frame: int, channel: int|
        0 <= frame < playing.len() && 0 <= channel < channels ==> #[trigger] chunk[frame * channels + channel]
            == if first <= channel < reach {
            playing[frame]
        } else {
            SILENCE
        }
    &&& forall|index: int| playing.len() * channels <= index < chunk.len() ==> #[trigger] chunk[index] == SILENCE
}

/// The playback end of a boundary, held by the output callback.
///
/// Each pass takes what the ring supplied, asks the path what to play for it,
/// and spreads the answer across the selected channels of the device's frames.
pub struct BlockPlayback {
    consumer: SampleConsumer,
    shape: Shape,
    trim: SlackTrim,
    holding: SlackReader,
    priming: Priming,
    played: LevelWriter,
    metering: LevelReader,
}

/// How many frames a trim pads a block with.
pub open spec fn padded(trim: Trim) -> int {
    match trim {
        Trim::Insert(frames) => frames as int,
        _ => 0,
    }
}

/// Whether a block `wanted` frames long, padded with `padding` frames, is what
/// `before` decides for some ring level, leaving `after`.
pub open spec fn trimmed_for(before: SlackTrim, after: SlackTrim, wanted: int, padding: int) -> bool {
    exists|available: int| #[trigger] trimmed_by(before, after, wanted, padding, available)
}

/// Whether a block `wanted` frames long, padded with `padding` frames, is what
/// `before` decides for a ring holding `available` frames, leaving `after`.
pub open spec fn trimmed_by(before: SlackTrim, after: SlackTrim, wanted: int, padding: int, available: int) -> bool {
    let (trim, correcting) = trim_of(
        before.spec_slack(),
        before.spec_block(),
        before.spec_correcting(),
        available,
        wanted,
    );
    &&& 0 <= available
    &&& padding == padded(trim)
    &&& after.spec_correcting() == correcting
    &&& after.spec_slack() == before.spec_slack()
    &&& after.spec_block() == before.spec_block()
}

impl BlockPlayback {
    /// The flags this end shares with the other end of its boundary.
    pub closed spec fn spec_priming(&self) -> Priming {
        self.priming
    }

    /// The handle the level of what this end plays is read through.
    pub closed spec fn spec_metering(&self) -> LevelReader {
        self.metering
    }

    /// The handle the slack this end holds is read through.
    pub closed spec fn spec_holding(&self) -> SlackReader {
        self.holding
    }

    /// How this end holds its slack.
    pub closed spec fn spec_trim(&self) -> SlackTrim {
        self.trim
    }

    /// The packed level this end published last.
    pub closed spec fn spec_played_last(&self) -> u64 {
        self.played.spec_last()
    }

    /// Whether what this end publishes of what it plays is what its metering
    /// handle reads.
    pub closed spec fn meters_what_it_plays(&self) -> bool {
        self.played.feeds(self.metering)
    }

    /// Whether this end holds the same handles as `other`: the same flags, the
    /// same meter, the same slack.
    pub closed spec fn keeps_handles(&self, other: BlockPlayback) -> bool {
        &&& self.priming == other.priming
        &&& self.metering == other.metering
        &&& self.holding == other.holding
        &&& self.played.spec_cell() == other.played.spec_cell()
    }

    /// How many channels a played frame has.
    pub closed spec fn spec_channels(&self) -> int {
        self.shape.channels as int
    }

    /// The channels of a frame played into: from the first, up to one past the
    /// last.
    pub closed spec fn spec_selected(&self) -> (int, int) {
        (self.shape.first as int, self.shape.reach as int)
    }

    /// How many frames a pass plays at once.
    pub closed spec fn spec_block(&self) -> int {
        self.shape.block as int
    }

    /// How many frames the boundary holds between its ends.
    pub closed spec fn spec_slack(&self) -> int {
        self.trim.spec_slack()
    }

    /// How many channels a played frame has, the channels played into, and how
    /// many frames a pass plays at once.
    pub fn shape(&self) -> (shape: (usize, (usize, usize), usize))
        ensures
            shape.0 == self.spec_channels(),
            (shape.1.0 as int, shape.1.1 as int) == self.spec_selected(),
            shape.2 == self.spec_block(),
            shape.1.0 < shape.1.1 <= shape.0,
            shape.2 > 0,
    {
        let channels = self.shape.channels();
        (channels, (self.shape.first, self.shape.reach), self.shape.block)
    }

    /// Mark that the playback end has run, and decide what a block of `frames`
    /// frames plays: nothing, where the ring has not yet risen past its slack,
    /// and otherwise how many frames at the start of the block the ring is not
    /// asked for, because holding the slack pads the block.
    ///
    /// Until the capture end has run, whatever the ring holds past its slack is
    /// dropped, so a late capture end does not start out behind.
    pub fn begin(&mut self, frames: usize) -> (held: Option<usize>)
        requires
            old(self).spec_slack() + frames <= usize::MAX,
        ensures
            held matches Some(padding) ==> padding <= frames,
            final(self).spec_channels() == old(self).spec_channels(),
            final(self).spec_selected() == old(self).spec_selected(),
            final(self).spec_block() == old(self).spec_block(),
            final(self).spec_slack() == old(self).spec_slack(),
            final(self).keeps_handles(*old(self)),
            old(self).meters_what_it_plays() ==> final(self).meters_what_it_plays(),
            held is Some ==> trimmed_for(old(self).spec_trim(), final(self).spec_trim(), frames as int, held->0 as int),
            held is None ==> final(self).spec_trim() == old(self).spec_trim(),
    {
        self.priming.playback_ran();
        if !self.priming.carrying() && !self.takes_up_the_slack() {
            return None;
        }
        let ghost before = self.trim;
        assert(before == old(self).spec_trim());
        let padding = self.trimmed(frames);
        assert(trimmed_for(before, self.trim, frames as int, padding as int));
        Some(padding)
    }

    fn takes_up_the_slack(&mut self) -> (carrying: bool)
        ensures
            final(self).shape == old(self).shape,
            final(self).trim == old(self).trim,
            final(self).keeps_handles(*old(self)),
            final(self).played == old(self).played,
    {
        let slack = self.trim.slack();
        if !self.priming.capture_has_run() {
            let available = self.consumer.available();
            let stale = available.saturating_sub(slack);
            self.consumer.skip(stale);
            return false;
        }
        if self.consumer.available() <= slack {
            return false;
        }
        self.priming.now_carrying();
        true
    }

    fn trimmed(&mut self, wanted: usize) -> (padding: usize)
        requires
            old(self).trim.spec_slack() + wanted <= usize::MAX,
        ensures
            padding <= wanted,
            final(self).shape == old(self).shape,
            final(self).trim.spec_slack() == old(self).trim.spec_slack(),
            final(self).keeps_handles(*old(self)),
            final(self).played == old(self).played,
            trimmed_for(old(self).trim, final(self).trim, wanted as int, padding as int),
    {
        let available = self.consumer.available();
        let trim = self.trim.trim(available, wanted);
        let padding = match trim {
            Trim::Steady => 0,
            Trim::Drop(frames) => {
                self.consumer.skip(frames);
                0
            },
            Trim::Insert(frames) => frames,
        };
        assert(trimmed_by(old(self).trim, self.trim, wanted as int, padding as int, available as int));
        padding
    }

    /// Fill the first `frames` of `captured` for the path: the first `asked`
    /// from the ring, as many as it supplies, with silence for any it did not,
    /// and the rest holding the last of those. Reports how many the ring
    /// supplied; `captured` past `frames` is left as it was.
    pub fn pull(&mut self, captured: &mut [u32], frames: usize, asked: usize) -> (taken: usize)
        requires
            asked <= frames <= old(captured)@.len(),
        ensures
            taken <= asked,
            final(captured)@.len() == old(captured)@.len(),
            forall|index: int| taken <= index < asked ==> #[trigger] final(captured)@[index] == SILENCE,
            forall|index: int|
                asked <= index < frames ==> #[trigger] final(captured)@[index] == if asked == 0 {
                    SILENCE
                } else {
                    final(captured)@[asked - 1]
                },
            forall|index: int|
                frames <= index < old(captured)@.len() ==> #[trigger] final(captured)@[index] == old(
                    captured,
                )@[index],
            final(self).spec_channels() == old(self).spec_channels(),
            final(self).spec_selected() == old(self).spec_selected(),
            final(self).spec_block() == old(self).spec_block(),
            final(self).spec_slack() == old(self).spec_slack(),
            final(self).spec_trim() == old(self).spec_trim(),
            final(self).spec_played_last() == old(self).spec_played_last(),
            final(self).keeps_handles(*old(self)),
            old(self).meters_what_it_plays() ==> final(self).meters_what_it_plays(),
    {
        let ghost before = captured@;
        let taken = self.consumer.read_bits_up_to(captured, asked);
        let mut index = taken;
        while index < asked
            invariant
                taken <= index <= asked <= frames <= captured@.len(),
                captured@.len() == before.len(),
                forall|at: int| taken <= at < index ==> #[trigger] captured@[at] == SILENCE,
                forall|at: int| asked <= at < before.len() ==> #[trigger] captured@[at] == before[at],
            decreases asked - index,
        {
            captured[index] = SILENCE;
            index = index + 1;
        }
        let last = if asked == 0 { SILENCE } else { captured[asked - 1] };
        let mut index = asked;
        while index < frames
            invariant
                asked <= index <= frames <= captured@.len(),
                captured@.len() == before.len(),
                last == if asked == 0 { SILENCE } else { captured@[asked - 1] },
                forall|at: int| taken <= at < asked ==> #[trigger] captured@[at] == SILENCE,
                forall|at: int| asked <= at < index ==> #[trigger] captured@[at] == last,
                forall|at: int| frames <= at < before.len() ==> #[trigger] captured@[at] == before[at],
            decreases frames - index,
        {
            captured[index] = last;
            index = index + 1;
        }
        taken
    }

    /// Spread what the path played, one sample a frame in `playing`, across
    /// the selected channels of the whole frames of `chunk`, silencing every
    /// other channel and whatever is past the last whole frame.
    pub fn spread(&self, chunk: &mut [u32], playing: &[u32])
        requires
            playing@.len() == old(chunk)@.len() as int / self.spec_channels(),
        ensures
            final(chunk)@.len() == old(chunk)@.len(),
            spread_into(
                final(chunk)@,
                playing@,
                self.spec_channels(),
                self.spec_selected().0,
                self.spec_selected().1,
            ),
    {
        let channels = self.shape.channels();
        let first = self.shape.first;
        let reach = self.shape.reach;
        let frames = playing.len();
        let length = chunk.len();
        proof {
            assert(frames * channels <= length) by (nonlinear_arith)
                requires
                    frames == length / channels,
                    channels > 0,
            ;
        }
        let mut frame: usize = 0;
        while frame < frames
            invariant
                frame <= frames,
                frames == playing@.len(),
                frames * channels <= length,
                channels > 0,
                chunk@.len() == length,
                forall|done: int, channel: int|
                    0 <= done < frame && 0 <= channel < channels ==> #[trigger] chunk@[done * channels + channel]
                        == if first <= channel < reach {
                        playing@[done]
                    } else {
                        SILENCE
                    },
            decreases frames - frame,
        {
            proof {
                lemma_slot_inside(frame as int, frames as int, channels as int, 0);
            }
            let base = frame * channels;
            let sample = playing[frame];
            let mut channel: usize = 0;
            while channel < channels
                invariant
                    frame < frames,
                    frames == playing@.len(),
                    frames * channels <= length,
                    channels > 0,
                    base == frame * channels,
                    sample == playing@[frame as int],
                    chunk@.len() == length,
                    channel <= channels,
                    forall|done: int, other: int|
                        0 <= done < frame && 0 <= other < channels ==> #[trigger] chunk@[done * channels + other]
                            == if first <= other < reach {
                            playing@[done]
                        } else {
                            SILENCE
                        },
                    forall|other: int|
                        0 <= other < channel ==> #[trigger] chunk@[base + other] == if first <= other < reach {
                            sample
                        } else {
                            SILENCE
                        },
                decreases channels - channel,
            {
                proof {
                    lemma_slot_inside(frame as int, frames as int, channels as int, channel as int);
                }
                let ghost was = chunk@;
                chunk[base + channel] = if first <= channel && channel < reach { sample } else { SILENCE };
                proof {
                    assert forall|done: int, other: int|
                        0 <= done < frame && 0 <= other < channels implies #[trigger] chunk@[done * channels
                        + other] == if first <= other < reach {
                        playing@[done]
                    } else {
                        SILENCE
                    } by {
                        lemma_slots_apart(frame as int, done, channels as int, channel as int, other);
                        lemma_slot_inside(done, frames as int, channels as int, other);
                        assert(was[done * channels + other] == chunk@[done * channels + other]);
                    }
                    assert forall|other: int| 0 <= other < channel + 1 implies #[trigger] chunk@[base + other]
                        == if first <= other < reach {
                        sample
                    } else {
                        SILENCE
                    } by {
                        if other < channel {
                            assert(was[base + other] == chunk@[base + other]);
                        }
                    }
                }
                channel = channel + 1;
            }
            proof {
                assert forall|done: int, other: int|
                    0 <= done < frame + 1 && 0 <= other < channels implies #[trigger] chunk@[done * channels
                    + other] == if first <= other < reach {
                    playing@[done]
                } else {
                    SILENCE
                } by {
                    if done == frame {
                        assert(chunk@[base + other] == if first <= other < reach {
                            sample
                        } else {
                            SILENCE
                        });
                    }
                }
            }
            frame = frame + 1;
        }
        let mut tail = frames * channels;
        while tail < length
            invariant
                frames * channels <= tail <= length,
                frames == playing@.len(),
                channels > 0,
                chunk@.len() == length,
                forall|done: int, channel: int|
                    0 <= done < frames && 0 <= channel < channels ==> #[trigger] chunk@[done * channels + channel]
                        == if first <= channel < reach {
                        playing@[done]
                    } else {
                        SILENCE
                    },
                forall|index: int| frames * channels <= index < tail ==> #[trigger] chunk@[index] == SILENCE,
            decreases length - tail,
        {
            let ghost was = chunk@;
            chunk[tail] = SILENCE;
            proof {
                assert forall|done: int, channel: int|
                    0 <= done < frames && 0 <= channel < channels implies #[trigger] chunk@[done * channels
                    + channel] == if first <= channel < reach {
                    playing@[done]
                } else {
                    SILENCE
                } by {
                    lemma_slot_inside(done, frames as int, channels as int, channel);
                    assert(was[done * channels + channel] == chunk@[done * channels + channel]);
                }
            }
            tail = tail + 1;
        }
    }

    /// Publish how loud the path played, as the word its levels are packed
    /// into.
    pub fn publish_played(&mut self, word: u64)
        ensures
            final(self).spec_channels() == old(self).spec_channels(),
            final(self).spec_selected() == old(self).spec_selected(),
            final(self).spec_block() == old(self).spec_block(),
            final(self).spec_slack() == old(self).spec_slack(),
            final(self).spec_trim() == old(self).spec_trim(),
            final(self).spec_played_last() == word,
            final(self).keeps_handles(*old(self)),
            old(self).meters_what_it_plays() ==> final(self).meters_what_it_plays(),
    {
        self.played.publish_bits(word);
    }

    /// Publish that the block played silence.
    pub fn silence_played(&mut self)
        ensures
            final(self).spec_channels() == old(self).spec_channels(),
            final(self).spec_selected() == old(self).spec_selected(),
            final(self).spec_block() == old(self).spec_block(),
            final(self).spec_slack() == old(self).spec_slack(),
            final(self).spec_trim() == old(self).spec_trim(),
            final(self).spec_played_last() == SILENT_BITS,
            final(self).keeps_handles(*old(self)),
            old(self).meters_what_it_plays() ==> final(self).meters_what_it_plays(),
    {
        self.played.silence();
    }

    /// A handle on how loud the frames the path played were.
    pub fn metering(&self) -> (reader: LevelReader)
        ensures
            reader == self.spec_metering(),
    {
        self.metering.handle()
    }

    /// A handle on the slack the boundary is holding, for whatever reports on
    /// the stream.
    pub fn slack(&self) -> (reader: SlackReader)
        ensures
            reader == self.spec_holding(),
    {
        self.holding.handle()
    }
}

} // verus!
