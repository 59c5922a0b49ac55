use motif::analysis::{Priors, TrackedGrid};
use motif::audio::Command;
use motif::device::{Button, DeviceProfile};
use motif::looper::{PageEvent, PageOrder, PageState};
use motif::looper::{
    LoopLayers, analyse, clock_parts, filled_cells, frame_count, frame_of, moving, position_meter, span_of,
    handing_over, settled, take_handoff, transport_name, waveform_meter, WaveformWords, HandOver, LoopMarks, LoopPosition, Mark, Motion,
    Transport, BUCKETS, CROSSING_BLOCKS, MAX_FRAMES,
};
use std::time::Duration;

#[test]
fn record_play_and_stop_follow_the_transport_table() {
    assert_eq!(Transport::Idle.record(), Transport::Recording);
    assert_eq!(Transport::Recording.record(), Transport::Overdubbing);
    assert_eq!(Transport::Overdubbing.record(), Transport::Playing);
    assert_eq!(Transport::Stopped.record(), Transport::Overdubbing);
    assert_eq!(Transport::Idle.play(), Transport::Idle);
    assert_eq!(Transport::Recording.play(), Transport::Playing);
    assert_eq!(Transport::Idle.stop(), Transport::Idle);
    assert_eq!(Transport::Playing.stop(), Transport::Stopped);
    assert_eq!(Transport::default(), Transport::Idle);
}

#[test]
fn only_recording_and_overdubbing_capture_and_only_playing_and_overdubbing_play() {
    assert!(Transport::Recording.captures_input());
    assert!(Transport::Overdubbing.captures_input());
    assert!(!Transport::Playing.captures_input());
    assert!(Transport::Playing.plays_loop());
    assert!(Transport::Overdubbing.plays_loop());
    assert!(!Transport::Stopped.plays_loop());
}

#[test]
fn a_position_past_its_own_end_is_held_at_the_end() {
    let past_the_end = LoopPosition::new(9_000, 4_000, 1);

    assert_eq!(past_the_end.playhead(), 4_000);
    assert_eq!(past_the_end.recorded(), 4_000);
    assert_eq!(past_the_end.depth(), 1);
}

#[test]
fn a_position_is_held_to_what_its_word_can_carry() {
    let huge = LoopPosition::new(u32::MAX, u32::MAX, 99);

    assert_eq!(huge.recorded(), MAX_FRAMES);
    assert_eq!(huge.playhead(), MAX_FRAMES);
    assert_eq!(huge.depth(), 8);
}

#[test]
fn a_position_crosses_as_one_word_and_comes_back() {
    let position = LoopPosition::new(1_234, 48_000, 3);

    assert_eq!(LoopPosition::unpacked(position.packed()), position);

    let (mut writer, reader) = position_meter();
    assert_eq!(reader.read(), LoopPosition::empty());
    writer.publish(position);
    assert_eq!(reader.read(), position);
}

#[test]
fn marks_come_back_in_the_order_they_were_added() {
    let mut marks = LoopMarks::none();
    marks.add(2, Mark::Downbeat);
    marks.add(1, Mark::Beat);

    assert_eq!(marks.found(), [(2, Mark::Downbeat), (1, Mark::Beat)]);
    assert!(Mark::ChordChange.outranks(Mark::Onset));
    assert!(!Mark::Beat.outranks(Mark::Downbeat));
    assert_eq!(Mark::Onset.row(), 1);
    assert_eq!(Mark::Downbeat.row(), 0);
}

#[test]
fn a_beat_is_timed_to_the_frame_it_falls_at() {
    assert_eq!(frame_of(Duration::from_secs(1), 48_000), 48_000);
    assert_eq!(frame_of(Duration::from_millis(500), 48_000), 24_000);
    assert_eq!(span_of(48_000, 48_000), Duration::from_secs(1));
    assert_eq!(span_of(1, 48_000), Duration::from_nanos(20_833));
}

#[test]
fn an_analysis_marks_every_beat_then_every_downbeat() {
    let beats = vec![
        Duration::ZERO,
        Duration::from_millis(500),
        Duration::from_secs(1),
        Duration::from_millis(1_500),
    ];
    let grid = TrackedGrid::placed(beats, Priors::blind().with_meter(2), 0);

    let marks = analyse(&grid, 48_000);

    assert_eq!(
        marks.found(),
        [
            (0, Mark::Beat),
            (24_000, Mark::Beat),
            (48_000, Mark::Beat),
            (72_000, Mark::Beat),
            (0, Mark::Downbeat),
            (48_000, Mark::Downbeat),
        ]
    );
}

#[test]
fn an_empty_grid_marks_nothing() {
    let grid = TrackedGrid::placed(Vec::new(), Priors::blind(), 0);

    assert_eq!(analyse(&grid, 48_000), LoopMarks::none());
}

#[test]
fn a_take_crosses_over_its_blocks_and_is_claimed_once() {
    let profile = DeviceProfile::target().audio;
    let (mut writer, mut reader) = take_handoff(profile);
    let block = profile.block_size as usize;
    let samples = [0.25f32.to_bits(), 0.5f32.to_bits()];

    assert!(reader.claim().is_none());

    writer.begin(2, None);
    assert_eq!(writer.window(block), Some((0, 1)));
    assert!(writer.advance(block, &samples[..1]));
    assert_eq!(writer.window(block), Some((1, 1)));
    assert!(!writer.advance(block, &samples[1..]));
    assert_eq!(writer.window(block), None);

    let take = reader.claim().expect("a finished take crossed");
    assert_eq!(take.frames(), 2);
    assert_eq!(take.bars(), None);
    assert_eq!(f32::from_bits(take.sample_bits(0)), 0.25);
    assert_eq!(f32::from_bits(take.sample_bits(1)), 0.5);
    drop(take);

    assert!(reader.claim().is_none());
}

#[test]
fn a_take_spreads_across_the_crossing_blocks() {
    let profile = DeviceProfile::target().audio;
    let (mut writer, mut reader) = take_handoff(profile);
    let block = profile.block_size as usize;

    writer.begin(6_400, Some(7));
    let mut blocks = 0;
    while let Some((_, share)) = writer.window(block) {
        let carried = vec![0u32; share];
        writer.advance(block, &carried);
        blocks += 1;
    }

    assert_eq!(blocks, CROSSING_BLOCKS);
    let take = reader.claim().expect("a finished take crossed");
    assert_eq!(take.frames(), 6_400);
    assert_eq!(take.bars(), Some(7));
}

#[test]
fn an_abandoned_take_is_never_published() {
    let profile = DeviceProfile::target().audio;
    let (mut writer, mut reader) = take_handoff(profile);

    writer.begin(100, None);
    writer.abandon();

    assert_eq!(writer.window(256), None);
    assert!(!writer.advance(256, &[]));
    assert!(reader.claim().is_none());
}

#[test]
fn a_take_of_no_frames_begins_nothing() {
    let profile = DeviceProfile::target().audio;
    let (mut writer, _reader) = take_handoff(profile);

    writer.begin(0, None);

    assert_eq!(writer.window(256), None);
}

#[test]
fn a_waveform_crosses_whole() {
    let (mut writer, reader) = waveform_meter();

    let empty = reader.read_words().expect("nothing is publishing");
    assert_eq!(empty.buckets, vec![0; BUCKETS]);
    assert_eq!(empty.width, 1);
    assert_eq!(empty.length, 0);

    let buckets: Vec<u64> = (0..BUCKETS as u64).collect();
    writer.publish_words(&buckets, 4, 400);

    let read = reader.read_words().expect("nothing is publishing");
    assert_eq!(read.buckets, buckets);
    assert_eq!(read.width, 4);
    assert_eq!(read.length, 400);
}

#[test]
fn leaving_a_capturing_state_hands_the_take_over() {
    assert_eq!(
        moving(Transport::Recording, Transport::Playing, true, 1),
        Motion { restarts: true, layer_open: true, overdubs: false, hand_over: HandOver::Begin }
    );
    assert_eq!(
        moving(Transport::Idle, Transport::Recording, true, 0).hand_over,
        HandOver::Abandon
    );
    assert_eq!(
        moving(Transport::Playing, Transport::Stopped, true, 1).hand_over,
        HandOver::Keep
    );
}

#[test]
fn an_overdub_opens_a_layer_only_where_there_is_room() {
    let room = moving(Transport::Playing, Transport::Overdubbing, true, 3);
    assert!(room.overdubs);
    assert!(room.layer_open);
    assert_eq!(room.hand_over, HandOver::Abandon);
    assert!(!room.restarts);

    let full = moving(Transport::Playing, Transport::Overdubbing, true, 8);
    assert!(!full.overdubs);
    assert!(!full.layer_open);
    assert_eq!(full.hand_over, HandOver::Keep);
}

#[test]
fn a_frame_count_is_held_at_what_a_position_carries() {
    assert_eq!(frame_count(48_000), 48_000);
    assert_eq!(frame_count(usize::MAX), u32::MAX);
}

#[test]
fn the_page_names_each_transport_state() {
    assert_eq!(transport_name(Transport::Idle), "IDLE");
    assert_eq!(transport_name(Transport::Recording), "RECORDING");
    assert_eq!(transport_name(Transport::Playing), "PLAYING");
    assert_eq!(transport_name(Transport::Overdubbing), "OVERDUBBING");
    assert_eq!(transport_name(Transport::Stopped), "STOPPED");
}

#[test]
fn a_frame_count_reads_as_minutes_seconds_and_tenths() {
    assert_eq!(clock_parts(48_000 * 75 + 4_800), (1, 15, 1));
    assert_eq!(clock_parts(0), (0, 0, 0));
    assert_eq!(clock_parts(4_799), (0, 0, 0));
}

#[test]
fn a_bar_fills_as_far_as_the_playhead_has_got() {
    assert_eq!(filled_cells(2, 4, 10), 5);
    assert_eq!(filled_cells(4, 4, 10), 10);
    assert_eq!(filled_cells(0, 0, 10), 0);
}

fn heard_at(layers: &LoopLayers, frame: usize) -> f32 {
    (0..layers.depth())
        .filter(|layer| layers.covers(*layer, frame))
        .map(|layer| f32::from_bits(layers.sample_bits(layer, frame)))
        .sum()
}

#[test]
fn a_take_is_heard_as_it_was_recorded() {
    let mut layers = LoopLayers::for_capacity(48_000);

    let (taken, spans) = layers.record_bits(&[0.25f32.to_bits(), 0.5f32.to_bits()]);

    assert_eq!(taken, 2);
    assert_eq!(spans, [(0, 2)]);
    assert_eq!(layers.len(), 2);
    assert_eq!(layers.depth(), 1);
    assert_eq!([heard_at(&layers, 0), heard_at(&layers, 1)], [0.25, 0.5]);
    assert_eq!(layers.capacity(), 48_000);
    assert_eq!(layers.vacant(), 47_998);
}

#[test]
fn an_overdub_is_laid_from_where_the_player_punched_in() {
    let mut layers = LoopLayers::for_capacity(16);
    layers.record_bits(&[0.25f32.to_bits(), 0.5f32.to_bits()]);

    assert!(layers.overdub(1));
    layers.record_bits(&[0.125f32.to_bits()]);

    assert_eq!([heard_at(&layers, 0), heard_at(&layers, 1)], [0.25, 0.625]);
    assert_eq!(layers.depth(), 2);
}

#[test]
fn an_overdub_wraps_round_the_end_of_the_loop() {
    let mut layers = LoopLayers::for_capacity(16);
    layers.record_bits(&[0, 0, 0]);
    layers.overdub(2);

    let (taken, spans) = layers.record_bits(&[1, 2, 3, 4, 5]);

    assert_eq!(taken, 5);
    assert_eq!(spans, [(2, 1), (0, 3), (0, 1)]);
    assert_eq!(layers.sample_bits(1, 0), 5);
    assert_eq!(layers.sample_bits(1, 1), 3);
    assert_eq!(layers.sample_bits(1, 2), 4);
    assert!(layers.covers(1, 0) && layers.covers(1, 1) && layers.covers(1, 2));
}

#[test]
fn an_undo_gives_back_the_loop_under_the_overdub() {
    let mut layers = LoopLayers::for_capacity(16);
    layers.record_bits(&[0.25f32.to_bits(), 0.5f32.to_bits()]);
    let before = [heard_at(&layers, 0), heard_at(&layers, 1)];

    layers.overdub(0);
    layers.record_bits(&[0.125f32.to_bits(), 0.125f32.to_bits()]);
    assert!(layers.undo());

    assert_eq!([heard_at(&layers, 0), heard_at(&layers, 1)], before);
    assert_eq!(layers.depth(), 1);
    assert_eq!(layers.vacant(), 0);
    assert!(!layers.undo());
    assert!(layers.is_stale());
}

#[test]
fn the_take_is_never_undone_and_a_full_stack_takes_no_overdub() {
    let mut layers = LoopLayers::for_capacity(4);
    assert!(!layers.overdub(0));
    layers.record_bits(&[1]);
    assert!(!layers.undo());

    for _ in 0..7 {
        assert!(layers.overdub(0));
    }
    assert!(!layers.overdub(0));
    assert_eq!(layers.depth(), 8);
}

#[test]
fn a_take_takes_no_more_than_a_layer_holds() {
    let mut layers = LoopLayers::for_capacity(3);

    assert_eq!(layers.record_bits(&[1, 2, 3, 4, 5]).0, 3);
    assert_eq!(layers.len(), 3);
    assert_eq!(layers.vacant(), 0);
}

#[test]
fn a_loop_repeats_as_often_as_a_block_needs() {
    let mut layers = LoopLayers::for_capacity(8);
    layers.record_bits(&[1, 2, 3]);

    assert_eq!(layers.play_from(0), Some(0));
    assert_eq!(layers.played_to(0, 5), 2);
    assert_eq!(layers.play_from(7), Some(0));
    assert_eq!(layers.mix_window(5, 1), 2);
}

#[test]
fn an_empty_loop_plays_nothing() {
    let layers = LoopLayers::for_capacity(8);

    assert_eq!(layers.play_from(0), None);
    assert!(layers.is_empty());
}

#[test]
fn a_stale_summary_is_repainted_a_block_at_a_time() {
    let mut layers = LoopLayers::for_capacity(8);
    layers.record_bits(&[1, 2, 3, 4, 5]);
    layers.overdub(0);
    layers.undo();

    assert_eq!(layers.resummarise(2), Some((0, 2)));
    assert_eq!(layers.resummarise(2), Some((2, 2)));
    assert_eq!(layers.resummarise(2), Some((4, 1)));
    assert_eq!(layers.resummarise(2), None);
    assert!(!layers.is_stale());
}

#[test]
fn a_cleared_loop_takes_a_new_take() {
    let mut layers = LoopLayers::for_capacity(8);
    layers.record_bits(&[1, 2, 3]);
    layers.overdub(0);

    layers.clear();

    assert!(layers.is_empty());
    assert_eq!(layers.depth(), 0);
    assert_eq!(layers.record_bits(&[9]).0, 1);
}

#[test]
fn stopping_keeps_the_loop_and_closes_what_was_open() {
    let stopped = moving(Transport::Overdubbing, Transport::Stopped, true, 2);
    assert!(!stopped.restarts);
    assert!(!stopped.overdubs);
    assert_eq!(stopped.hand_over, HandOver::Begin);
    assert!(!(Transport::Stopped.captures_input() && stopped.layer_open));

    let played = moving(Transport::Recording, Transport::Playing, true, 1);
    assert!(!(Transport::Playing.captures_input() && played.layer_open));
}

#[test]
fn an_overdub_leaves_the_take_beneath_it_as_it_was() {
    let mut layers = LoopLayers::for_capacity(16);
    layers.record_bits(&[7, 8, 9]);

    assert!(layers.overdub(1));
    layers.record_bits(&[1, 2, 3, 4, 5, 6, 7]);

    assert_eq!(layers.len(), 3);
    assert_eq!([layers.sample_bits(0, 0), layers.sample_bits(0, 1), layers.sample_bits(0, 2)], [7, 8, 9]);
    assert!(layers.covers(0, 0) && layers.covers(0, 1) && layers.covers(0, 2));
}

#[test]
fn the_page_moves_the_transport_and_owes_the_engine_each_move() {
    let mut page = PageState::new();
    let orders = page.control(PageEvent::Pressed { button: Button::Record, shifted: false });
    assert_eq!(orders, [PageOrder::Send(Command::SetTransport(Transport::Recording))]);
    assert_eq!(page.transport, Transport::Recording);

    page.ordered(Command::SetTransport(Transport::Recording), false);
    assert_eq!(page.owed(), [PageOrder::Send(Command::SetTransport(Transport::Recording))]);
    page.ordered(Command::SetTransport(Transport::Recording), true);
    assert!(page.owed().is_empty());

    let orders = page.control(PageEvent::Pressed { button: Button::Left, shifted: false });
    assert!(orders.is_empty());
    assert_eq!(page.transport, Transport::Recording);
}

#[test]
fn shifted_controls_tap_mute_undo_and_empty() {
    let mut page = PageState::new();
    assert_eq!(page.control(PageEvent::Pressed { button: Button::Play, shifted: true }), [PageOrder::Tap]);
    assert_eq!(
        page.control(PageEvent::Pressed { button: Button::Record, shifted: true }),
        [PageOrder::Send(Command::SetMuted(true))]
    );
    assert!(page.muted);
    page.ordered(Command::SetMuted(true), true);

    page.transport = Transport::Overdubbing;
    page.ordered_transport = Transport::Overdubbing;
    assert_eq!(
        page.control(PageEvent::Pressed { button: Button::Stop, shifted: true }),
        [PageOrder::Send(Command::SetTransport(Transport::Playing)), PageOrder::Send(Command::Undo)]
    );
    assert_eq!(page.undos, 1);

    let orders = page.control(PageEvent::Pressed { button: Button::Down, shifted: true });
    assert_eq!(page.transport, Transport::Idle);
    assert!(page.emptying);
    assert_eq!(orders.last(), Some(&PageOrder::Send(Command::Clear)));
    page.ordered(Command::Clear, true);
    assert!(!page.emptying);

    assert_eq!(page.control(PageEvent::Turned { clockwise: false }), [PageOrder::Nudge { up: false }]);
}

#[test]
fn a_waveform_read_is_kept_only_where_no_publish_overlapped_it() {
    let words = WaveformWords { buckets: vec![1, 2], width: 4, length: 8 };

    assert_eq!(settled(6, 6, words.clone()), Some(words.clone()));
    assert_eq!(settled(7, 7, words.clone()), None);
    assert_eq!(settled(6, 8, words.clone()), None);
    assert_eq!(settled(u32::MAX - 1, u32::MAX - 1, words.clone()), Some(words));
}

#[test]
fn changing_the_layers_drops_the_take_only_while_the_loop_is_written() {
    assert_eq!(handing_over(Transport::Overdubbing, true), HandOver::Abandon);
    assert_eq!(handing_over(Transport::Recording, true), HandOver::Abandon);
    assert_eq!(handing_over(Transport::Overdubbing, false), HandOver::Begin);
    assert_eq!(handing_over(Transport::Playing, true), HandOver::Begin);
}
