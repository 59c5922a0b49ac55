use motif::audio::{
    chunk_asks, chunk_supplied, occupied_of, readable, receivable, room_of, sendable, skippable, writable,
    command_channel, decoded, Command, encoded, fault_channel, latency_probe, level_meter, priority_latch,
    primed_ring, sample_clock, sample_ring, slack_hold, split_at_offset, transport_bits, transport_from_bits,
    xrun_counter, ChannelSelection, DeviceError, Grant, Placement, RoundTrip, SendError, Trim,
    SILENT_BITS,
};
use motif::device::DeviceProfile;
use motif::looper::Transport;
use std::time::Duration;

fn bits(samples: &[f32]) -> Vec<u32> {
    samples.iter().map(|sample| sample.to_bits()).collect()
}

fn floats(words: &[u32]) -> Vec<f32> {
    words.iter().map(|word| f32::from_bits(*word)).collect()
}

#[test]
fn a_ring_gives_back_what_was_written_in_order() {
    let (mut producer, mut consumer) = sample_ring(64);
    let mut taken = [0u32; 2];

    assert_eq!(producer.write_bits(&bits(&[1.0, 2.0])), 2);
    assert_eq!(consumer.read_bits(&mut taken), 2);

    assert_eq!(floats(&taken), [1.0, 2.0]);
}

#[test]
fn a_skip_drops_the_oldest_samples() {
    let (mut producer, mut consumer) = sample_ring(4);
    let mut taken = [0u32; 2];

    producer.write_bits(&bits(&[1.0, 2.0, 3.0, 4.0]));
    assert_eq!(consumer.skip(2), 2);
    consumer.read_bits(&mut taken);

    assert_eq!(floats(&taken), [3.0, 4.0]);
}

#[test]
fn a_full_ring_takes_what_fits_and_drops_the_rest() {
    let (mut producer, mut consumer) = sample_ring(3);

    assert_eq!(producer.write_bits(&[1, 2, 3, 4, 5]), 3);
    assert_eq!(producer.vacant(), 0);
    assert_eq!(consumer.available(), 3);
    assert_eq!(producer.capacity(), 3);
    assert_eq!(consumer.capacity(), 3);
}

#[test]
fn a_dry_ring_leaves_the_rest_of_the_block_as_it_was() {
    let (mut producer, mut consumer) = sample_ring(8);
    let mut taken = [9u32; 4];

    producer.write_bits(&[1, 2]);

    assert_eq!(consumer.read_bits(&mut taken), 2);
    assert_eq!(taken, [1, 2, 9, 9]);
}

#[test]
fn a_read_up_to_a_limit_stops_there() {
    let (mut producer, mut consumer) = sample_ring(8);
    let mut taken = [0u32; 4];

    producer.write_bits(&[1, 2, 3, 4]);

    assert_eq!(consumer.read_bits_up_to(&mut taken, 3), 3);
    assert_eq!(taken, [1, 2, 3, 0]);
    assert_eq!(consumer.available(), 1);
}

#[test]
fn a_ring_wraps_round_its_end() {
    let (mut producer, mut consumer) = sample_ring(4);
    let mut taken = [0u32; 3];

    producer.write_bits(&[1, 2, 3]);
    consumer.read_bits(&mut taken);
    producer.write_bits(&[4, 5, 6]);

    assert_eq!(consumer.read_bits(&mut taken), 3);
    assert_eq!(taken, [4, 5, 6]);
}

#[test]
fn a_run_splits_where_it_meets_the_end_of_the_ring() {
    assert_eq!(split_at_offset(8, 6, 4), (6, 2, 2));
    assert_eq!(split_at_offset(8, 10, 3), (2, 3, 0));
    assert_eq!(split_at_offset(8, 0, 8), (0, 8, 0));
}

#[test]
fn a_ring_holding_its_slack_exactly_plays_steady() {
    let (mut trim, reader) = slack_hold(256, 256);

    assert_eq!(trim.trim(512, 256), Trim::Steady);
    assert_eq!(reader.read().held, 256);
}

#[test]
fn a_ring_running_long_gives_up_a_few_frames() {
    let (mut trim, _reader) = slack_hold(256, 256);

    assert_eq!(trim.trim(1_024, 256), Trim::Drop(8));
    assert_eq!(trim.trim(520, 256), Trim::Drop(8));
    assert_eq!(trim.trim(512, 256), Trim::Steady);
}

#[test]
fn a_ring_running_short_plays_a_few_frames_it_never_supplied() {
    let (mut trim, _reader) = slack_hold(256, 256);

    assert_eq!(trim.trim(300, 256), Trim::Insert(8));
}

#[test]
fn a_ring_too_dry_to_fill_the_block_is_left_alone() {
    let (mut trim, _reader) = slack_hold(256, 256);

    assert_eq!(trim.trim(100, 256), Trim::Steady);
}

#[test]
fn a_transport_crosses_as_its_code_and_comes_back() {
    for transport in [
        Transport::Idle,
        Transport::Recording,
        Transport::Playing,
        Transport::Overdubbing,
        Transport::Stopped,
    ] {
        assert_eq!(transport_from_bits(transport_bits(transport)), Some(transport));
    }
    assert_eq!(transport_bits(Transport::Overdubbing), 3);
    assert_eq!(transport_from_bits(5), None);
}

#[test]
fn a_full_command_queue_refuses_rather_than_waits() {
    let (mut sender, mut receiver) = command_channel(2);

    assert_eq!(sender.send_bits(7), Ok(()));
    assert_eq!(sender.send_bits(8), Ok(()));
    assert_eq!(sender.send_bits(9), Err(SendError::Full));
    assert_eq!(receiver.pending(), 2);
    assert_eq!(receiver.recv_bits(), Some(7));
    assert_eq!(receiver.recv_bits(), Some(8));
    assert_eq!(receiver.recv_bits(), None);
    assert_eq!(sender.vacant(), 2);
}

#[test]
fn a_fault_crosses_as_its_code_and_comes_back() {
    for error in [
        DeviceError::NoInputDevice,
        DeviceError::NoOutputDevice,
        DeviceError::UnsupportedConfig,
        DeviceError::DeviceNotAvailable,
        DeviceError::PermissionDenied,
        DeviceError::BackendFailure,
        DeviceError::NoSuchHost,
    ] {
        assert_eq!(decoded(encoded(error)), Some(error));
        assert_ne!(encoded(error), 0);
    }
    assert_eq!(decoded(0), None);
}

#[test]
fn a_fault_latch_reads_nothing_until_a_fault_is_reported() {
    let (reporter, reader) = fault_channel();

    assert_eq!(reader.read(), None);

    reporter.report(DeviceError::DeviceNotAvailable);

    assert_eq!(reader.read(), Some(DeviceError::DeviceNotAvailable));
}

#[test]
fn xruns_count_each_direction_apart() {
    let (mut overruns, mut underruns, reader) = xrun_counter();

    overruns.overran();
    underruns.underran();
    underruns.underran();

    assert_eq!(reader.read().overruns, 1);
    assert_eq!(reader.read().underruns, 2);
}

#[test]
fn a_sample_clock_reads_the_frames_it_was_advanced_by() {
    let (mut elapsed, now) = sample_clock();

    assert_eq!(elapsed.advance(128), 128);
    elapsed.advance(128);

    assert_eq!(now.read(), 256);
}

#[test]
fn a_level_meter_reads_what_was_published_and_silence_after() {
    let (mut writer, reader) = level_meter(2, ChannelSelection::all(2));

    assert_eq!(reader.read_bits(), SILENT_BITS);
    writer.publish_bits(0x3f00_0000_3e80_0000);
    assert_eq!(reader.read_bits(), 0x3f00_0000_3e80_0000);
    writer.silence();
    assert_eq!(reader.read_bits(), SILENT_BITS);
    assert_eq!(writer.channels(), 2);
    assert_eq!(writer.selected(), (0, 2));
}

#[test]
fn a_meter_holds_a_selection_inside_its_block() {
    let (writer, _reader) = level_meter(2, ChannelSelection { first: 1, count: 4 });

    assert_eq!(writer.selected(), (1, 2));
}

#[test]
fn audio_is_placed_on_the_last_core() {
    let reserved = Placement::reserving_last_of(DeviceProfile::target().cores);

    assert_eq!(reserved.core, 3);
    assert_eq!(Placement::reserving_last_of(0).core, 0);
}

#[test]
fn a_core_list_places_audio_on_its_last_core() {
    assert_eq!(Placement::available(&[0, 1, 5]).core, 5);
}

#[test]
fn a_refusal_on_permission_is_refused_and_anything_else_unavailable() {
    assert_eq!(Grant::refusing(libc::EPERM), Grant::Refused);
    assert_eq!(Grant::refusing(libc::EACCES), Grant::Refused);
    assert_eq!(Grant::refusing(libc::EINVAL), Grant::Unavailable);
    assert_eq!(Grant::refusing_among(13, (1, 13)), Grant::Refused);
    assert_eq!(Grant::refusing_among(22, (1, 13)), Grant::Unavailable);
    assert_eq!(Grant::of_pinning(Ok(())), Grant::Given);
    assert_eq!(Grant::of_pinning(Err(libc::EPERM)), Grant::Refused);
}

#[test]
fn a_denied_priority_latches_refused() {
    let (reporter, reader) = priority_latch(Grant::Hosted);

    assert_eq!(reader.read(), Grant::Hosted);

    reporter.denied();

    assert_eq!(reader.read(), Grant::Refused);
}

#[test]
fn a_round_trip_budget_is_five_blocks() {
    assert_eq!(RoundTrip::budget(256).frames, 1_280);
    assert_eq!(RoundTrip { frames: 48 }.duration(48_000), Duration::from_millis(1));
    assert!(RoundTrip { frames: 1_280 }.within(RoundTrip::budget(256)));
    assert!(!RoundTrip { frames: 1_281 }.within(RoundTrip::budget(256)));
}

#[test]
fn a_probe_reads_nothing_before_it_has_measured() {
    let (_probe, measured) = latency_probe();

    assert!(measured.read().is_none());
}

#[test]
fn a_command_crosses_as_one_word_and_reads_back() {
    let commands = [
        Command::SetTransport(Transport::Overdubbing),
        Command::SetMuted(true),
        Command::SetMuted(false),
        Command::SetGain(0.5f32.to_bits()),
        Command::SetBars(Some(0x0004_0002)),
        Command::SetBars(None),
        Command::Undo,
        Command::Clear,
    ];
    for command in commands {
        assert_eq!(Command::from_bits(command.to_bits()), Some(command));
    }
    assert_eq!(Command::Undo.to_bits(), 3 << 32);
    assert_eq!(Command::SetMuted(true).to_bits(), (1 << 32) | 1);
}

#[test]
fn a_word_naming_no_command_is_discarded() {
    assert_eq!(Command::from_bits((1 << 32) | 2), None);
    assert_eq!(Command::from_bits((3 << 32) | 1), None);
    assert_eq!(Command::from_bits(6 << 32), None);
    assert_eq!(Command::from_bits(0x0000_0000_0000_0009), None);
    assert_eq!(Command::from_bits(5 << 32), Some(Command::SetBars(None)));
}

#[test]
fn a_command_sent_is_the_command_received() {
    let (mut sender, mut receiver) = command_channel(2);
    assert_eq!(sender.send(Command::Clear), Ok(()));
    assert_eq!(receiver.recv(), Some(Command::Clear));
    assert_eq!(receiver.recv(), None);
}

#[test]
fn a_sample_clock_counts_on_from_where_it_was_and_holds_at_the_top() {
    let (mut elapsed, now) = sample_clock();

    assert_eq!(now.read(), 0);
    assert_eq!(elapsed.advance(128), 128);
    assert_eq!(elapsed.advance(128), 256);
    assert_eq!(now.read(), 256);
    assert_eq!(elapsed.advance(usize::MAX), u64::MAX);
    assert_eq!(elapsed.advance(1), u64::MAX);
}

#[test]
fn a_primed_ring_is_read_from_behind_what_it_was_built_holding() {
    let (mut producer, mut consumer) = primed_ring(4, 2, 7);
    let mut taken = [0u32; 3];

    assert_eq!(consumer.available(), 2);
    assert_eq!(producer.vacant(), 2);
    assert_eq!(producer.write_bits(&[9, 9, 9]), 2);
    assert_eq!(consumer.read_bits(&mut taken), 3);

    assert_eq!(taken, [7, 7, 9]);
}

#[test]
fn the_counters_count_round_the_word() {
    assert_eq!(occupied_of(10, 4), 6);
    assert_eq!(occupied_of(2, usize::MAX), 3);
    assert_eq!(room_of(8, 10, 4), 2);
    assert_eq!(room_of(8, 2, usize::MAX), 5);
    assert_eq!(room_of(4, 10, 4), 0);
    assert_eq!(room_of(4, 4, 10), 0);
}

#[test]
fn a_call_takes_what_the_counters_leave_room_for() {
    assert_eq!(writable(5, 8, 10, 4), 2);
    assert_eq!(writable(1, 8, 10, 4), 1);
    assert_eq!(writable(3, 8, 4, 4), 3);
    assert_eq!(readable(10, 3, 8, 10, 4), 3);
    assert_eq!(readable(10, 10, 4, 10, 4), 4);
    assert_eq!(readable(2, 10, 8, 10, 4), 2);
    assert_eq!(readable(10, 10, 8, 10, 4), 6);
    assert_eq!(skippable(10, 10, 4), 6);
    assert_eq!(skippable(2, 10, 4), 2);
    assert!(sendable(2, 5, 4));
    assert!(!sendable(2, 6, 4));
    assert!(!sendable(1, 0, usize::MAX));
    assert!(sendable(2, 0, usize::MAX));
    assert!(sendable(1, usize::MAX, usize::MAX));
    assert!(receivable(5, 4));
    assert!(!receivable(4, 4));
}

#[test]
fn a_drain_takes_only_what_was_waiting_when_it_began() {
    let (mut sender, mut receiver) = command_channel(4);
    sender.send(Command::Undo).expect("room");
    sender.send(Command::Clear).expect("room");

    let mut drain = receiver.drain();
    sender.send(Command::SetMuted(true)).expect("room");
    assert_eq!(drain.next_from(&mut receiver), Some(Command::Undo));
    assert_eq!(drain.next_from(&mut receiver), Some(Command::Clear));
    assert_eq!(drain.next_from(&mut receiver), None);
    assert_eq!(receiver.pending(), 1);
    assert_eq!(receiver.recv(), Some(Command::SetMuted(true)));
}

#[test]
fn a_chunk_asks_past_the_hold_and_counts_what_came() {
    assert_eq!(chunk_asks(64, 16), 48);
    assert_eq!(chunk_asks(64, 0), 64);
    assert_eq!(chunk_asks(8, 16), 0);
    assert_eq!(chunk_supplied(64, 48, 48), 64);
    assert_eq!(chunk_supplied(64, 48, 30), 30);
    assert_eq!(chunk_supplied(64, 0, 0), 64);
}
