use motif::audio::{
    boundary, channel_counts, headroom_meter, identified, listed_default, offered_selection,
    offering_device, passthrough, ramp_frames, Act, AudioDevice, AudioHost, AudioState,
    ChannelSelection, CpalBackend, DeviceCatalog, DeviceError, DeviceId, DeviceSelection, HeadroomWindow, Link,
    NullBackend, Received, SendError, StreamConfig, StreamRequest, StreamState, IDLE_BITS, SILENCE,
};

fn config(block_size: u32, input_channels: u16, output_channels: u16) -> StreamConfig {
    StreamConfig { sample_rate: 48_000, block_size, input_channels, output_channels }
}

fn bits(samples: &[f32]) -> Vec<u32> {
    samples.iter().map(|sample| sample.to_bits()).collect()
}

fn id(name: &str, nth: usize) -> DeviceId {
    DeviceId { name: name.to_owned(), nth }
}

fn device(name: &str, channels: &[u16]) -> AudioDevice {
    AudioDevice { id: id(name, 0), channels: channels.to_vec() }
}

fn holding(host: &str, input: &str, output: &str) -> DeviceSelection {
    DeviceSelection {
        host: host.to_owned(),
        input: id(input, 0),
        input_channels: ChannelSelection::all(2),
        output: id(output, 0),
        output_channels: ChannelSelection::all(2),
    }
}

#[test]
fn nothing_crosses_a_boundary_before_both_ends_have_run() {
    let (mut input, mut output) = boundary(
        config(2, 1, 1),
        ChannelSelection::all(1),
        ChannelSelection::all(1),
        0,
    );

    assert!(!input.begin());
    assert_eq!(output.begin(2), None);

    assert!(input.begin());
    assert_eq!(input.write_folded(&bits(&[0.3, 0.4])), 2);
    assert_eq!(output.begin(2), Some(0));

    let mut captured = [0u32; 2];
    assert_eq!(output.pull(&mut captured, 2, 2), 2);
    assert_eq!(captured.to_vec(), bits(&[0.3, 0.4]));

    let mut played = [9u32; 2];
    output.spread(&mut played, &captured);
    assert_eq!(played.to_vec(), bits(&[0.3, 0.4]));
}

#[test]
fn a_pull_silences_what_the_ring_did_not_supply_and_holds_the_last() {
    let (mut input, mut output) = boundary(
        config(4, 1, 1),
        ChannelSelection::all(1),
        ChannelSelection::all(1),
        0,
    );
    input.write_folded(&[7]);

    let mut captured = [9u32; 6];
    assert_eq!(output.pull(&mut captured, 5, 3), 1);
    assert_eq!(captured, [7, SILENCE, SILENCE, SILENCE, SILENCE, 9]);
}

#[test]
fn a_pull_past_the_padding_holds_the_last_sample_read() {
    let (mut input, mut output) = boundary(
        config(4, 1, 1),
        ChannelSelection::all(1),
        ChannelSelection::all(1),
        0,
    );
    input.write_folded(&[5, 6]);

    let mut captured = [0u32; 4];
    assert_eq!(output.pull(&mut captured, 4, 2), 2);
    assert_eq!(captured, [5, 6, 6, 6]);
}

#[test]
fn a_spread_fills_the_selected_channels_and_silences_the_rest() {
    let (_input, output) = boundary(
        config(2, 1, 3),
        ChannelSelection::all(1),
        ChannelSelection { first: 1, count: 2 },
        0,
    );

    let mut played = [9u32; 7];
    output.spread(&mut played, &[4, 5]);
    assert_eq!(played, [SILENCE, 4, 4, SILENCE, 5, 5, SILENCE]);
}

#[test]
fn a_boundary_reports_its_shape() {
    let (input, output) = boundary(
        config(64, 2, 4),
        ChannelSelection { first: 1, count: 1 },
        ChannelSelection::all(4),
        128,
    );

    assert_eq!(input.shape(), (2, (1, 2), 64));
    assert_eq!(output.shape(), (4, (0, 4), 64));
}

#[test]
fn a_passthrough_plays_its_slack_as_silence_first() {
    let (mut input, mut output) = passthrough(config(2, 1, 2), 2);
    let mut played = [9u32; 4];

    assert_eq!(input.write_folded(&[7, 8]), 2);
    assert_eq!(output.render_bits(&mut played), 2);
    assert_eq!(played, [SILENCE, SILENCE, SILENCE, SILENCE]);

    assert_eq!(output.render_bits(&mut played), 2);
    assert_eq!(played, [7, 7, 8, 8]);
}

#[test]
fn a_passthrough_silences_what_the_ring_ran_dry_of() {
    let (mut input, mut output) = passthrough(config(4, 1, 2), 0);
    let mut played = [9u32; 7];

    input.write_folded(&[3]);

    assert_eq!(output.render_bits(&mut played), 1);
    assert_eq!(played, [3, 3, SILENCE, SILENCE, SILENCE, SILENCE, SILENCE]);
    assert_eq!(input.capacity(), 8);
    assert_eq!(input.channels(), 1);
    assert_eq!(input.block(), 4);
}

#[test]
fn a_link_opens_and_plays_what_the_device_gave_it() {
    let mut link = Link::new();

    assert_eq!(link.state(), AudioState::Closed);
    assert_eq!(link.act(true), Act::Refused(DeviceError::DeviceNotAvailable));

    assert!(!link.open());
    assert_eq!(link.state(), AudioState::Opening);
    assert!(link.awaiting());
    assert_eq!(link.act(true), Act::Settled);

    assert!(link.arrive(Ok(())));
    assert_eq!(link.state(), AudioState::Idle);
    assert!(link.holding());

    assert_eq!(link.act(true), Act::Perform);
    assert_eq!(link.performed(true, Ok(())), Ok(()));
    assert_eq!(link.state(), AudioState::Playing);
}

#[test]
fn a_lost_link_stays_lost_until_it_is_opened_again() {
    let mut link = Link::new();
    link.open();
    link.arrive(Ok(()));

    link.faulted(DeviceError::DeviceNotAvailable);

    assert_eq!(link.state(), AudioState::Lost(DeviceError::DeviceNotAvailable));
    assert!(!link.holding());
    assert!(!link.collect(Received::Nothing));
    assert_eq!(link.act(true), Act::Refused(DeviceError::DeviceNotAvailable));
    assert_eq!(link.act(false), Act::Refused(DeviceError::DeviceNotAvailable));
    assert_eq!(link.state(), AudioState::Lost(DeviceError::DeviceNotAvailable));

    assert!(!link.open());
    assert!(!link.collect(Received::Gone));
    assert_eq!(link.state(), AudioState::Lost(DeviceError::BackendFailure));
}

#[test]
fn a_stream_that_refuses_to_start_loses_the_link() {
    let mut link = Link::new();
    link.open();
    assert!(!link.collect(Received::Answer(Ok(()))));

    assert_eq!(link.act(true), Act::Perform);
    assert_eq!(
        link.performed(true, Err(DeviceError::PermissionDenied)),
        Err(DeviceError::PermissionDenied)
    );
    assert_eq!(link.state(), AudioState::Lost(DeviceError::PermissionDenied));
    assert!(!link.holding());
}

#[test]
fn a_link_wanted_running_starts_what_arrives() {
    let mut link = Link::new();
    link.act(true);
    link.open();

    assert!(link.collect(Received::Answer(Ok(()))));
}

#[test]
fn choosing_reports_opening_and_keeps_the_stream() {
    let mut link = Link::new();
    link.open();
    link.arrive(Ok(()));

    assert!(!link.chosen());
    link.take_choice();

    assert!(link.chosen());
    assert!(link.holding());
    assert_eq!(link.state(), AudioState::Opening);

    link.close();
    assert_eq!(link.state(), AudioState::Closed);
    assert!(!link.holding());
}

#[test]
fn a_catalog_reads_empty_until_it_has_listed() {
    let catalog = DeviceCatalog::new(48_000);

    assert!(!catalog.has_listed());
    assert!(catalog.hosts().is_empty());
    assert_eq!(catalog.sample_rate(), 48_000);
}

#[test]
fn a_catalog_carries_back_the_devices_a_stream_is_open_on() {
    let granted = config(256, 2, 2);
    let backend = NullBackend::rounding(granted);
    let mut catalog = DeviceCatalog::new(48_000);
    let held = holding("null", "null input", "null output");

    catalog.refresh(backend.hosts(48_000), None);
    assert!(catalog.has_listed());
    assert_eq!(catalog.hosts().len(), 1);

    catalog.refresh(Vec::new(), Some(&held));
    assert_eq!(
        catalog.hosts(),
        [AudioHost {
            name: "null".to_owned(),
            inputs: vec![device("null input", &[2])],
            outputs: vec![device("null output", &[2])],
        }]
    );

    catalog.refresh(Vec::new(), None);
    assert!(catalog.hosts().is_empty());
    assert!(catalog.has_listed());
}

#[test]
fn a_catalog_keeps_a_listing_that_lost_nothing_held() {
    let mut catalog = DeviceCatalog::new(48_000);
    let listed = vec![AudioHost {
        name: "alsa".to_owned(),
        inputs: vec![device("mic", &[1, 2])],
        outputs: vec![device("speakers", &[2])],
    }];
    let held = holding("alsa", "mic", "speakers");

    catalog.refresh(listed.clone(), None);
    catalog.refresh(listed.clone(), Some(&held));

    assert_eq!(catalog.hosts(), listed.as_slice());
}

#[test]
fn a_catalog_carries_only_the_lost_direction() {
    let mut catalog = DeviceCatalog::new(48_000);
    let before = vec![AudioHost {
        name: "alsa".to_owned(),
        inputs: vec![device("mic", &[1, 2])],
        outputs: vec![device("speakers", &[2])],
    }];
    let after = vec![AudioHost {
        name: "alsa".to_owned(),
        inputs: Vec::new(),
        outputs: vec![device("speakers", &[2])],
    }];
    let held = holding("alsa", "mic", "speakers");

    catalog.refresh(before.clone(), None);
    catalog.refresh(after, Some(&held));

    assert_eq!(catalog.hosts(), before.as_slice());
}

#[test]
fn the_null_backend_lists_only_at_its_granted_rate() {
    let backend = NullBackend::rounding(config(256, 1, 0));

    assert!(backend.hosts(44_100).is_empty());
    assert_eq!(
        backend.hosts(48_000),
        [AudioHost {
            name: "null".to_owned(),
            inputs: vec![device("null input", &[1])],
            outputs: Vec::new(),
        }]
    );
}

#[test]
fn a_rejecting_null_backend_refuses_a_request_it_cannot_meet() {
    let granted = config(256, 2, 2);
    let rejecting = NullBackend::rejecting(granted);
    let rounding = NullBackend::rounding(granted);
    let asked = StreamRequest { sample_rate: 44_100, block_size: 256 };

    assert_eq!(rejecting.open(asked).err(), Some(DeviceError::UnsupportedConfig));

    let mut stream = rounding.open(asked).ok().expect("a rounding device opens");
    assert_eq!(stream.config(), granted);
    assert_eq!(stream.state(), StreamState::Stopped);
    assert_eq!(stream.start(), Ok(()));
    assert_eq!(stream.state(), StreamState::Running);
    assert_eq!(stream.fault(), None);

    stream.fail(DeviceError::DeviceNotAvailable);
    assert_eq!(stream.fault(), Some(DeviceError::DeviceNotAvailable));
    assert_eq!(stream.stop(), Ok(()));
    assert_eq!(stream.xruns().overruns, 0);
}

#[test]
fn channel_counts_ascend_without_repeats() {
    assert_eq!(channel_counts(&[2, 1, 2, 8, 1]), [1, 2, 8]);
    assert!(channel_counts(&[]).is_empty());
}

#[test]
fn devices_sharing_a_name_are_counted_in_order() {
    let names = vec!["hdmi".to_owned(), "usb".to_owned(), "hdmi".to_owned(), "hdmi".to_owned()];
    let ids = identified(&names);

    assert_eq!(ids.iter().map(|id| id.nth).collect::<Vec<_>>(), [0, 0, 1, 2]);
    assert_eq!(ids[2].name, "hdmi");
}

#[test]
fn a_device_offering_no_count_is_not_listed() {
    assert_eq!(offering_device(id("mute", 0), Vec::new()), None);
    assert_eq!(offering_device(id("mic", 0), vec![1, 2]), Some(device("mic", &[1, 2])));
}

#[test]
fn a_selection_is_held_to_what_is_offered_and_to_one() {
    assert_eq!(offered_selection(&[1, 2], 8), Some(ChannelSelection::all(2)));
    assert_eq!(offered_selection(&[1, 2, 4], 2), Some(ChannelSelection::all(2)));
    assert_eq!(offered_selection(&[4], 0), Some(ChannelSelection::all(1)));
    assert_eq!(offered_selection(&[], 2), None);
}

#[test]
fn a_default_is_the_device_named_or_else_the_first() {
    let listed = vec![device("mic", &[1]), device("interface", &[2, 4])];

    assert_eq!(
        listed_default(&listed, Some("interface".to_owned()), None),
        Some((id("interface", 0), ChannelSelection::all(4)))
    );
    assert_eq!(
        listed_default(&listed, Some("interface".to_owned()), Some(2)),
        Some((id("interface", 0), ChannelSelection::all(2)))
    );
    assert_eq!(
        listed_default(&listed, Some("gone".to_owned()), None),
        Some((id("mic", 0), ChannelSelection::all(1)))
    );
    assert_eq!(listed_default(&Vec::new(), None, None), None);
}

#[test]
fn the_real_backend_is_a_plain_value() {
    assert_eq!(CpalBackend::new(), CpalBackend);
    assert_eq!(CpalBackend::default(), CpalBackend);
}

#[test]
fn a_headroom_window_spans_two_screen_frames() {
    let mut window = HeadroomWindow::spanning(48_000);

    assert!(!window.pass(3_000));
    assert!(window.pass(199));
    assert!(!window.pass(3_198));
}

#[test]
fn a_headroom_meter_reads_idle_until_published() {
    let (mut writer, reader) = headroom_meter(48_000);

    assert_eq!(reader.read_bits(), IDLE_BITS);
    assert!(writer.measures(48));
    assert!(!writer.measures(0));
    writer.publish_bits(42);
    assert_eq!(reader.read_bits(), 42);
    assert_eq!(writer.last_bits(), 42);
    assert_eq!(writer.sample_rate(), 48_000);
}

#[test]
fn a_ramp_lasts_ten_milliseconds_and_never_less_than_a_frame() {
    assert_eq!(ramp_frames(48_000), 480);
    assert_eq!(ramp_frames(44_100), 441);
    assert_eq!(ramp_frames(50), 1);
    assert_eq!(ramp_frames(0), 1);
}

#[test]
fn a_boundary_meters_what_its_playback_end_published() {
    let (input, mut output) = boundary(
        config(4, 1, 1),
        ChannelSelection::all(1),
        ChannelSelection::all(1),
        0,
    );
    let meter = output.metering();

    assert_eq!(meter.read_bits(), 0);
    output.publish_played(42);
    assert_eq!(meter.read_bits(), 42);
    output.silence_played();
    assert_eq!(meter.read_bits(), 0);

    let primed = input.priming();
    assert!(!primed.capture_has_run());
    input.priming().capture_ran();
    assert!(primed.capture_has_run());
}

#[test]
fn a_catalog_tells_apart_devices_sharing_a_name() {
    let mut catalog = DeviceCatalog::new(48_000);
    let twins = |inputs: Vec<AudioDevice>| {
        vec![AudioHost { name: "alsa".to_owned(), inputs, outputs: vec![device("speakers", &[2])] }]
    };
    let first = AudioDevice { id: id("usb", 0), channels: vec![1] };
    let second = AudioDevice { id: id("usb", 1), channels: vec![2] };
    let mut held = holding("alsa", "usb", "speakers");
    held.input = id("usb", 1);

    catalog.refresh(twins(vec![first.clone(), second.clone()]), None);
    catalog.refresh(twins(vec![first.clone()]), Some(&held));

    assert_eq!(catalog.hosts()[0].inputs, [first, second]);
    assert_eq!(held.input_channels, ChannelSelection::all(2));
}

#[test]
fn errors_say_what_went_wrong_in_words() {
    assert_eq!(DeviceError::NoInputDevice.described(), "the host offers no input device");
    assert_eq!(DeviceError::PermissionDenied.described(), "access to the device was refused");
    assert_eq!(DeviceError::BackendFailure.described(), "the audio backend failed");
    assert_eq!(DeviceError::NoSuchHost.described(), "no host of that name is available");
    assert_eq!(SendError::Full.described(), "the command queue is full");
}
