use motif::analysis::{divide, dividing, frames_in, Priors, TrackedGrid, ASSUMED_BAR};
use motif::device::{AudioProfile, Button, Control, DeviceProfile, Encoder, ScreenProfile};
use motif::fixtures::synth::{Onset, Voice};
use motif::time::{from_nanos, from_total_nanos, zero};
use std::time::Duration;

#[test]
fn the_target_is_a_small_screen_and_a_class_compliant_interface() {
    let target = DeviceProfile::target();

    assert_eq!(target.screen.columns, 66);
    assert_eq!(target.screen.rows, 20);
    assert_eq!(target.screen.cells(), 1_320);
    assert_eq!(target.audio.sample_rate, 48_000);
    assert_eq!(target.audio.block_size, 256);
    assert_eq!(target.cores, 4);
}

#[test]
fn a_screen_frame_gets_its_share_of_a_second() {
    let screen = ScreenProfile { columns: 66, rows: 20, refresh_rate: 30 };

    assert_eq!(screen.frame_budget(), Duration::from_nanos(33_333_333));
    assert_eq!(ScreenProfile { refresh_rate: 0, ..screen }.frame_budget(), Duration::ZERO);
}

#[test]
fn a_huge_screen_saturates_its_cell_count() {
    let screen = ScreenProfile { columns: usize::MAX, rows: 2, refresh_rate: 30 };

    assert_eq!(screen.cells(), usize::MAX);
}

#[test]
fn the_longest_loop_is_the_profile_seconds_at_its_rate() {
    let audio = AudioProfile { sample_rate: 48_000, block_size: 256, max_loop_seconds: 32 };

    assert_eq!(audio.max_loop_frames(), 1_536_000);
}

#[test]
fn every_control_has_a_place_of_its_own_and_is_listed_there() {
    let listed = Control::all();

    for (place, control) in listed.iter().enumerate() {
        assert_eq!(control.position(), place);
    }
    assert_eq!(Control::Button(Button::Record).position(), 10);
    assert_eq!(Control::Encoder(Encoder::Main).position(), 11);
    assert_eq!(Control::Shift.position(), 12);
    assert_eq!(Button::ALL.len(), 11);
}

#[test]
fn priors_default_to_four_beats_a_bar() {
    assert_eq!(Priors::blind().bar(), ASSUMED_BAR);
    assert_eq!(Priors::blind().length(), None);
    assert_eq!(Priors::of_take(Duration::from_secs(8)).length(), Some(Duration::from_secs(8)));
    assert_eq!(Priors::blind().with_meter(3).bar(), 3);
    assert_eq!(Priors::blind().with_meter(0).bar(), ASSUMED_BAR);
}

#[test]
fn a_take_divides_into_whole_beats_between_the_briskest_and_slowest_pulse() {
    let candidates = dividing(Duration::from_secs(2));
    let found: Vec<(Duration, Option<usize>)> =
        candidates.iter().map(|candidate| (candidate.period, candidate.beats)).collect();

    assert_eq!(
        found,
        [
            (Duration::from_secs(1), Some(2)),
            (Duration::from_nanos(666_666_666), Some(3)),
            (Duration::from_millis(500), Some(4)),
            (Duration::from_millis(400), Some(5)),
            (Duration::from_nanos(333_333_333), Some(6)),
        ]
    );
}

#[test]
fn a_span_divides_as_duration_does() {
    assert_eq!(divide(2_000_000_000, 3), (Duration::from_secs(2) / 3).as_nanos());
    assert_eq!(divide(1_500_000_001, 2), (Duration::from_nanos(1_500_000_001) / 2).as_nanos());
    assert_eq!(divide(7, 7), 1);
}

#[test]
fn frames_fit_in_a_span_in_whole_hops() {
    assert_eq!(frames_in(Duration::from_secs(1), Duration::from_millis(300)), 3);
}

#[test]
fn a_grid_counts_its_downbeats_from_the_first() {
    let beats: Vec<Duration> = (0..7).map(|beat| Duration::from_millis(beat * 500)).collect();
    let grid = TrackedGrid::placed(beats.clone(), Priors::blind().with_meter(3), 1);

    assert_eq!(grid.beats(), beats.as_slice());
    assert_eq!(grid.beats_per_bar(), 3);
    assert_eq!(
        grid.downbeats(),
        [Duration::from_millis(500), Duration::from_millis(2_000)]
    );
    assert_eq!(grid.duplicate(), grid);
}

#[test]
fn spans_are_built_from_nanoseconds() {
    assert_eq!(from_nanos(1_500_000_000), Duration::from_millis(1_500));
    assert_eq!(from_total_nanos(18_446_744_073_709_551_615_999_999_999), Duration::MAX);
    assert_eq!(zero(), Duration::ZERO);
}

#[test]
fn an_onset_names_its_voice() {
    let onset = Onset { at: Duration::from_secs(1), voice: Voice::Accent };

    assert_eq!(onset.voice, Voice::Accent);
    assert_ne!(onset.voice, Voice::Tick);
}
