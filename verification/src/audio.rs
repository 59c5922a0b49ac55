//! Opening a duplex audio stream, and the boundary between its callback and
//! the rest of the system.
//!
//! [`sample_ring`] carries samples between two threads without locking or
//! allocating, which is what a real-time callback needs of anything it
//! touches; [`command_channel`] carries changes the other way, and
//! [`level_meter`] sends back the other thing that crosses the boundary: not
//! the audio itself but how loud it was. [`xrun_counter`] carries the news that
//! the boundary failed, and [`fault_channel`] the news that the device did.
//!
//! A backend with no hardware behind it, [`NullBackend`], stands in where no
//! audio device exists.

use vstd::prelude::*;

mod boundary;
mod catalog;
mod clock;
mod command;
mod counters;
mod fault;
mod gain;
mod headroom;
mod level;
mod link;
mod listing;
mod passthrough;
mod path;
mod placement;
mod probe;
mod ring;
mod slack;
mod xrun;

pub use boundary::{chunk_asks, chunk_supplied};
pub use boundary::{
    boundary, selected, spread_into, BlockCapture, BlockPlayback, Priming, PLAYED_CHANNELS,
};
pub use catalog::{
    carried, carried_rows, device_names, first_index, host_names, is_first, lemma_absent,
    lemma_carried_as_listed, lemma_first_index, lemma_held_devices_stay_listed, lists, lemma_nothing_lost_nothing_carried, listed_devices, lost_device, selection_view, DeviceCatalog, DeviceSelection,
    DeviceView, HostView,
};
pub use clock::{sample_clock, SampleClockReader, SampleClockWriter};
pub use command::{
    can_send, command_channel, command_of, command_word, lemma_command_round_trip, payload_of,
    receivable, sendable, tag_of, waiting, lemma_transport_codes, transport_bits, transport_code,
    transport_from_bits, transport_of, Command, CommandReceiver, CommandSender, Drain, SendError,
    TAG_SHIFT,
};
pub use counters::{
    count_on, counted_on, least, occupancy, occupied_of, room, room_of, slot_at,
};
pub use fault::{
    decoded, encoded, fault_channel, fault_code, fault_of, lemma_fault_codes, FaultReader,
    FaultReporter,
};
pub use gain::{ramp_frames, ramp_of, MILLISECONDS_PER_SECOND, RAMP_MILLISECONDS};
pub use headroom::{
    fewer_of, headroom_meter, recent_nanos, window_frames, HeadroomReader, HeadroomWindow,
    HeadroomWriter, IDLE_BITS,
};
pub use level::{level_meter, reachable, reachable_of, LevelReader, LevelWriter, SILENT_BITS};
pub use link::{
    acting, arrived, chose, closed_from, collected, consistent, fresh, lemma_decisions_agree,
    lemma_lost_stays_lost, lost_with, opened, performed_on, starts_after, Act, AudioState, Link,
    LinkView, Received,
};
pub use listing::{
    channel_counts, default_at, first_named, identified, listed_default, name_read, named_at, names_view, occurrences,
    offered_selection, offering_device, strictly_ascending, first_at_least, id_view, opened_width, opened_width_of, CpalBackend,
    DeviceId,
};
pub use passthrough::{passthrough, spread_over, PassthroughInput, PassthroughOutput, SILENCE};
pub use path::{Commanded, Passthrough};
pub use placement::{priority_latch, Grant, Placed, Placement, PriorityReader, PriorityReporter};
pub use probe::{
    latency_probe, lemma_measurement_round_trip, measurement_of, measurement_word, LatencyProbe,
    Measurement, RoundTrip,
    RoundTripReader, Stage, ROUND_TRIP_BUDGET_BLOCKS,
};
pub use ring::{
    primed_ring, readable, sample_ring, skippable, slot_of, split_at_offset, writable, SampleConsumer,
    SampleProducer,
};
pub use slack::{slack_hold, trim_of, Slack, SlackReader, SlackTrim, Trim};
pub use xrun::{xrun_counter, OverrunCounter, UnderrunCounter, XrunReader, Xruns};

verus! {

/// The sample rate and block size a stream is asked to run at.
///
/// A device is free to grant something else; read [`NullStream::config`] for
/// what it actually did.
#[derive(Debug, Clone, Copy, PartialEq, Eq, Structural)]
pub struct StreamRequest {
    /// Frames per second.
    pub sample_rate: u32,
    /// Frames per callback.
    pub block_size: u32,
}

/// The configuration a device is running at.
#[derive(Debug, Clone, Copy, PartialEq, Eq, Structural)]
pub struct StreamConfig {
    /// Frames per second.
    pub sample_rate: u32,
    /// Frames per callback. Size buffers from it, but bound writes by the
    /// length of the slice actually handed to the callback.
    pub block_size: u32,
    /// Channels the input stream delivers.
    pub input_channels: u16,
    /// Channels the output stream consumes.
    pub output_channels: u16,
}

/// A run of a device's channels: the first, and how many from there.
#[derive(Debug, Clone, Copy, PartialEq, Eq, Structural)]
pub struct ChannelSelection {
    /// The first channel taken, counted from zero.
    pub first: u16,
    /// How many channels are taken from the first on.
    pub count: u16,
}

impl ChannelSelection {
    /// One past the last channel taken.
    pub open spec fn spec_reach(self) -> int {
        self.first + self.count
    }

    /// Every one of `channels` channels.
    pub fn all(channels: u16) -> (selection: Self)
        ensures
            selection.first == 0,
            selection.count == channels,
    {
        Self { first: 0, count: channels }
    }

    /// One past the last channel taken.
    pub fn reach(self) -> (reach: u32)
        ensures
            reach == self.spec_reach(),
    {
        self.first as u32 + self.count as u32
    }
}

/// A device, and the channel counts it can be opened with.
#[derive(Debug, Clone, PartialEq, Eq)]
pub struct AudioDevice {
    /// What identifies this device: its name, and its place among the
    /// devices sharing that name.
    pub id: DeviceId,
    /// Channel counts the device can be opened with, ascending and without
    /// repeats.
    pub channels: Vec<u16>,
}

/// An audio API, and the devices reachable through it.
#[derive(Debug, Clone, PartialEq, Eq)]
pub struct AudioHost {
    /// What the backend calls this host.
    pub name: String,
    /// Devices that can deliver input.
    pub inputs: Vec<AudioDevice>,
    /// Devices that can consume output.
    pub outputs: Vec<AudioDevice>,
}

/// A device as a listing reads it: its identity, and the channel counts it
/// offers.
pub open spec fn device_view(device: AudioDevice) -> ((Seq<char>, usize), Seq<u16>) {
    (id_view(device.id), device.channels@)
}

/// The devices of a listing, as it reads them.
pub open spec fn devices_view(devices: Seq<AudioDevice>) -> Seq<((Seq<char>, usize), Seq<u16>)> {
    devices.map_values(|device: AudioDevice| device_view(device))
}

/// A host as a listing reads it: its name, and its devices in each direction.
pub open spec fn host_view(host: AudioHost) -> (
    Seq<char>,
    Seq<((Seq<char>, usize), Seq<u16>)>,
    Seq<((Seq<char>, usize), Seq<u16>)>,
) {
    (host.name@, devices_view(host.inputs@), devices_view(host.outputs@))
}

/// The hosts of a listing, as it reads them.
pub open spec fn hosts_view(hosts: Seq<AudioHost>) -> Seq<
    (Seq<char>, Seq<((Seq<char>, usize), Seq<u16>)>, Seq<((Seq<char>, usize), Seq<u16>)>),
> {
    hosts.map_values(|host: AudioHost| host_view(host))
}

/// Whether a stream is currently calling back.
#[derive(Debug, Clone, Copy, PartialEq, Eq, Structural)]
pub enum StreamState {
    /// No callback is running.
    Stopped,
    /// A callback may be running.
    Running,
}

/// Why a device could not be opened, started or stopped.
#[derive(Debug, Clone, Copy, PartialEq, Eq, Structural)]
#[non_exhaustive]
pub enum DeviceError {
    /// The host offers no input device.
    NoInputDevice,
    /// The host offers no output device.
    NoOutputDevice,
    /// The device cannot run at the requested configuration.
    UnsupportedConfig,
    /// The device is not available, having been disconnected or claimed
    /// elsewhere.
    DeviceNotAvailable,
    /// The operating system refused access to the device.
    PermissionDenied,
    /// The backend failed for a reason it did not classify.
    BackendFailure,
    /// The host a selection names is not available on this machine.
    NoSuchHost,
}

/// What a device error says, in words.
pub open spec fn device_error_words(error: DeviceError) -> Seq<char> {
    match error {
        DeviceError::NoInputDevice => "the host offers no input device"@,
        DeviceError::NoOutputDevice => "the host offers no output device"@,
        DeviceError::UnsupportedConfig => "the device cannot run at the requested configuration"@,
        DeviceError::DeviceNotAvailable => "the device is not available"@,
        DeviceError::PermissionDenied => "access to the device was refused"@,
        DeviceError::BackendFailure => "the audio backend failed"@,
        DeviceError::NoSuchHost => "no host of that name is available"@,
    }
}

impl DeviceError {
    /// What went wrong, in words.
    pub fn described(self) -> (words: &'static str)
        ensures
            words@ == device_error_words(self),
    {
        match self {
            DeviceError::NoInputDevice => "the host offers no input device",
            DeviceError::NoOutputDevice => "the host offers no output device",
            DeviceError::UnsupportedConfig => "the device cannot run at the requested configuration",
            DeviceError::DeviceNotAvailable => "the device is not available",
            DeviceError::PermissionDenied => "access to the device was refused",
            DeviceError::BackendFailure => "the audio backend failed",
            DeviceError::NoSuchHost => "no host of that name is available",
        }
    }
}

/// What the null host lists a device with `channels` channels as: nothing for
/// a device with none, and otherwise one device, the first of its name,
/// offering exactly that count.
pub open spec fn null_devices(name: Seq<char>, channels: u16) -> Seq<((Seq<char>, usize), Seq<u16>)> {
    if channels == 0 {
        Seq::empty()
    } else {
        seq![((name, 0usize), seq![channels])]
    }
}

fn null_device(name: &str, channels: u16) -> (devices: Vec<AudioDevice>)
    ensures
        devices_view(devices@) == null_devices(name@, channels),
{
    let mut devices: Vec<AudioDevice> = Vec::new();
    if channels == 0 {
        assert(devices_view(devices@) =~= null_devices(name@, channels));
        return devices;
    }
    let mut counts: Vec<u16> = Vec::new();
    counts.push(channels);
    devices.push(AudioDevice { id: DeviceId { name: name.to_owned(), nth: 0 }, channels: counts });
    assert(devices_view(devices@) =~= null_devices(name@, channels));
    devices
}

/// A backend with no audio hardware behind it.
///
/// It exists so that the stream lifecycle can be exercised where no device is
/// present, which is the case on continuous integration runners.
pub struct NullBackend {
    granted: StreamConfig,
    rejects_mismatch: bool,
}

impl NullBackend {
    /// The configuration its device grants.
    pub closed spec fn spec_granted(&self) -> StreamConfig {
        self.granted
    }

    /// Whether its device refuses a request it cannot meet exactly.
    pub closed spec fn spec_rejects_mismatch(&self) -> bool {
        self.rejects_mismatch
    }

    /// A backend whose device grants its own configuration whatever is asked
    /// of it, modelling a device that rounds a request to what it supports.
    pub fn rounding(granted: StreamConfig) -> (backend: Self)
        ensures
            backend.spec_granted() == granted,
            !backend.spec_rejects_mismatch(),
    {
        Self { granted, rejects_mismatch: false }
    }

    /// A backend whose device refuses any request it cannot meet exactly,
    /// modelling a device that supports one configuration and no other.
    pub fn rejecting(granted: StreamConfig) -> (backend: Self)
        ensures
            backend.spec_granted() == granted,
            backend.spec_rejects_mismatch(),
    {
        Self { granted, rejects_mismatch: true }
    }

    /// One host carrying one device in each direction the granted
    /// configuration has channels for, listed only at the rate it was granted,
    /// so that "listed means openable" can be tested where there is no
    /// hardware.
    pub fn hosts(&self, sample_rate: u32) -> (hosts: Vec<AudioHost>)
        ensures
            hosts_view(hosts@) == if sample_rate
                != self.spec_granted().sample_rate || (self.spec_granted().input_channels == 0
                && self.spec_granted().output_channels == 0) {
                Seq::empty()
            } else {
                seq![
                    (
                        "null"@,
                        null_devices("null input"@, self.spec_granted().input_channels),
                        null_devices("null output"@, self.spec_granted().output_channels),
                    ),
                ]
            },
    {
        let mut hosts: Vec<AudioHost> = Vec::new();
        if sample_rate != self.granted.sample_rate {
            assert(hosts_view(hosts@) =~= Seq::empty());
            return hosts;
        }
        let host = AudioHost {
            name: "null".to_owned(),
            inputs: null_device("null input", self.granted.input_channels),
            outputs: null_device("null output", self.granted.output_channels),
        };
        assert(devices_view(host.inputs@).len() == host.inputs@.len());
        assert(devices_view(host.outputs@).len() == host.outputs@.len());
        if host.inputs.len() == 0 && host.outputs.len() == 0 {
            assert(hosts_view(hosts@) =~= Seq::empty());
            return hosts;
        }
        let ghost viewed = host_view(host);
        hosts.push(host);
        assert(hosts_view(hosts@) =~= seq![viewed]);
        hosts
    }

    /// Open a stream at `request`: the granted configuration, stopped, and
    /// with no fault, unless the device rejects a request it cannot meet
    /// exactly and this is one.
    pub fn open(&self, request: StreamRequest) -> (opened: Result<NullStream, DeviceError>)
        ensures
            match opened {
                Ok(stream) => {
                    &&& !(self.spec_rejects_mismatch() && (request.sample_rate != self.spec_granted().sample_rate
                        || request.block_size != self.spec_granted().block_size))
                    &&& stream.spec_config() == self.spec_granted()
                    &&& stream.spec_state() == StreamState::Stopped
                },
                Err(error) => {
                    &&& self.spec_rejects_mismatch()
                    &&& (request.sample_rate != self.spec_granted().sample_rate || request.block_size
                        != self.spec_granted().block_size)
                    &&& error == DeviceError::UnsupportedConfig
                },
            },
    {
        let matches_exactly = request.sample_rate == self.granted.sample_rate && request.block_size
            == self.granted.block_size;
        if self.rejects_mismatch && !matches_exactly {
            return Err(DeviceError::UnsupportedConfig);
        }
        let (reporter, faults) = fault_channel();
        Ok(NullStream { config: self.granted, state: StreamState::Stopped, reporter, faults })
    }
}

/// A stream that moves no samples, opened by [`NullBackend`].
pub struct NullStream {
    config: StreamConfig,
    state: StreamState,
    reporter: FaultReporter,
    faults: FaultReader,
}

impl NullStream {
    /// The configuration the device granted.
    pub closed spec fn spec_config(&self) -> StreamConfig {
        self.config
    }

    /// Whether the stream is calling back.
    pub closed spec fn spec_state(&self) -> StreamState {
        self.state
    }

    /// Report `error` against this stream, as a real device's error callback
    /// would.
    ///
    /// A device cannot be unplugged from a test, so this stands in for the
    /// unplugging. Takes `&self`, because that is what an error callback has.
    pub fn fail(&self, error: DeviceError) {
        self.reporter.report(error);
    }

    /// The configuration the device granted, which may differ from the
    /// request.
    pub fn config(&self) -> (config: StreamConfig)
        ensures
            config == self.spec_config(),
    {
        self.config
    }

    /// Whether the callback is running.
    pub fn state(&self) -> (state: StreamState)
        ensures
            state == self.spec_state(),
    {
        self.state
    }

    /// A stream that moves no samples can lose none.
    pub fn xruns(&self) -> (xruns: Xruns)
        ensures
            xruns == Xruns::spec_none(),
    {
        Xruns::none()
    }

    /// Why the device failed, or `None` until [`fail`](Self::fail) says
    /// otherwise: a device that does not exist cannot go away on its own.
    pub fn fault(&self) -> (faulted: Option<DeviceError>)
        ensures
            exists|code: u8| faulted == fault_of(code),
    {
        self.faults.read()
    }

    /// Start calling back.
    pub fn start(&mut self) -> (started: Result<(), DeviceError>)
        ensures
            started is Ok,
            final(self).spec_state() == StreamState::Running,
            final(self).spec_config() == old(self).spec_config(),
    {
        self.state = StreamState::Running;
        Ok(())
    }

    /// Stop calling back.
    pub fn stop(&mut self) -> (stopped: Result<(), DeviceError>)
        ensures
            stopped is Ok,
            final(self).spec_state() == StreamState::Stopped,
            final(self).spec_config() == old(self).spec_config(),
    {
        self.state = StreamState::Stopped;
        Ok(())
    }
}

} // verus!
