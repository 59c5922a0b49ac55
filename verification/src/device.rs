//! The shape of the machine `motif` is built for, stated once.
//!
//! Screen, audio and cores are frozen in [`DeviceProfile::TARGET`], and the
//! panel is frozen in [`Encoder`] and [`Button`]. The rest of the crate sizes
//! itself from those rather than from whatever the host it happens to be
//! running on reports.
//!
//! A control is a closed set rather than a count, so a backend that maps input
//! onto the panel can be checked by the compiler: a `match` stops compiling
//! when the panel gains a control, and a control the panel lacks cannot be
//! named at all.

use std::time::Duration;
use vstd::prelude::*;

use crate::time::{duration_nanos, from_nanos, NANOS_PER_SECOND};

verus! {

/// `one` times `other`, or the largest `usize` where the product is larger.
pub fn saturating_product(one: usize, other: usize) -> (product: usize)
    ensures
        product == if one * other <= usize::MAX { one * other } else { usize::MAX as int },
{
    match one.checked_mul(other) {
        Some(product) => product,
        None => usize::MAX,
    }
}

/// The screen the UI draws into, measured in character cells.
#[derive(Debug, Clone, Copy, PartialEq, Eq, Structural)]
pub struct ScreenProfile {
    /// Cells across.
    pub columns: usize,
    /// Cells down.
    pub rows: usize,
    /// Frames drawn per second.
    pub refresh_rate: u32,
}

impl ScreenProfile {
    /// Cells in a full frame, saturating at the largest count a `usize` holds.
    pub fn cells(self) -> (cells: usize)
        ensures
            cells == if self.columns * self.rows <= usize::MAX {
                self.columns * self.rows
            } else {
                usize::MAX as int
            },
    {
        saturating_product(self.columns, self.rows)
    }

    /// How long one frame gets at [`refresh_rate`](Self::refresh_rate).
    ///
    /// A screen that never refreshes has no budget rather than a division by
    /// zero: a profile is data, and one that is wrong should size something
    /// useless instead of failing to build.
    pub fn frame_budget(self) -> (budget: Duration)
        ensures
            duration_nanos(budget) == if self.refresh_rate == 0 {
                0
            } else {
                (NANOS_PER_SECOND as int) / (self.refresh_rate as int)
            },
    {
        if self.refresh_rate == 0 {
            return crate::time::zero();
        }
        from_nanos(NANOS_PER_SECOND / self.refresh_rate as u64)
    }
}

/// An encoder on the panel.
///
/// The panel has one, and it is a closed set of one rather than a bare marker:
/// a second encoder should be a variant added here. Unlike a [`Button`] it
/// carries no meaning of its own — it adjusts whatever the page beneath it is
/// showing.
#[derive(Debug, Clone, Copy, PartialEq, Eq, Structural)]
pub enum Encoder {
    /// The encoder beside the screen.
    Main,
}

impl Encoder {
    /// Every encoder, left to right.
    pub const ALL: [Encoder; 1] = [Encoder::Main];
}

/// How many buttons the panel carries.
pub const BUTTONS: usize = 11;
/// How many encoders the panel carries.
pub const ENCODERS: usize = 1;
/// How many controls the panel carries: every button, every encoder, and shift.
pub const CONTROLS: usize = 13;

/// A button on the panel, named for what it does rather than numbered.
///
/// The scene buttons are the exception, and are named for where they sit:
/// which scene a button selects is a fact about the song rather than about the
/// panel.
///
/// Shift is not a button. It is a modifier — it changes what another control
/// means rather than meaning anything alone — so a backend resolves it and
/// stamps it onto the event. It is still a key under the player's hand, so it is
/// drawable as [`Control::Shift`].
#[derive(Debug, Clone, Copy, PartialEq, Eq, Structural)]
pub enum Button {
    /// Navigate up.
    Up,
    /// Navigate down.
    Down,
    /// Navigate left.
    Left,
    /// Navigate right.
    Right,
    /// The leftmost scene button.
    FirstScene,
    /// The second scene button from the left.
    SecondScene,
    /// The third scene button from the left.
    ThirdScene,
    /// The rightmost scene button.
    FourthScene,
    /// Start playback.
    Play,
    /// Halt playback.
    Stop,
    /// Arm capture.
    Record,
}

/// Where a button sits in panel order, counted from zero.
pub open spec fn button_place(button: Button) -> int {
    match button {
        Button::Up => 0,
        Button::Down => 1,
        Button::Left => 2,
        Button::Right => 3,
        Button::FirstScene => 4,
        Button::SecondScene => 5,
        Button::ThirdScene => 6,
        Button::FourthScene => 7,
        Button::Play => 8,
        Button::Stop => 9,
        Button::Record => 10,
    }
}

impl Button {
    /// Every button, in panel order.
    pub const ALL: [Button; 11] = [
        Button::Up,
        Button::Down,
        Button::Left,
        Button::Right,
        Button::FirstScene,
        Button::SecondScene,
        Button::ThirdScene,
        Button::FourthScene,
        Button::Play,
        Button::Stop,
        Button::Record,
    ];

    /// Where this button sits in [`ALL`](Self::ALL).
    pub fn place(self) -> (place: usize)
        ensures
            place == button_place(self),
            place < BUTTONS,
    {
        match self {
            Button::Up => 0,
            Button::Down => 1,
            Button::Left => 2,
            Button::Right => 3,
            Button::FirstScene => 4,
            Button::SecondScene => 5,
            Button::ThirdScene => 6,
            Button::FourthScene => 7,
            Button::Play => 8,
            Button::Stop => 9,
            Button::Record => 10,
        }
    }
}

/// A control on the panel, of whichever kind.
#[derive(Debug, Clone, Copy, PartialEq, Eq, Structural)]
pub enum Control {
    /// A button, which is pressed.
    Button(Button),
    /// An encoder, which is turned.
    Encoder(Encoder),
    /// The shift key, which is held.
    Shift,
}

/// Where a control sits among every control: the buttons in panel order, then
/// the encoders, then shift.
pub open spec fn control_place(control: Control) -> int {
    match control {
        Control::Button(button) => button_place(button),
        Control::Encoder(_) => BUTTONS as int,
        Control::Shift => (BUTTONS + ENCODERS) as int,
    }
}

/// The control at `place` among every control.
pub open spec fn control_at(place: int) -> Control {
    if place < BUTTONS {
        Control::Button(Button::ALL[place])
    } else if place < BUTTONS + ENCODERS {
        Control::Encoder(Encoder::ALL[place - BUTTONS])
    } else {
        Control::Shift
    }
}

impl Control {
    /// Where this control sits in [`all`](Self::all).
    pub fn position(self) -> (position: usize)
        ensures
            position == control_place(self),
            position < CONTROLS,
    {
        match self {
            Self::Button(button) => button.place(),
            Self::Encoder(_) => BUTTONS,
            Self::Shift => BUTTONS + ENCODERS,
        }
    }

    /// Every control on the panel, built from the two panel arrays: the
    /// buttons in panel order, then the encoders left to right, then shift.
    pub fn all() -> (listed: [Control; 13])
        ensures
            forall|place: int| 0 <= place < CONTROLS ==> #[trigger] listed[place] == control_at(place),
    {
        let mut listed = [Control::Shift; 13];
        let mut at: usize = 0;
        while at < BUTTONS
            invariant
                at <= BUTTONS,
                forall|place: int| 0 <= place < at ==> #[trigger] listed[place] == control_at(place),
                forall|place: int| BUTTONS + ENCODERS <= place < CONTROLS ==> #[trigger] listed[place]
                    == Control::Shift,
            decreases BUTTONS - at,
        {
            listed[at] = Control::Button(Button::ALL[at]);
            at = at + 1;
        }
        while at < BUTTONS + ENCODERS
            invariant
                BUTTONS <= at <= BUTTONS + ENCODERS,
                forall|place: int| 0 <= place < at ==> #[trigger] listed[place] == control_at(place),
                forall|place: int| BUTTONS + ENCODERS <= place < CONTROLS ==> #[trigger] listed[place]
                    == Control::Shift,
            decreases BUTTONS + ENCODERS - at,
        {
            listed[at] = Control::Encoder(Encoder::ALL[at - BUTTONS]);
            at = at + 1;
        }
        listed
    }
}

/// A control's place among every control is where [`Control::all`] lists it,
/// and the list holds each control once: reading the place of the control at a
/// place gives that place back, and the control at a control's place is that
/// control.
pub proof fn lemma_control_places(control: Control, place: int)
    requires
        0 <= place < CONTROLS,
    ensures
        0 <= control_place(control) < CONTROLS,
        control_at(control_place(control)) == control,
        control_place(control_at(place)) == place,
{
}

/// The audio device the engine is built against.
#[derive(Debug, Clone, Copy, PartialEq, Eq, Structural)]
pub struct AudioProfile {
    /// Frames per second.
    pub sample_rate: u32,
    /// Frames per callback.
    pub block_size: u32,
    /// The longest loop that can be captured, in seconds.
    pub max_loop_seconds: u32,
}

impl AudioProfile {
    /// The frames in the longest capturable loop, saturating at what a `usize`
    /// holds.
    pub open spec fn spec_max_loop_frames(self) -> int {
        if self.sample_rate * self.max_loop_seconds <= usize::MAX {
            self.sample_rate * self.max_loop_seconds
        } else {
            usize::MAX as int
        }
    }

    /// Frames in the longest capturable loop.
    ///
    /// Saturates rather than wrapping, so a profile too large for the target's
    /// pointer width sizes a buffer that cannot be allocated instead of one
    /// quietly too small to hold the loop.
    pub fn max_loop_frames(self) -> (frames: usize)
        ensures
            frames == self.spec_max_loop_frames(),
    {
        saturating_product(self.sample_rate as usize, self.max_loop_seconds as usize)
    }
}

/// The shape of the machine `motif` runs on.
#[derive(Debug, Clone, Copy, PartialEq, Eq, Structural)]
pub struct DeviceProfile {
    /// The screen a frame is drawn into.
    pub screen: ScreenProfile,
    /// The audio device the engine is built against.
    pub audio: AudioProfile,
    /// Cores the whole program has to share.
    pub cores: usize,
}

impl DeviceProfile {
    /// The device `motif` is built for.
    pub open spec fn spec_target() -> DeviceProfile {
        DeviceProfile {
            screen: ScreenProfile { columns: 66, rows: 20, refresh_rate: 30 },
            audio: AudioProfile { sample_rate: 48_000, block_size: 256, max_loop_seconds: 32 },
            cores: 4,
        }
    }

    /// The device `motif` is built for: a 66 by 20 cell screen refreshed 30
    /// times a second, a class-compliant interface at 48 kHz in blocks of 256
    /// frames with room for 32 seconds of loop, and four cores.
    pub fn target() -> (target: DeviceProfile)
        ensures
            target == DeviceProfile::spec_target(),
    {
        DeviceProfile {
            screen: ScreenProfile { columns: 66, rows: 20, refresh_rate: 30 },
            audio: AudioProfile { sample_rate: 48_000, block_size: 256, max_loop_seconds: 32 },
            cores: 4,
        }
    }
}

} // verus!
