//! What the looper's page reads off the loop, before it is drawn.
//!
//! The page names the transport, reads a frame count as a clock, and fills a
//! bar as far as the playhead has got through the loop. Each of these is a
//! small piece of arithmetic on what was published, kept apart from the
//! drawing so what it shows can be checked.
//!
//! [`PageState`] is what the page decides when a control moves: what the
//! player wants of the loop, what the engine has been told of it, and which
//! commands are owed to close the difference. Sending them is the caller's,
//! and a send refused by a full queue is reported back and owed again.

use vstd::prelude::*;

use crate::audio::Command;
use crate::device::{Button, DeviceProfile};

use super::Transport;

verus! {

/// Tenths of a second in a second.
pub const TENTHS_PER_SECOND: u64 = 10;

/// Seconds in a minute.
pub const SECONDS_PER_MINUTE: u64 = 60;

/// What the page calls a transport state.
pub open spec fn transport_label(transport: Transport) -> Seq<char> {
    match transport {
        Transport::Idle => "IDLE"@,
        Transport::Recording => "RECORDING"@,
        Transport::Playing => "PLAYING"@,
        Transport::Overdubbing => "OVERDUBBING"@,
        Transport::Stopped => "STOPPED"@,
    }
}

/// What the page calls `transport`.
pub fn transport_name(transport: Transport) -> (name: &'static str)
    ensures
        name@ == transport_label(transport),
{
    match transport {
        Transport::Idle => "IDLE",
        Transport::Recording => "RECORDING",
        Transport::Playing => "PLAYING",
        Transport::Overdubbing => "OVERDUBBING",
        Transport::Stopped => "STOPPED",
    }
}

/// How many whole tenths of a second `frames` frames last at the target
/// device's rate.
pub open spec fn tenths_of(frames: int) -> int {
    frames * TENTHS_PER_SECOND as int / DeviceProfile::spec_target().audio.sample_rate as int
}

/// `frames` read as a clock at the target device's rate: whole minutes, the
/// seconds past them and the tenths past those, as `m:ss.t` shows them.
pub fn clock_parts(frames: u32) -> (parts: (u64, u64, u64))
    ensures
        parts.0 == tenths_of(frames as int) / 10 / 60,
        parts.1 == tenths_of(frames as int) / 10 % 60,
        parts.2 == tenths_of(frames as int) % 10,
        parts.1 < SECONDS_PER_MINUTE,
        parts.2 < TENTHS_PER_SECOND,
{
    let rate = DeviceProfile::target().audio.sample_rate as u64;
    let tenths = frames as u64 * TENTHS_PER_SECOND / rate;
    let seconds = tenths / TENTHS_PER_SECOND;
    (seconds / SECONDS_PER_MINUTE, seconds % SECONDS_PER_MINUTE, tenths % TENTHS_PER_SECOND)
}

/// How many of `width` cells a bar fills with the playhead at `playhead` of a
/// loop `recorded` frames long: none before anything is recorded.
pub open spec fn filled_of(playhead: int, recorded: int, width: int) -> int {
    if recorded == 0 {
        0
    } else {
        width * playhead / recorded
    }
}

/// How many of `width` cells a bar fills with the playhead at `playhead` of a
/// loop `recorded` frames long.
pub fn filled_cells(playhead: u32, recorded: u32, width: usize) -> (filled: usize)
    requires
        width * playhead <= usize::MAX,
    ensures
        filled == filled_of(playhead as int, recorded as int, width as int),
        playhead <= recorded ==> filled <= width,
{
    if recorded == 0 {
        return 0;
    }
    let filled = width * playhead as usize / recorded as usize;
    proof {
        if playhead <= recorded {
            assert(width * playhead <= width * recorded) by (nonlinear_arith)
                requires
                    playhead <= recorded,
            ;
            assert((width * playhead) / (recorded as int) <= width) by (nonlinear_arith)
                requires
                    width * playhead <= width * recorded,
                    recorded > 0,
            ;
        }
    }
    filled
}

/// A control moving on the looper's page.
#[derive(Debug, Clone, Copy, PartialEq, Eq, Structural)]
pub enum PageEvent {
    /// A button went down, with shift held or not.
    Pressed {
        /// Which button.
        button: Button,
        /// Whether shift was held.
        shifted: bool,
    },
    /// The encoder moved one detent.
    Turned {
        /// Whether it moved clockwise.
        clockwise: bool,
    },
}

/// What the page asks of whoever holds it after a control moves.
#[derive(Debug, Clone, Copy, PartialEq, Eq, Structural)]
pub enum PageOrder {
    /// Send this command to the engine, and report whether it was taken.
    Send(Command),
    /// Move the input gain one detent, up or down, and order it.
    Nudge {
        /// Whether the gain goes up.
        up: bool,
    },
    /// Stamp a tap of the tempo at the sample clock.
    Tap,
}

/// What the player wants of the loop, and what the engine has been told.
///
/// The gain is a level in decibels, held and ordered by whoever holds the
/// page; everything else the page orders is here.
#[derive(Debug, Clone, Copy, PartialEq, Eq, Structural)]
pub struct PageState {
    /// The transport the player has asked for.
    pub transport: Transport,
    /// The transport the engine was last told of.
    pub ordered_transport: Transport,
    /// Whether the player has muted the input.
    pub muted: bool,
    /// The mute the engine was last told of.
    pub ordered_muted: bool,
    /// How many layers are still to be taken off.
    pub undos: usize,
    /// Whether the loop is still to be emptied.
    pub emptying: bool,
}

/// The transport command owed by `state`: one where the player asked for a
/// transport the engine was not told of.
pub open spec fn transport_owed(state: PageState) -> Seq<Command> {
    if state.transport != state.ordered_transport {
        seq![Command::SetTransport(state.transport)]
    } else {
        Seq::empty()
    }
}

/// The mute command owed by `state`.
pub open spec fn mute_owed(state: PageState) -> Seq<Command> {
    if state.muted != state.ordered_muted {
        seq![Command::SetMuted(state.muted)]
    } else {
        Seq::empty()
    }
}

/// Every command owed by `state`, in the order the page sends them: the
/// transport, the mute, an undo for each layer still to come off, and the
/// emptying of the loop.
pub open spec fn owed(state: PageState) -> Seq<Command> {
    transport_owed(state) + mute_owed(state) + Seq::new(state.undos as nat, |undo: int| Command::Undo)
        + if state.emptying {
        seq![Command::Clear]
    } else {
        Seq::empty()
    }
}

/// `commands` as orders to send.
pub open spec fn sends(commands: Seq<Command>) -> Seq<PageOrder> {
    commands.map_values(|command: Command| PageOrder::Send(command))
}

/// What a control moving does to the page, and what it orders.
///
/// Shift and play taps the tempo; shift and record mutes the input or lets it
/// back in; shift and stop takes the last layer back off, dropping out of an
/// overdub; shift and down empties the loop and idles the transport; the
/// encoder moves the gain a detent. Any other press moves the transport as
/// record, play and stop do, and leaves it where it is for the other buttons.
pub open spec fn controlled(state: PageState, event: PageEvent) -> (PageState, Seq<PageOrder>) {
    match event {
        PageEvent::Pressed { button: Button::Play, shifted: true } => (state, seq![PageOrder::Tap]),
        PageEvent::Pressed { button: Button::Record, shifted: true } => {
            let next = PageState { muted: !state.muted, ..state };
            (next, sends(mute_owed(next)))
        },
        PageEvent::Pressed { button: Button::Stop, shifted: true } => {
            let next = PageState {
                undos: (state.undos + 1) as usize,
                transport: if state.transport == Transport::Overdubbing {
                    Transport::Playing
                } else {
                    state.transport
                },
                ..state
            };
            (next, sends(owed(next)))
        },
        PageEvent::Pressed { button: Button::Down, shifted: true } => {
            let next = PageState { emptying: true, transport: Transport::Idle, ..state };
            (next, sends(owed(next)))
        },
        PageEvent::Turned { clockwise } => (state, seq![PageOrder::Nudge { up: clockwise }]),
        PageEvent::Pressed { button, .. } => {
            let next = PageState {
                transport: match button {
                    Button::Record => state.transport.recorded(),
                    Button::Play => state.transport.played(),
                    Button::Stop => state.transport.stopped(),
                    _ => state.transport,
                },
                ..state
            };
            (next, sends(transport_owed(next)))
        },
    }
}

/// Shift and record mutes the input where it was let in and lets it back in
/// where it was muted, touching nothing else, and orders the engine told of
/// the new mute exactly where it was last told otherwise.
pub proof fn lemma_shift_record_toggles_mute(state: PageState)
    ensures
        ({
            let (next, orders) = controlled(
                state,
                PageEvent::Pressed { button: Button::Record, shifted: true },
            );
            &&& next.muted == !state.muted
            &&& next.transport == state.transport
            &&& next.ordered_transport == state.ordered_transport
            &&& next.ordered_muted == state.ordered_muted
            &&& next.undos == state.undos
            &&& next.emptying == state.emptying
            &&& orders == if !state.muted != state.ordered_muted {
                seq![PageOrder::Send(Command::SetMuted(!state.muted))]
            } else {
                Seq::<PageOrder>::empty()
            }
        }),
{
    let next = PageState { muted: !state.muted, ..state };
    assert(sends(mute_owed(next)) =~= if !state.muted != state.ordered_muted {
        seq![PageOrder::Send(Command::SetMuted(!state.muted))]
    } else {
        Seq::<PageOrder>::empty()
    });
}

/// Shift and stop takes one more layer off, dropping out of an overdub into
/// playing and leaving any other transport where it is, and orders an undo.
pub proof fn lemma_shift_stop_takes_a_layer_off(state: PageState)
    requires
        state.undos < usize::MAX,
    ensures
        ({
            let (next, orders) = controlled(
                state,
                PageEvent::Pressed { button: Button::Stop, shifted: true },
            );
            &&& next.undos == state.undos + 1
            &&& next.transport != Transport::Overdubbing
            &&& state.transport != Transport::Overdubbing ==> next.transport == state.transport
            &&& state.transport == Transport::Overdubbing ==> next.transport == Transport::Playing
            &&& next.muted == state.muted
            &&& next.emptying == state.emptying
            &&& exists|at: int| 0 <= at < orders.len() && orders[at] == PageOrder::Send(Command::Undo)
        }),
{
    let next = PageState {
        undos: (state.undos + 1) as usize,
        transport: if state.transport == Transport::Overdubbing {
            Transport::Playing
        } else {
            state.transport
        },
        ..state
    };
    let before = transport_owed(next) + mute_owed(next);
    let undos = Seq::new(next.undos as nat, |undo: int| Command::Undo);
    let tail = if next.emptying { seq![Command::Clear] } else { Seq::<Command>::empty() };
    let middle = before + undos;
    assert(owed(next) == middle + tail);
    assert(undos.len() >= 1);
    assert(middle[before.len() as int] == Command::Undo);
    assert((middle + tail)[before.len() as int] == Command::Undo);
    let orders = sends(owed(next));
    assert(orders[before.len() as int] == PageOrder::Send(Command::Undo));
    let event = PageEvent::Pressed { button: Button::Stop, shifted: true };
    assert(controlled(state, event) == (next, orders));
    assert(controlled(state, event).1[before.len() as int] == PageOrder::Send(Command::Undo));
    assert(before.len() < controlled(state, event).1.len());
}

/// Shift and down empties the loop and idles the transport, and orders the
/// loop emptied last of all.
pub proof fn lemma_shift_down_empties(state: PageState)
    ensures
        ({
            let (next, orders) = controlled(
                state,
                PageEvent::Pressed { button: Button::Down, shifted: true },
            );
            &&& next.transport == Transport::Idle
            &&& next.emptying
            &&& next.muted == state.muted
            &&& next.undos == state.undos
            &&& orders.len() > 0
            &&& orders.last() == PageOrder::Send(Command::Clear)
        }),
{
}

/// Record, play and stop pressed without shift move the transport as the
/// transport's own moves do, and order it exactly where the engine was last
/// told of another; the mute, the undos and the emptying stay as they were.
pub proof fn lemma_press_moves_transport(state: PageState, button: Button)
    ensures
        ({
            let (next, orders) = controlled(state, PageEvent::Pressed { button, shifted: false });
            &&& button == Button::Record ==> next.transport == state.transport.recorded()
            &&& button == Button::Play ==> next.transport == state.transport.played()
            &&& button == Button::Stop ==> next.transport == state.transport.stopped()
            &&& button != Button::Record && button != Button::Play && button != Button::Stop
                ==> next.transport == state.transport
            &&& next.muted == state.muted
            &&& next.undos == state.undos
            &&& next.emptying == state.emptying
            &&& orders == if next.transport != state.ordered_transport {
                seq![PageOrder::Send(Command::SetTransport(next.transport))]
            } else {
                Seq::<PageOrder>::empty()
            }
        }),
{
    let next = controlled(state, PageEvent::Pressed { button, shifted: false }).0;
    assert(sends(transport_owed(next)) =~= if next.transport != state.ordered_transport {
        seq![PageOrder::Send(Command::SetTransport(next.transport))]
    } else {
        Seq::<PageOrder>::empty()
    });
}

/// The page after `sent` was offered to the engine: told of it where it was
/// taken, and still owing it where the queue was full.
pub open spec fn after_send(state: PageState, sent: Command, accepted: bool) -> PageState {
    if !accepted {
        state
    } else {
        match sent {
            Command::SetTransport(transport) => PageState { ordered_transport: transport, ..state },
            Command::SetMuted(muted) => PageState { ordered_muted: muted, ..state },
            Command::Undo => PageState {
                undos: if state.undos > 0 {
                    (state.undos - 1) as usize
                } else {
                    0
                },
                ..state
            },
            Command::Clear => PageState { emptying: false, ..state },
            _ => state,
        }
    }
}

fn push_sends(orders: &mut Vec<PageOrder>, state: &PageState, everything: bool)
    requires
        old(orders)@.len() == 0,
    ensures
        final(orders)@ == sends(if everything { owed(*state) } else { transport_owed(*state) }),
{
    let ghost wanted = if everything { owed(*state) } else { transport_owed(*state) };
    if state.transport != state.ordered_transport {
        orders.push(PageOrder::Send(Command::SetTransport(state.transport)));
    }
    assert(orders@ =~= sends(transport_owed(*state)));
    if !everything {
        return;
    }
    if state.muted != state.ordered_muted {
        orders.push(PageOrder::Send(Command::SetMuted(state.muted)));
    }
    assert(orders@ =~= sends(transport_owed(*state) + mute_owed(*state)));
    let ghost before = transport_owed(*state) + mute_owed(*state);
    let mut undo: usize = 0;
    while undo < state.undos
        invariant
            undo <= state.undos,
            before == transport_owed(*state) + mute_owed(*state),
            orders@ == sends(before + Seq::new(undo as nat, |at: int| Command::Undo)),
        decreases state.undos - undo,
    {
        orders.push(PageOrder::Send(Command::Undo));
        undo = undo + 1;
        assert(orders@ =~= sends(before + Seq::new(undo as nat, |at: int| Command::Undo)));
    }
    if state.emptying {
        orders.push(PageOrder::Send(Command::Clear));
    }
    assert(orders@ =~= sends(owed(*state)));
}

impl PageState {
    /// A page with nothing asked for and nothing told: idle, unmuted, with
    /// nothing to undo or empty.
    pub fn new() -> (state: Self)
        ensures
            state == (PageState {
                transport: Transport::Idle,
                ordered_transport: Transport::Idle,
                muted: false,
                ordered_muted: false,
                undos: 0,
                emptying: false,
            }),
    {
        PageState {
            transport: Transport::Idle,
            ordered_transport: Transport::Idle,
            muted: false,
            ordered_muted: false,
            undos: 0,
            emptying: false,
        }
    }

    /// Take `event`, and give what it orders.
    pub fn control(&mut self, event: PageEvent) -> (orders: Vec<PageOrder>)
        requires
            event == (PageEvent::Pressed { button: Button::Stop, shifted: true }) ==> old(self).undos < usize::MAX,
        ensures
            (*final(self), orders@) == controlled(*old(self), event),
    {
        let mut orders: Vec<PageOrder> = Vec::new();
        match event {
            PageEvent::Pressed { button: Button::Play, shifted: true } => {
                orders.push(PageOrder::Tap);
                assert(orders@ =~= seq![PageOrder::Tap]);
            },
            PageEvent::Pressed { button: Button::Record, shifted: true } => {
                self.muted = !self.muted;
                if self.muted != self.ordered_muted {
                    orders.push(PageOrder::Send(Command::SetMuted(self.muted)));
                }
                assert(orders@ =~= sends(mute_owed(*self)));
            },
            PageEvent::Pressed { button: Button::Stop, shifted: true } => {
                self.undos = self.undos + 1;
                if self.transport == Transport::Overdubbing {
                    self.transport = Transport::Playing;
                }
                push_sends(&mut orders, self, true);
            },
            PageEvent::Pressed { button: Button::Down, shifted: true } => {
                self.emptying = true;
                self.transport = Transport::Idle;
                push_sends(&mut orders, self, true);
            },
            PageEvent::Turned { clockwise } => {
                orders.push(PageOrder::Nudge { up: clockwise });
                assert(orders@ =~= seq![PageOrder::Nudge { up: clockwise }]);
            },
            PageEvent::Pressed { button, .. } => {
                self.transport = match button {
                    Button::Record => self.transport.record(),
                    Button::Play => self.transport.play(),
                    Button::Stop => self.transport.stop(),
                    _ => self.transport,
                };
                push_sends(&mut orders, self, false);
            },
        }
        orders
    }

    /// Every command the page still owes the engine, in the order it sends
    /// them; what is sent each frame, so a command a full queue refused is
    /// sent again.
    pub fn owed(&self) -> (orders: Vec<PageOrder>)
        ensures
            orders@ == sends(owed(*self)),
    {
        let mut orders: Vec<PageOrder> = Vec::new();
        push_sends(&mut orders, self, true);
        orders
    }

    /// Record that `sent` was offered to the engine, and whether it was
    /// taken.
    pub fn ordered(&mut self, sent: Command, accepted: bool)
        ensures
            *final(self) == after_send(*old(self), sent, accepted),
    {
        if !accepted {
            return;
        }
        match sent {
            Command::SetTransport(transport) => self.ordered_transport = transport,
            Command::SetMuted(muted) => self.ordered_muted = muted,
            Command::Undo => {
                if self.undos > 0 {
                    self.undos = self.undos - 1;
                }
            },
            Command::Clear => self.emptying = false,
            _ => {},
        }
    }
}

} // verus!
