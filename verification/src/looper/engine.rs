//! How the owner of the loop moves from one transport state to the next.
//!
//! The buffer, the playhead and the take crossing to the analyst all change
//! when the player moves the transport, and they change together: a playhead
//! that starts the loop over, a layer opened for an overdub where there is
//! room for one, and a take handed over exactly when the loop stops being
//! written. [`moving`] is that decision, made from the two states and what the
//! loop holds; the owner of the loop carries it out.

use vstd::prelude::*;

use super::{Transport, LAYERS};

verus! {

/// What becomes of the take crossing to the analyst as the transport moves.
#[derive(Debug, Clone, Copy, PartialEq, Eq, Structural)]
pub enum HandOver {
    /// Nothing: the loop is written as much as it was.
    Keep,
    /// Begin handing the take over: the loop just stopped being written.
    Begin,
    /// Drop the crossing in flight: the loop is being written again, so the
    /// take being swept is out of date.
    Abandon,
}

/// What a move of the transport does to the loop.
#[derive(Debug, Clone, Copy, PartialEq, Eq, Structural)]
pub struct Motion {
    /// Whether the playhead goes back to the start of the loop.
    pub restarts: bool,
    /// Whether a layer is open to be written into after the move.
    pub layer_open: bool,
    /// Whether a new layer is opened at the playhead.
    pub overdubs: bool,
    /// What becomes of the take crossing to the analyst.
    pub hand_over: HandOver,
}

/// Whether the loop is being written: the transport captures input and a
/// layer is open to take it.
pub open spec fn writing(transport: Transport, layer_open: bool) -> bool {
    transport.spec_captures_input() && layer_open
}

/// What moving the transport from `from` to `to` does to a loop whose layer
/// is open as `layer_open` says and which holds `depth` layers.
///
/// The playhead starts the loop over when the loop starts playing. Entering
/// an overdub opens a layer where the loop has room for one, and leaves none
/// open where it is full. The take is handed over when the loop stops being
/// written, and a crossing in flight is dropped when it starts again.
pub open spec fn motion_of(from: Transport, to: Transport, layer_open: bool, depth: int) -> Motion {
    let entering = to == Transport::Overdubbing && from != Transport::Overdubbing;
    let open = if entering { depth < LAYERS } else { layer_open };
    let was = writing(from, layer_open);
    let now = writing(to, open);
    Motion {
        restarts: to.spec_plays_loop() && !from.spec_plays_loop(),
        layer_open: open,
        overdubs: entering && depth < LAYERS,
        hand_over: if now == was {
            HandOver::Keep
        } else if now {
            HandOver::Abandon
        } else {
            HandOver::Begin
        },
    }
}

/// What moving the transport from `from` to `to` does to a loop whose layer is
/// open as `layer_open` says and which holds `depth` layers.
pub fn moving(from: Transport, to: Transport, layer_open: bool, depth: usize) -> (motion: Motion)
    ensures
        motion == motion_of(from, to, layer_open, depth as int),
{
    let entering = to == Transport::Overdubbing && from != Transport::Overdubbing;
    let open = if entering { depth < LAYERS } else { layer_open };
    let was = from.captures_input() && layer_open;
    let now = to.captures_input() && open;
    Motion {
        restarts: to.plays_loop() && !from.plays_loop(),
        layer_open: open,
        overdubs: entering && depth < LAYERS,
        hand_over: if now == was {
            HandOver::Keep
        } else if now {
            HandOver::Abandon
        } else {
            HandOver::Begin
        },
    }
}

/// What becomes of the take when the loop's layers change while the transport
/// stays put, as an undo or a clear changes them: a crossing in flight is
/// dropped where the loop is being written, and a new take begins otherwise.
pub open spec fn rehanding(transport: Transport, layer_open: bool) -> HandOver {
    if writing(transport, layer_open) {
        HandOver::Abandon
    } else {
        HandOver::Begin
    }
}

/// What becomes of the take when the loop's layers change under `transport`
/// with a layer open as `layer_open` says.
pub fn handing_over(transport: Transport, layer_open: bool) -> (hand_over: HandOver)
    ensures
        hand_over == rehanding(transport, layer_open),
{
    if transport.captures_input() && layer_open {
        HandOver::Abandon
    } else {
        HandOver::Begin
    }
}

/// `frames`, as the 32-bit count a published position carries, held at the
/// largest one there is.
pub fn frame_count(frames: usize) -> (count: u32)
    ensures
        count == if frames <= u32::MAX { frames as int } else { u32::MAX as int },
{
    if frames <= u32::MAX as usize {
        frames as u32
    } else {
        u32::MAX
    }
}

/// A take is handed over exactly when the loop stops being written, and a
/// crossing is dropped exactly when it starts being written again.
pub proof fn lemma_take_handed_over_on_leaving(from: Transport, to: Transport, layer_open: bool, depth: int)
    ensures
        (motion_of(from, to, layer_open, depth).hand_over == HandOver::Begin) == (writing(from, layer_open)
            && !writing(to, motion_of(from, to, layer_open, depth).layer_open)),
        (motion_of(from, to, layer_open, depth).hand_over == HandOver::Abandon) == (!writing(
            from,
            layer_open,
        ) && writing(to, motion_of(from, to, layer_open, depth).layer_open)),
{
}

/// Play and stop close whatever was open: after either, nothing is written
/// into the loop. Stop neither starts the loop over nor opens a layer, so
/// what was recorded is kept as it was.
pub proof fn lemma_play_and_stop_close(from: Transport, layer_open: bool, depth: int)
    ensures
        !writing(Transport::Playing, motion_of(from, Transport::Playing, layer_open, depth).layer_open),
        !writing(Transport::Stopped, motion_of(from, Transport::Stopped, layer_open, depth).layer_open),
        !motion_of(from, Transport::Stopped, layer_open, depth).overdubs,
        !motion_of(from, Transport::Stopped, layer_open, depth).restarts,
{
}

} // verus!
