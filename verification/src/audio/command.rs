//! Changing what the audio callback does, from the application thread.
//!
//! The receiving end lives on the real-time thread, which may not allocate,
//! lock or wait, so a command crosses as a value written into a slot that is
//! already there — data rather than a closure.
//!
//! Each slot is an [`AtomicU64`] bit pattern, which is what keeps the queue in
//! safe code: a command crosses as the bits it encodes to, a tag naming it and
//! a payload carrying what it says.

use std::sync::Arc;
use std::sync::atomic::{AtomicU64, AtomicUsize, Ordering};
use vstd::prelude::*;

use super::counters::{count_on, counted_on, occupancy, occupied_of, room, room_of, slot_at};
use crate::looper::Transport;

verus! {

/// The payload a transport state crosses the queue as.
pub open spec fn transport_code(transport: Transport) -> u32 {
    match transport {
        Transport::Idle => 0,
        Transport::Recording => 1,
        Transport::Playing => 2,
        Transport::Overdubbing => 3,
        Transport::Stopped => 4,
    }
}

/// The transport state a payload names, or `None` where it names none.
pub open spec fn transport_of(payload: u32) -> Option<Transport> {
    if payload == 0 {
        Some(Transport::Idle)
    } else if payload == 1 {
        Some(Transport::Recording)
    } else if payload == 2 {
        Some(Transport::Playing)
    } else if payload == 3 {
        Some(Transport::Overdubbing)
    } else if payload == 4 {
        Some(Transport::Stopped)
    } else {
        None
    }
}

/// Every transport state reads back as itself, and only what a state encodes
/// to names one.
pub proof fn lemma_transport_codes(transport: Transport, payload: u32)
    ensures
        transport_of(transport_code(transport)) == Some(transport),
        transport_of(payload) matches Some(named) ==> transport_code(named) == payload,
{
}

/// The payload `transport` crosses the queue as.
pub fn transport_bits(transport: Transport) -> (payload: u32)
    ensures
        payload == transport_code(transport),
{
    match transport {
        Transport::Idle => 0,
        Transport::Recording => 1,
        Transport::Playing => 2,
        Transport::Overdubbing => 3,
        Transport::Stopped => 4,
    }
}

/// The transport state `payload` names, or `None` where it names none: a
/// payload no state encodes to is refused rather than guessed at.
pub fn transport_from_bits(payload: u32) -> (transport: Option<Transport>)
    ensures
        transport == transport_of(payload),
{
    match payload {
        0 => Some(Transport::Idle),
        1 => Some(Transport::Recording),
        2 => Some(Transport::Playing),
        3 => Some(Transport::Overdubbing),
        4 => Some(Transport::Stopped),
        _ => None,
    }
}

/// Where a command's tag sits in the word it crosses as: above its payload.
pub const TAG_SHIFT: u64 = 32;

/// What the player asked the callback to change, as it crosses.
///
/// A command that sets something carries the state to be in rather than a
/// change to it, so one refused send cannot leave the two ends disagreeing for
/// good. A gain travels as the bits of its value, and a count of bars as the
/// bits it is packed into.
#[derive(Debug, Clone, Copy, PartialEq, Eq, Structural)]
pub enum Command {
    /// Move the transport to this state.
    SetTransport(Transport),
    /// Mute the input, or stop muting it.
    SetMuted(bool),
    /// Reach for this input gain, as the bits of its value.
    SetGain(u32),
    /// Count the take in these bars, as the bits they are packed into, or in
    /// none where nobody said.
    SetBars(Option<u32>),
    /// Take the most recent overdub off the loop.
    Undo,
    /// Empty the loop.
    Clear,
}

/// The tag naming what kind of command a word carries.
pub open spec fn tag_of(command: Command) -> u64 {
    match command {
        Command::SetTransport(_) => 0,
        Command::SetMuted(_) => 1,
        Command::SetGain(_) => 2,
        Command::Undo => 3,
        Command::Clear => 4,
        Command::SetBars(_) => 5,
    }
}

/// What a command carries below its tag.
pub open spec fn payload_of(command: Command) -> u32 {
    match command {
        Command::SetTransport(transport) => transport_code(transport),
        Command::SetMuted(muted) => if muted { 1 } else { 0 },
        Command::SetGain(gain) => gain,
        Command::SetBars(bars) => match bars {
            Some(bits) => bits,
            None => 0,
        },
        Command::Undo | Command::Clear => 0,
    }
}

/// The word `command` crosses as: its tag above its payload.
pub open spec fn command_word(command: Command) -> u64 {
    (tag_of(command) << TAG_SHIFT) | (payload_of(command) as u64)
}

/// The command `bits` names, or `None` where it names none: an unknown tag, or
/// a payload no command of its tag carries.
pub open spec fn command_of(bits: u64) -> Option<Command> {
    let tag = bits >> TAG_SHIFT;
    let payload = bits as u32;
    if tag == 0 {
        match transport_of(payload) {
            Some(transport) => Some(Command::SetTransport(transport)),
            None => None,
        }
    } else if tag == 1 {
        if payload <= 1 { Some(Command::SetMuted(payload != 0)) } else { None }
    } else if tag == 2 {
        Some(Command::SetGain(payload))
    } else if tag == 3 {
        if payload == 0 { Some(Command::Undo) } else { None }
    } else if tag == 4 {
        if payload == 0 { Some(Command::Clear) } else { None }
    } else if tag == 5 {
        Some(Command::SetBars(if payload == 0 { None } else { Some(payload) }))
    } else {
        None
    }
}

/// A command crosses as the word it encodes to and comes back as itself;
/// the one exception is a count of bars whose bits are all clear, which reads
/// back as no count.
pub proof fn lemma_command_round_trip(command: Command)
    requires
        command != Command::SetBars(Some(0u32)),
    ensures
        command_of(command_word(command)) == Some(command),
{
    let tag = tag_of(command);
    let payload = payload_of(command);
    let word = command_word(command);
    assert(tag < 6);
    assert(word >> 32u64 == tag && word as u32 == payload) by (bit_vector)
        requires
            tag < 6,
            word == (tag << 32u64) | (payload as u64),
    ;
    lemma_transport_codes(Transport::Idle, 0);
    match command {
        Command::SetTransport(transport) => {
            lemma_transport_codes(transport, payload);
        },
        _ => {},
    }
}

impl Command {
    /// The word the command crosses as.
    pub fn to_bits(self) -> (bits: u64)
        ensures
            bits == command_word(self),
    {
        let (tag, payload): (u64, u32) = match self {
            Command::SetTransport(transport) => (0, transport_bits(transport)),
            Command::SetMuted(muted) => (1, if muted { 1 } else { 0 }),
            Command::SetGain(gain) => (2, gain),
            Command::SetBars(bars) => (5, match bars {
                Some(bits) => bits,
                None => 0,
            }),
            Command::Undo => (3, 0),
            Command::Clear => (4, 0),
        };
        (tag << TAG_SHIFT) | (payload as u64)
    }

    /// The command `bits` names, or `None` where it names none: a word naming
    /// no command is discarded rather than guessed at.
    pub fn from_bits(bits: u64) -> (command: Option<Self>)
        ensures
            command == command_of(bits),
    {
        let tag = bits >> TAG_SHIFT;
        let payload = bits as u32;
        if tag == 0 {
            match transport_from_bits(payload) {
                Some(transport) => Some(Command::SetTransport(transport)),
                None => None,
            }
        } else if tag == 1 {
            if payload <= 1 { Some(Command::SetMuted(payload != 0)) } else { None }
        } else if tag == 2 {
            Some(Command::SetGain(payload))
        } else if tag == 3 {
            if payload == 0 { Some(Command::Undo) } else { None }
        } else if tag == 4 {
            if payload == 0 { Some(Command::Clear) } else { None }
        } else if tag == 5 {
            Some(Command::SetBars(if payload == 0 { None } else { Some(payload) }))
        } else {
            None
        }
    }
}

/// Why a command could not be sent.
#[derive(Debug, Clone, Copy, PartialEq, Eq, Structural)]
#[non_exhaustive]
pub enum SendError {
    /// The queue has no room. The command was not queued, and the sender
    /// decides whether to retry it or to drop it.
    Full,
}

impl SendError {
    /// What went wrong, in words.
    pub fn described(self) -> (words: &'static str)
        ensures
            words@ == "the command queue is full"@,
    {
        match self {
            SendError::Full => "the command queue is full",
        }
    }
}

struct Queue {
    slots: Vec<AtomicU64>,
    sent: AtomicUsize,
    received: AtomicUsize,
}

/// Whether a queue of `capacity` slots has room for one more command at the
/// counters `sent` and `received`.
pub open spec fn can_send(capacity: nat, sent: usize, received: usize) -> bool {
    room(capacity, sent, received) > 0
}

/// Whether a command is waiting at the counters `sent` and `received`.
pub open spec fn waiting(sent: usize, received: usize) -> bool {
    occupancy(sent, received) > 0
}

/// Whether a queue of `capacity` slots takes one more command at the counters
/// `sent` and `received`.
pub fn sendable(capacity: usize, sent: usize, received: usize) -> (open: bool)
    ensures
        open == can_send(capacity as nat, sent, received),
{
    room_of(capacity, sent, received) > 0
}

/// Whether a command is waiting at the counters `sent` and `received`.
pub fn receivable(sent: usize, received: usize) -> (ready: bool)
    ensures
        ready == waiting(sent, received),
{
    occupied_of(sent, received) > 0
}

/// Build a queue holding at most `capacity` commands, and split it into the end
/// that sends and the end that receives.
///
/// The storage is allocated here and never again, so this belongs in setup. A
/// queue of no capacity would refuse every command ever sent, which is a
/// mistake in setup, so `capacity` is never zero.
pub fn command_channel(capacity: usize) -> (ends: (CommandSender, CommandReceiver))
    requires
        capacity > 0,
    ensures
        ends.0.spec_capacity() == capacity,
        ends.1.spec_capacity() == capacity,
        ends.0.spec_sent() == 0,
        ends.1.spec_received() == 0,
{
    let mut slots: Vec<AtomicU64> = Vec::new();
    let mut made: usize = 0;
    while made < capacity
        invariant
            made <= capacity,
            slots@.len() == made,
        decreases capacity - made,
    {
        slots.push(AtomicU64::new(0));
        made = made + 1;
    }
    let queue = Arc::new(Queue { slots, sent: AtomicUsize::new(0), received: AtomicUsize::new(0) });
    (CommandSender { queue: Arc::clone(&queue), sent: 0 }, CommandReceiver { queue, received: 0 })
}

/// The sending end of a command queue, held by the application thread.
pub struct CommandSender {
    queue: Arc<Queue>,
    sent: usize,
}

impl CommandSender {
    /// The most commands the queue holds at once.
    pub closed spec fn spec_capacity(&self) -> nat {
        self.queue.slots@.len()
    }

    /// How many commands this end has queued, counted round the word: the
    /// counter it publishes to the receiver.
    pub closed spec fn spec_sent(&self) -> usize {
        self.sent
    }

    #[verifier::type_invariant]
    spec fn holds_something(&self) -> bool {
        self.queue.slots@.len() > 0
    }

    /// Queue the command `bits` encodes for the callback to apply on its next
    /// block.
    ///
    /// # Errors
    ///
    /// Returns [`SendError::Full`] when the queue has no room, leaving the
    /// command unqueued. Whether there is room is the receiver's doing as much
    /// as this end's, so either answer may come back: what is promised is the
    /// answer for the count received that this end found.
    pub fn send_bits(&mut self, bits: u64) -> (sent: Result<(), SendError>)
        ensures
            exists|received: usize|
                (sent is Ok) == #[trigger] can_send(
                    old(self).spec_capacity(),
                    old(self).spec_sent(),
                    received,
                ),
            sent matches Err(error) ==> error == SendError::Full,
            final(self).spec_sent() == if sent is Ok {
                counted_on(old(self).spec_sent(), 1)
            } else {
                old(self).spec_sent()
            },
            final(self).spec_capacity() == old(self).spec_capacity(),
    {
        let received = self.queue.received.load(Ordering::Acquire);
        self.send_at(bits, received)
    }

    /// Queue `bits` with the receiver's counter at `received`.
    fn send_at(&mut self, bits: u64, received: usize) -> (sent: Result<(), SendError>)
        ensures
            (sent is Ok) == can_send(old(self).spec_capacity(), old(self).spec_sent(), received),
            sent matches Err(error) ==> error == SendError::Full,
            final(self).spec_sent() == if sent is Ok {
                counted_on(old(self).spec_sent(), 1)
            } else {
                old(self).spec_sent()
            },
            final(self).spec_capacity() == old(self).spec_capacity(),
    {
        proof {
            use_type_invariant(&*self);
        }
        let capacity = self.queue.slots.len();
        let sent = self.sent;
        let open = sendable(capacity, sent, received);
        assert(open == can_send(old(self).spec_capacity(), old(self).spec_sent(), received));
        if !open {
            return Err(SendError::Full);
        }
        let slot = slot_at(sent, capacity);
        self.queue.slots[slot].store(bits, Ordering::Relaxed);
        let next = count_on(sent, 1);
        self.queue.sent.store(next, Ordering::Release);
        self.sent = next;
        Ok(())
    }

    /// Queue `command`, or report [`SendError::Full`] and leave it unqueued.
    pub fn send(&mut self, command: Command) -> (sent: Result<(), SendError>)
        ensures
            exists|received: usize|
                (sent is Ok) == #[trigger] can_send(
                    old(self).spec_capacity(),
                    old(self).spec_sent(),
                    received,
                ),
            sent matches Err(error) ==> error == SendError::Full,
            final(self).spec_sent() == if sent is Ok {
                counted_on(old(self).spec_sent(), 1)
            } else {
                old(self).spec_sent()
            },
            final(self).spec_capacity() == old(self).spec_capacity(),
    {
        self.send_bits(command.to_bits())
    }

    /// How many commands can be sent before the queue is full.
    ///
    /// A receiver running concurrently can only make this larger, so a send
    /// from this thread while this is non-zero always fits.
    pub fn vacant(&self) -> (vacant: usize)
        ensures
            exists|received: usize|
                vacant == #[trigger] room(self.spec_capacity(), self.spec_sent(), received),
            vacant <= self.spec_capacity(),
    {
        let received = self.queue.received.load(Ordering::Acquire);
        let vacant = room_of(self.queue.slots.len(), self.sent, received);
        assert(vacant == room(self.spec_capacity(), self.spec_sent(), received));
        vacant
    }
}

/// The receiving end of a command queue, held by the audio callback.
pub struct CommandReceiver {
    queue: Arc<Queue>,
    received: usize,
}

impl CommandReceiver {
    /// The most commands the queue holds at once.
    pub closed spec fn spec_capacity(&self) -> nat {
        self.queue.slots@.len()
    }

    /// How many commands this end has taken, counted round the word: the
    /// counter it publishes to the sender.
    pub closed spec fn spec_received(&self) -> usize {
        self.received
    }

    #[verifier::type_invariant]
    spec fn holds_something(&self) -> bool {
        self.queue.slots@.len() > 0
    }

    /// Take the bits of the oldest command waiting, or `None` when none is.
    ///
    /// An empty queue is the ordinary case — most blocks change nothing — so it
    /// is a result to carry on from, never a condition to wait for.
    pub fn recv_bits(&mut self) -> (received: Option<u64>)
        ensures
            exists|sent: usize| (received is Some) == #[trigger] waiting(sent, old(self).spec_received()),
            final(self).spec_received() == if received is Some {
                counted_on(old(self).spec_received(), 1)
            } else {
                old(self).spec_received()
            },
            final(self).spec_capacity() == old(self).spec_capacity(),
    {
        let sent = self.queue.sent.load(Ordering::Acquire);
        self.recv_at(sent)
    }

    /// Take the bits of the oldest command waiting with the sender's counter
    /// at `sent`.
    fn recv_at(&mut self, sent: usize) -> (received: Option<u64>)
        ensures
            (received is Some) == waiting(sent, old(self).spec_received()),
            final(self).spec_received() == if received is Some {
                counted_on(old(self).spec_received(), 1)
            } else {
                old(self).spec_received()
            },
            final(self).spec_capacity() == old(self).spec_capacity(),
    {
        proof {
            use_type_invariant(&*self);
        }
        let received = self.received;
        let ready = receivable(sent, received);
        assert(ready == waiting(sent, old(self).spec_received()));
        if !ready {
            return None;
        }
        let slot = slot_at(received, self.queue.slots.len());
        let bits = self.queue.slots[slot].load(Ordering::Relaxed);
        let next = count_on(received, 1);
        self.queue.received.store(next, Ordering::Release);
        self.received = next;
        Some(bits)
    }

    /// Take the oldest command waiting, or nothing where none is or where the
    /// word taken names no command.
    ///
    /// What is waiting was queued by a sender on another thread, so a command
    /// received is the decoding of some word rather than of one this thread can
    /// name. A word is taken exactly where one was waiting, whether or not it
    /// names a command.
    pub fn recv(&mut self) -> (received: Option<Command>)
        ensures
            received is None || exists|bits: u64| received == command_of(bits),
            exists|sent: usize|
                #[trigger] waiting(sent, old(self).spec_received()) == (final(self).spec_received()
                    == counted_on(old(self).spec_received(), 1)),
            final(self).spec_received() == old(self).spec_received() || final(self).spec_received()
                == counted_on(old(self).spec_received(), 1),
            received is Some ==> final(self).spec_received() == counted_on(old(self).spec_received(), 1),
            final(self).spec_capacity() == old(self).spec_capacity(),
    {
        let taken = self.recv_bits();
        assert(counted_on(old(self).spec_received(), 1) != old(self).spec_received());
        match taken {
            Some(bits) => Command::from_bits(bits),
            None => None,
        }
    }

    /// How many commands are waiting to be received.
    ///
    /// A sender running concurrently can only make this larger, so this many
    /// receives from this thread always succeed.
    pub fn pending(&self) -> (pending: usize)
        ensures
            exists|sent: usize| pending == #[trigger] occupancy(sent, self.spec_received()),
    {
        let sent = self.queue.sent.load(Ordering::Acquire);
        let pending = occupied_of(sent, self.received);
        assert(pending == occupancy(sent, self.spec_received()));
        pending
    }

    /// Start taking every command that was waiting when the drain began,
    /// oldest first.
    ///
    /// The count is fixed here, so a sender running concurrently cannot extend
    /// the run: the callback applies what arrived before its block and nothing
    /// later, and the run is bounded before it starts rather than by whatever
    /// the other thread does next.
    pub fn drain(&self) -> (drain: Drain)
        ensures
            exists|sent: usize| drain.spec_remaining() == #[trigger] occupancy(sent, self.spec_received()),
    {
        Drain { remaining: self.pending() }
    }
}

/// A run of receives bounded when it began: see [`CommandReceiver::drain`].
pub struct Drain {
    remaining: usize,
}

impl Drain {
    /// How many receives the run has left.
    pub closed spec fn spec_remaining(&self) -> nat {
        self.remaining as nat
    }

    /// The next command of the run, taken from `receiver`, or `None` where the
    /// run is over: it has no receives left, or the word taken named no
    /// command, which ends the run as an empty queue would.
    pub fn next_from(&mut self, receiver: &mut CommandReceiver) -> (next: Option<Command>)
        ensures
            old(self).spec_remaining() == 0 ==> next is None,
            old(self).spec_remaining() == 0 ==> final(self).spec_remaining() == 0,
            old(self).spec_remaining() == 0 ==> *final(receiver) == *old(receiver),
            old(self).spec_remaining() > 0 ==> final(self).spec_remaining() + 1 == old(self).spec_remaining(),
            old(self).spec_remaining() > 0 ==> next is None || exists|bits: u64| next == command_of(bits),
            old(self).spec_remaining() > 0 ==> exists|sent: usize|
                #[trigger] waiting(sent, old(receiver).spec_received()) == (final(receiver).spec_received()
                    == counted_on(old(receiver).spec_received(), 1)),
            old(self).spec_remaining() > 0 ==> (final(receiver).spec_received() == old(receiver).spec_received()
                || final(receiver).spec_received() == counted_on(old(receiver).spec_received(), 1)),
            next is Some ==> final(receiver).spec_received() == counted_on(old(receiver).spec_received(), 1),
            final(receiver).spec_capacity() == old(receiver).spec_capacity(),
    {
        if self.remaining == 0 {
            return None;
        }
        self.remaining = self.remaining - 1;
        receiver.recv()
    }
}

} // verus!
