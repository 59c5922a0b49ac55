//! The state a player sees of the audio path, when a device comes and goes.
//!
//! A stream is the wrong thing to hand the rest of the application, because a
//! device that vanishes takes it with it. What survives is the intent to play
//! through a chosen device, and whichever stream serves it; [`AudioState`] is
//! what that looks like from outside.
//!
//! [`Link`] is the deciding half of holding such a stream: given what the
//! player asked for and what the device answered, what the link reports and
//! what has to be done to the stream next. Recovery is a replacement, never a
//! repair: a stream that faulted or refused to start is stopped and dropped,
//! and only opening another brings the path back. The device work itself, and
//! the waiting for it, belong to whoever holds the stream.

use vstd::prelude::*;

use super::DeviceError;

verus! {

/// What the audio path is doing, as far as the rest of the application is
/// concerned.
///
/// This is the value a UI renders. It answers "can I play right now, and if
/// not, why not" in one match, which is the question a status line is asking.
#[derive(Debug, Clone, Copy, PartialEq, Eq, Structural)]
pub enum AudioState {
    /// No stream is open, because none has been opened or one was closed.
    Closed,
    /// A stream is open and not calling back.
    Idle,
    /// A stream is open and calling back.
    Playing,
    /// A stream is being opened, and the device has not answered.
    Opening,
    /// The device failed, and this is what it failed with.
    Lost(DeviceError),
}

/// What a link does about a start or a stop.
#[derive(Debug, Clone, Copy, PartialEq, Eq, Structural)]
pub enum Act {
    /// Nothing is done, and the caller is answered with this error.
    Refused(DeviceError),
    /// Nothing needs doing: a stream being opened takes the intent with it.
    Settled,
    /// The held stream is to be started or stopped, and the outcome reported.
    Perform,
}

/// What a look for the device's answer to an open found.
#[derive(Debug, Clone, Copy)]
pub enum Received {
    /// The device answered: a stream, or why there is none.
    Answer(Result<(), DeviceError>),
    /// Whatever was opening the stream went away without answering.
    Gone,
    /// No answer yet.
    Nothing,
}

/// A link as its decisions read it.
pub struct LinkView {
    /// What the link reports.
    pub state: AudioState,
    /// Whether a player chose the devices, rather than taking what was offered.
    pub chosen: bool,
    /// Whether a player wants the stream running.
    pub running: bool,
    /// Whether a stream is held.
    pub holding: bool,
    /// Whether an open is under way and its answer not yet taken.
    pub awaiting: bool,
}

/// Whether what a link reports agrees with what it holds.
///
/// A link never both holds a stream and awaits another; it awaits only while
/// it reports opening; it reports idle or playing only while it holds a
/// stream, and closed or lost only while it holds none.
pub open spec fn consistent(link: LinkView) -> bool {
    &&& !(link.holding && link.awaiting)
    &&& link.awaiting ==> link.state == AudioState::Opening
    &&& (link.state == AudioState::Idle || link.state == AudioState::Playing) ==> link.holding
    &&& (link.state == AudioState::Closed || link.state is Lost) ==> !link.holding
}

/// A link that was just made: closed, holding nothing, and chosen by nobody.
pub open spec fn fresh() -> LinkView {
    LinkView { state: AudioState::Closed, chosen: false, running: false, holding: false, awaiting: false }
}

/// `link` after a player chose the devices to serve, without opening them:
/// whatever was playing keeps playing, and the link reports opening.
pub open spec fn chose(link: LinkView) -> LinkView {
    LinkView { state: AudioState::Opening, chosen: true, ..link }
}

/// `link` after handing its stream, if any, away to be replaced by one being
/// opened.
pub open spec fn opened(link: LinkView) -> LinkView {
    LinkView { state: AudioState::Opening, holding: false, awaiting: true, ..link }
}

/// `link` after the device answered an open with `answer`.
pub open spec fn arrived(link: LinkView, answer: Result<(), DeviceError>) -> LinkView {
    match answer {
        Ok(()) => LinkView { state: AudioState::Idle, holding: true, awaiting: false, ..link },
        Err(error) => LinkView { state: AudioState::Lost(error), awaiting: false, ..link },
    }
}

/// What a link wanting its stream running, or not as `starting` says, does,
/// and how it stands after.
pub open spec fn acting(link: LinkView, starting: bool) -> (LinkView, Act) {
    let wanting = LinkView { running: starting, ..link };
    match link.state {
        AudioState::Lost(error) => (wanting, Act::Refused(error)),
        _ => if !link.holding {
            if link.state == AudioState::Opening {
                (wanting, Act::Settled)
            } else {
                (wanting, Act::Refused(DeviceError::DeviceNotAvailable))
            }
        } else {
            (wanting, Act::Perform)
        },
    }
}

/// `link` after its stream was started, or stopped as `starting` says, with
/// `outcome`: running or idle where it worked, and otherwise closed and lost
/// with the error.
pub open spec fn performed_on(link: LinkView, starting: bool, outcome: Result<(), DeviceError>) -> LinkView {
    match outcome {
        Ok(()) => LinkView {
            state: if starting { AudioState::Playing } else { AudioState::Idle },
            ..link
        },
        Err(error) => lost_with(link, error),
    }
}

/// `link` closed: no stream held and none wanted running.
pub open spec fn closed_from(link: LinkView) -> LinkView {
    LinkView { state: AudioState::Closed, running: false, holding: false, ..link }
}

/// `link` closed, and lost with `error`.
pub open spec fn lost_with(link: LinkView, error: DeviceError) -> LinkView {
    LinkView { state: AudioState::Lost(error), ..closed_from(link) }
}

/// `link` after a look for the answer to an open found `received`.
///
/// With no open under way there is nothing to look for; an answer arrives, and
/// an opener that went away is a backend failure.
pub open spec fn collected(link: LinkView, received: Received) -> LinkView {
    if !link.awaiting {
        link
    } else {
        match received {
            Received::Answer(answer) => arrived(link, answer),
            Received::Gone => arrived(link, Err(DeviceError::BackendFailure)),
            Received::Nothing => link,
        }
    }
}

/// Whether taking `received` leaves a link with a stream to start, because a
/// player wants it running.
pub open spec fn starts_after(link: LinkView, received: Received) -> bool {
    link.awaiting && link.running && received matches Received::Answer(Ok(()))
}

/// The deciding half of a link: what it reports, and what is to be done to its
/// stream next, given what was asked and what the device answered.
pub struct Link {
    state: AudioState,
    chosen: bool,
    running: bool,
    holding: bool,
    awaiting: bool,
}

impl View for Link {
    type V = LinkView;

    closed spec fn view(&self) -> LinkView {
        LinkView {
            state: self.state,
            chosen: self.chosen,
            running: self.running,
            holding: self.holding,
            awaiting: self.awaiting,
        }
    }
}

impl Link {
    #[verifier::type_invariant]
    spec fn agrees(&self) -> bool {
        consistent(self@)
    }

    /// A link that has opened nothing yet.
    pub fn new() -> (link: Self)
        ensures
            link@ == fresh(),
    {
        Self { state: AudioState::Closed, chosen: false, running: false, holding: false, awaiting: false }
    }

    /// What the link reports.
    pub fn state(&self) -> (state: AudioState)
        ensures
            state == self@.state,
    {
        self.state
    }

    /// Whether a player chose the devices: a stream opened on what the backend
    /// offered does not know what it is playing into, and opens guarded.
    pub fn chosen(&self) -> (chosen: bool)
        ensures
            chosen == self@.chosen,
    {
        self.chosen
    }

    /// Whether a stream is held.
    pub fn holding(&self) -> (holding: bool)
        ensures
            holding == self@.holding,
    {
        self.holding
    }

    /// Whether an open is under way whose answer has not been taken.
    pub fn awaiting(&self) -> (awaiting: bool)
        ensures
            awaiting == self@.awaiting,
            awaiting ==> !self@.holding,
    {
        proof {
            use_type_invariant(self);
        }
        self.awaiting
    }

    /// Take a choice of devices to serve, without opening it.
    pub fn take_choice(&mut self)
        ensures
            final(self)@ == chose(old(self)@),
    {
        proof {
            use_type_invariant(&*self);
        }
        self.state = AudioState::Opening;
        self.chosen = true;
    }

    /// Hand the stream held, if any, away to be replaced by one being opened,
    /// and report whether there was one. Only a link whose last open has been
    /// answered opens again.
    pub fn open(&mut self) -> (replaced: bool)
        requires
            !old(self)@.awaiting,
        ensures
            replaced == old(self)@.holding,
            final(self)@ == opened(old(self)@),
    {
        let replaced = self.holding;
        self.state = AudioState::Opening;
        self.holding = false;
        self.awaiting = true;
        replaced
    }

    /// Take the device's answer to the open under way, and report whether
    /// the stream it brought is to be started, because a player wants it
    /// running.
    pub fn arrive(&mut self, answer: Result<(), DeviceError>) -> (start: bool)
        requires
            old(self)@.awaiting,
        ensures
            final(self)@ == arrived(old(self)@, answer),
            start == (answer is Ok && old(self)@.running),
    {
        proof {
            use_type_invariant(&*self);
        }
        self.awaiting = false;
        match answer {
            Ok(()) => {
                self.holding = true;
                self.state = AudioState::Idle;
                self.running
            },
            Err(error) => {
                self.state = AudioState::Lost(error);
                false
            },
        }
    }

    /// Take what a look for the answer to an open found, and report whether
    /// the stream it brought is to be started.
    pub fn collect(&mut self, received: Received) -> (start: bool)
        ensures
            final(self)@ == collected(old(self)@, received),
            start == starts_after(old(self)@, received),
    {
        if !self.awaiting {
            return false;
        }
        match received {
            Received::Answer(answer) => self.arrive(answer),
            Received::Gone => self.arrive(Err(DeviceError::BackendFailure)),
            Received::Nothing => false,
        }
    }

    /// Want the stream running, or not as `starting` says, and decide what
    /// that takes.
    pub fn act(&mut self, starting: bool) -> (act: Act)
        ensures
            (final(self)@, act) == acting(old(self)@, starting),
    {
        proof {
            use_type_invariant(&*self);
        }
        self.running = starting;
        match self.state {
            AudioState::Lost(error) => Act::Refused(error),
            _ => if !self.holding {
                if self.state == AudioState::Opening {
                    Act::Settled
                } else {
                    Act::Refused(DeviceError::DeviceNotAvailable)
                }
            } else {
                Act::Perform
            },
        }
    }

    /// Take the outcome of starting, or stopping as `starting` says, the held
    /// stream, and report it. A stream that refused is to be stopped and
    /// dropped: the link has closed and is lost with the error.
    pub fn performed(&mut self, starting: bool, outcome: Result<(), DeviceError>) -> (reported: Result<
        (),
        DeviceError,
    >)
        requires
            old(self)@.holding,
        ensures
            final(self)@ == performed_on(old(self)@, starting, outcome),
            reported == outcome,
    {
        proof {
            use_type_invariant(&*self);
        }
        match outcome {
            Ok(()) => {
                self.state = if starting { AudioState::Playing } else { AudioState::Idle };
            },
            Err(error) => {
                *self = Self {
                    state: AudioState::Lost(error),
                    chosen: self.chosen,
                    running: false,
                    holding: false,
                    awaiting: self.awaiting,
                };
            },
        }
        outcome
    }

    /// Close: the stream held, if any, is to be stopped and dropped, and none
    /// is wanted running. Only a link whose last open has been answered
    /// closes.
    pub fn close(&mut self)
        requires
            !old(self)@.awaiting,
        ensures
            final(self)@ == closed_from(old(self)@),
    {
        *self = Self {
            state: AudioState::Closed,
            chosen: self.chosen,
            running: false,
            holding: false,
            awaiting: self.awaiting,
        };
    }

    /// Take a fault the held stream latched: it is to be stopped and dropped,
    /// and the link is lost with the fault until something opens it again.
    pub fn faulted(&mut self, fault: DeviceError)
        requires
            old(self)@.holding,
        ensures
            final(self)@ == lost_with(old(self)@, fault),
    {
        proof {
            use_type_invariant(&*self);
        }
        *self = Self {
            state: AudioState::Lost(fault),
            chosen: self.chosen,
            running: false,
            holding: false,
            awaiting: self.awaiting,
        };
    }
}

/// Every decision keeps a link's report in agreement with what it holds.
pub proof fn lemma_decisions_agree(link: LinkView, answer: Result<(), DeviceError>, received: Received, starting: bool, error: DeviceError)
    requires
        consistent(link),
    ensures
        consistent(fresh()),
        consistent(chose(link)),
        !link.awaiting ==> consistent(opened(link)),
        link.awaiting ==> consistent(arrived(link, answer)),
        consistent(collected(link, received)),
        consistent(acting(link, starting).0),
        link.holding ==> consistent(performed_on(link, starting, answer)),
        !link.awaiting ==> consistent(closed_from(link)),
        link.holding ==> consistent(lost_with(link, error)),
{
}

/// A lost link stays lost until something opens, chooses or closes it:
/// looking for an answer changes nothing, and starting or stopping it is
/// refused with the error it was lost with.
pub proof fn lemma_lost_stays_lost(link: LinkView, received: Received, starting: bool)
    requires
        consistent(link),
        link.state is Lost,
    ensures
        collected(link, received) == link,
        acting(link, starting).0.state == link.state,
        acting(link, starting).1 == Act::Refused(link.state->0),
{
}

} // verus!
