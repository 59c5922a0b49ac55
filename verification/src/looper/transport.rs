//! What the player is doing with the loop, and what that makes of a block.
//!
//! [`Transport::record`], [`Transport::play`] and [`Transport::stop`] are the
//! only way to change state: each takes the current state and returns the next.
//! Each action is defined for all five states, so none of them returns an
//! error.

use vstd::prelude::*;

verus! {

/// What the looper is doing with the loop.
#[derive(Debug, Clone, Copy, PartialEq, Eq, Structural)]
pub enum Transport {
    /// Nothing has been recorded, so there is nothing to play.
    Idle,
    /// The first take is being captured, with no loop yet to play underneath it.
    Recording,
    /// The loop is playing and the input is not being captured.
    Playing,
    /// The loop is playing and the input is being layered onto it.
    Overdubbing,
    /// A take has been made and nothing is playing.
    Stopped,
}

impl Transport {
    /// The state `record` moves to from `self`.
    pub open spec fn recorded(self) -> Transport {
        match self {
            Transport::Idle => Transport::Recording,
            Transport::Overdubbing => Transport::Playing,
            _ => Transport::Overdubbing,
        }
    }

    /// The state `play` moves to from `self`.
    pub open spec fn played(self) -> Transport {
        match self {
            Transport::Idle => Transport::Idle,
            _ => Transport::Playing,
        }
    }

    /// The state `stop` moves to from `self`.
    pub open spec fn stopped(self) -> Transport {
        match self {
            Transport::Idle => Transport::Idle,
            _ => Transport::Stopped,
        }
    }

    /// Whether a block in this state belongs in the loop.
    pub open spec fn spec_captures_input(self) -> bool {
        self is Recording || self is Overdubbing
    }

    /// Whether the loop is heard in this state.
    pub open spec fn spec_plays_loop(self) -> bool {
        self is Playing || self is Overdubbing
    }

    /// Capture onto the loop: open the first take, layer over the loop that
    /// exists, or drop back out of the layer that is open.
    pub fn record(self) -> (next: Self)
        ensures
            next == self.recorded(),
    {
        match self {
            Self::Idle => Self::Recording,
            Self::Recording | Self::Playing | Self::Stopped => Self::Overdubbing,
            Self::Overdubbing => Self::Playing,
        }
    }

    /// Play the loop without capturing, closing a take or a layer that was
    /// open. [`Transport::Idle`] has nothing to play and is left alone.
    pub fn play(self) -> (next: Self)
        ensures
            next == self.played(),
    {
        match self {
            Self::Idle => Self::Idle,
            Self::Recording | Self::Playing | Self::Overdubbing | Self::Stopped => Self::Playing,
        }
    }

    /// Halt, keeping what has been recorded.
    pub fn stop(self) -> (next: Self)
        ensures
            next == self.stopped(),
    {
        match self {
            Self::Idle => Self::Idle,
            Self::Recording | Self::Playing | Self::Overdubbing | Self::Stopped => Self::Stopped,
        }
    }

    /// Whether the input arriving in this block belongs in the loop.
    pub fn captures_input(self) -> (captures: bool)
        ensures
            captures == self.spec_captures_input(),
    {
        match self {
            Self::Recording | Self::Overdubbing => true,
            Self::Idle | Self::Playing | Self::Stopped => false,
        }
    }

    /// Whether the loop should be heard in this block.
    pub fn plays_loop(self) -> (plays: bool)
        ensures
            plays == self.spec_plays_loop(),
    {
        match self {
            Self::Playing | Self::Overdubbing => true,
            Self::Idle | Self::Recording | Self::Stopped => false,
        }
    }
}

/// Stopping halts the loop, keeping what was recorded: from anything but idle
/// it lands in the stopped state, where the loop is neither heard nor written,
/// and idle, with nothing recorded, stays idle. Stopping twice is stopping once.
pub proof fn lemma_stop_halts(state: Transport)
    ensures
        state != Transport::Idle ==> state.stopped() == Transport::Stopped,
        state == Transport::Idle ==> state.stopped() == Transport::Idle,
        !state.stopped().spec_plays_loop(),
        !state.stopped().spec_captures_input(),
        state.stopped().stopped() == state.stopped(),
{
}

/// Playing hears the loop without writing it: from anything but idle it lands
/// in the playing state, which plays the loop and captures nothing, and idle,
/// with no loop, stays idle.
pub proof fn lemma_play_hears_without_writing(state: Transport)
    ensures
        state != Transport::Idle ==> state.played() == Transport::Playing,
        state != Transport::Idle ==> state.played().spec_plays_loop(),
        state == Transport::Idle ==> state.played() == Transport::Idle,
        !state.played().spec_captures_input(),
{
}

/// Recording writes onto the loop, or drops back out of writing: from idle it
/// opens the first take, which captures without playing; from overdubbing it
/// closes the layer and goes on playing; from anywhere else it layers over the
/// loop, both playing and capturing. Whatever recording leaves, it has a loop
/// or a take under way, and it writes exactly where it did not write before,
/// except that the first take is written from idle.
pub proof fn lemma_record_toggles_writing(state: Transport)
    ensures
        state == Transport::Idle ==> state.recorded() == Transport::Recording,
        state == Transport::Idle ==> state.recorded().spec_captures_input()
            && !state.recorded().spec_plays_loop(),
        state == Transport::Overdubbing ==> state.recorded() == Transport::Playing,
        state != Transport::Idle && state != Transport::Overdubbing ==> state.recorded()
            == Transport::Overdubbing,
        state != Transport::Idle ==> state.recorded().spec_plays_loop(),
        state != Transport::Idle && state != Transport::Recording ==> state.recorded().spec_captures_input()
            != state.spec_captures_input(),
        state.recorded() != Transport::Idle,
{
}

impl Default for Transport {
    /// Nothing recorded yet.
    fn default() -> (idle: Self)
        ensures
            idle == Transport::Idle,
    {
        Transport::Idle
    }
}

} // verus!
