//! Putting the audio callback on a core of its own, and reporting what the
//! host allowed.
//!
//! The pinning itself is a pair of calls into the host, made around the build
//! that spawns the callback's thread so that the thread inherits the mask.
//! What is decided here is which core to ask for, and what the host's answer
//! meant.

use std::sync::Arc;
use std::sync::atomic::{AtomicBool, Ordering};
use vstd::prelude::*;

use crate::device::DeviceProfile;

verus! {

/// Where the audio callback asks to run.
#[derive(Debug, Clone, Copy, PartialEq, Eq, Structural)]
pub struct Placement {
    /// The core it runs on, counted from zero.
    pub core: usize,
}

impl Placement {
    /// The last of `cores`, leaving the rest to analysis and the screen; the
    /// first core where there are none to leave.
    ///
    /// Both callbacks of a duplex stream land on this one core.
    pub fn reserving_last_of(cores: usize) -> (placement: Self)
        ensures
            placement.core == if cores >= 1 { cores - 1 } else { 0 },
    {
        Self { core: cores.saturating_sub(1) }
    }

    /// The last of the cores this process is allowed to run on, as the host
    /// listed them in `owned`, or the last of the target's where the host did
    /// not say.
    ///
    /// The running host rather than the profile, because a core is a physical
    /// thing: naming the target's fourth core on a machine that has two is a
    /// placement every host refuses.
    pub fn available(owned: &[usize]) -> (placement: Self)
        ensures
            placement.core == if owned@.len() > 0 {
                owned@.last()
            } else {
                (DeviceProfile::spec_target().cores - 1) as usize
            },
    {
        let count = owned.len();
        if count > 0 {
            return Self { core: owned[count - 1] };
        }
        Self::reserving_last_of(DeviceProfile::target().cores)
    }
}

/// What a host did with one half of a [`Placement`].
#[derive(Debug, Clone, Copy, PartialEq, Eq, Structural)]
pub enum Grant {
    /// Nothing has been asked of the host.
    Unasked,
    /// The host did what was asked.
    Given,
    /// The host has a way to do it and would not.
    Refused,
    /// The host offers no way to do it, or none for the core that was named.
    Unavailable,
    /// The layer below does it, so nothing was asked.
    Hosted,
}

/// [`libc::EPERM`]: the error number of an operation the caller may not
/// perform. Its value is the platform's, so nothing is claimed of it.
#[verifier::external_body]
fn not_permitted() -> i32 {
    libc::EPERM
}

/// [`libc::EACCES`]: the error number of access the caller was denied. Its
/// value is the platform's, so nothing is claimed of it.
#[verifier::external_body]
fn access_denied() -> i32 {
    libc::EACCES
}

impl Grant {
    /// What a host refusing with `errno` meant, where `permission` are the two
    /// error numbers that say the call exists and was denied.
    ///
    /// A permission answer is a refusal; anything else is a host that has no
    /// way to do what was asked.
    pub fn refusing_among(errno: i32, permission: (i32, i32)) -> (grant: Self)
        ensures
            grant == if errno == permission.0 || errno == permission.1 {
                Grant::Refused
            } else {
                Grant::Unavailable
            },
    {
        if errno == permission.0 || errno == permission.1 {
            Self::Refused
        } else {
            Self::Unavailable
        }
    }

    /// What a host refusing with `errno` meant: a permission answer
    /// (`EPERM`, `EACCES`) is a refusal, and anything else is a host that has
    /// no way to do what was asked.
    pub fn refusing(errno: i32) -> (grant: Self)
        ensures
            grant is Refused || grant is Unavailable,
    {
        Self::refusing_among(errno, (not_permitted(), access_denied()))
    }

    /// What a host's answer to a pinning meant: done, or refused with an error
    /// number.
    pub fn of_pinning(outcome: Result<(), i32>) -> (grant: Self)
        ensures
            outcome is Ok ==> grant is Given,
            outcome is Err ==> grant is Refused || grant is Unavailable,
    {
        match outcome {
            Ok(()) => Self::Given,
            Err(errno) => Self::refusing(errno),
        }
    }
}

/// What a host did with a whole [`Placement`].
#[derive(Debug, Clone, Copy, PartialEq, Eq, Structural)]
pub struct Placed {
    /// What became of the core that was asked for.
    pub affinity: Grant,
    /// What became of the callback's scheduling class.
    pub priority: Grant,
}

impl Placed {
    /// Nothing asked of the host, which is what a stream with no callback
    /// thread reports.
    pub fn unasked() -> (placed: Self)
        ensures
            placed.affinity == Grant::Unasked,
            placed.priority == Grant::Unasked,
    {
        Self { affinity: Grant::Unasked, priority: Grant::Unasked }
    }
}

/// Build a latch for the scheduling class the layer below grants, and split it
/// into the reporting end and the reading end.
///
/// Reads `hosted` — what the layer below does on this host before anything
/// reports otherwise — until something reports a refusal, and
/// [`Grant::Refused`] forever after. Allocates here and never again, so this
/// belongs in setup; clone the reporter to give both callbacks a way in.
pub fn priority_latch(hosted: Grant) -> (ends: (PriorityReporter, PriorityReader))
    ensures
        ends.1.spec_hosted() == hosted,
{
    let denied = Arc::new(AtomicBool::new(false));
    (PriorityReporter { denied: Arc::clone(&denied) }, PriorityReader { denied, hosted })
}

/// The reporting end of a priority latch, held by whichever thread hears the
/// refusal.
#[derive(Clone)]
pub struct PriorityReporter {
    denied: Arc<AtomicBool>,
}

impl PriorityReporter {
    /// Report that the layer below was refused the scheduling class it asked
    /// for. One atomic store and no loop, so an error callback may reach it.
    pub fn denied(&self) {
        self.denied.store(true, Ordering::Release);
    }
}

/// The reading end of a priority latch, held by whichever thread reports it.
pub struct PriorityReader {
    denied: Arc<AtomicBool>,
    hosted: Grant,
}

impl PriorityReader {
    /// What the layer below grants before anything reports otherwise.
    pub closed spec fn spec_hosted(&self) -> Grant {
        self.hosted
    }

    /// The scheduling class the callback is running under: refused, once any
    /// callback has reported so, and what the layer below grants until then.
    pub fn read(&self) -> (grant: Grant)
        ensures
            grant == Grant::Refused || grant == self.spec_hosted(),
    {
        if self.denied.load(Ordering::Acquire) {
            return Grant::Refused;
        }
        self.hosted
    }
}

} // verus!
