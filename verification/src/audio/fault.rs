//! Carrying the news that a device faulted, from the callback that heard it to
//! the thread that can do something about it.
//!
//! A host reports device loss by calling a stream's error callback, which runs
//! under the same rules as the data callback: no allocation, no lock, no
//! panicking path. So the fault crosses as one atomic compare-exchange.
//!
//! The first fault wins, rather than the most recent. A device that goes away
//! reports again on every callback that follows, and each of those is a
//! consequence of the first; latching the first keeps the cause.

use std::sync::Arc;
use std::sync::atomic::{AtomicU8, Ordering};
use vstd::prelude::*;

use super::DeviceError;

verus! {

/// The code a latch holds before anything faulted.
pub const NO_FAULT: u8 = 0;

/// The code a fault crosses the latch as.
pub open spec fn fault_code(error: DeviceError) -> u8 {
    match error {
        DeviceError::NoInputDevice => 1,
        DeviceError::NoOutputDevice => 2,
        DeviceError::UnsupportedConfig => 3,
        DeviceError::DeviceNotAvailable => 4,
        DeviceError::PermissionDenied => 5,
        DeviceError::BackendFailure => 6,
        DeviceError::NoSuchHost => 7,
    }
}

/// The fault a code names, or `None` where it names none.
pub open spec fn fault_of(code: u8) -> Option<DeviceError> {
    if code == 1 {
        Some(DeviceError::NoInputDevice)
    } else if code == 2 {
        Some(DeviceError::NoOutputDevice)
    } else if code == 3 {
        Some(DeviceError::UnsupportedConfig)
    } else if code == 4 {
        Some(DeviceError::DeviceNotAvailable)
    } else if code == 5 {
        Some(DeviceError::PermissionDenied)
    } else if code == 6 {
        Some(DeviceError::BackendFailure)
    } else if code == 7 {
        Some(DeviceError::NoSuchHost)
    } else {
        None
    }
}

/// Every fault reads back as itself, and the empty latch as no fault: a code
/// round-trips, and no fault is coded as the empty latch.
pub proof fn lemma_fault_codes(error: DeviceError)
    ensures
        fault_of(fault_code(error)) == Some(error),
        fault_code(error) != NO_FAULT,
        fault_of(NO_FAULT) is None,
{
}

/// The code `error` crosses the latch as.
pub fn encoded(error: DeviceError) -> (code: u8)
    ensures
        code == fault_code(error),
{
    match error {
        DeviceError::NoInputDevice => 1,
        DeviceError::NoOutputDevice => 2,
        DeviceError::UnsupportedConfig => 3,
        DeviceError::DeviceNotAvailable => 4,
        DeviceError::PermissionDenied => 5,
        DeviceError::BackendFailure => 6,
        DeviceError::NoSuchHost => 7,
    }
}

/// The fault `code` names, or `None` where it names none.
pub fn decoded(code: u8) -> (error: Option<DeviceError>)
    ensures
        error == fault_of(code),
{
    match code {
        1 => Some(DeviceError::NoInputDevice),
        2 => Some(DeviceError::NoOutputDevice),
        3 => Some(DeviceError::UnsupportedConfig),
        4 => Some(DeviceError::DeviceNotAvailable),
        5 => Some(DeviceError::PermissionDenied),
        6 => Some(DeviceError::BackendFailure),
        7 => Some(DeviceError::NoSuchHost),
        _ => None,
    }
}

/// Build a fault latch, and split it into the reporting end and the reading
/// end.
///
/// Allocates here and never again, so this belongs in setup, before the stream
/// starts.
pub fn fault_channel() -> (ends: (FaultReporter, FaultReader))
    ensures
        ends.0.feeds(ends.1),
{
    let latched = Arc::new(AtomicU8::new(NO_FAULT));
    (FaultReporter { latched: Arc::clone(&latched) }, FaultReader { latched })
}

/// The reporting end of a fault latch, held by whichever thread hears the
/// device fail.
///
/// This is the end a stream's error callback holds. Clone it to give both
/// callbacks of a duplex stream a way in; cloning allocates, so clone at setup.
#[derive(Clone)]
pub struct FaultReporter {
    latched: Arc<AtomicU8>,
}

impl FaultReporter {
    /// Whether `reader` reads the latch this reporter reports to: the two
    /// hold one shared latch.
    pub closed spec fn feeds(&self, reader: FaultReader) -> bool {
        self.latched == reader.latched
    }

    /// Latch `error` as the reason the device failed, if nothing has been
    /// latched yet.
    ///
    /// One compare-exchange and no loop, so this is safe to call from an error
    /// callback. A second report is dropped rather than replacing the first.
    pub fn report(&self, error: DeviceError) {
        let _ = self.latched.compare_exchange(
            NO_FAULT,
            encoded(error),
            Ordering::Release,
            Ordering::Relaxed,
        );
    }
}

/// The reading end of a fault latch, held by whichever thread can rebuild the
/// stream.
pub struct FaultReader {
    latched: Arc<AtomicU8>,
}

impl FaultReader {
    /// Why the device failed, or `None` while it has not.
    ///
    /// Clears nothing. What the latch holds is whatever a callback on another
    /// thread latched, so the reading is the decoding of some code rather than
    /// of one this thread can name.
    pub fn read(&self) -> (faulted: Option<DeviceError>)
        ensures
            exists|code: u8| faulted == fault_of(code),
    {
        let code = self.latched.load(Ordering::Acquire);
        decoded(code)
    }
}

} // verus!
