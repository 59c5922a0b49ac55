use vstd::prelude::*;

pub mod analysis;
pub mod audio;
pub mod device;
pub mod fixtures;
pub mod looper;
pub mod time;

verus! {
} // verus!
