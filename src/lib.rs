//! A sampling profiler's data model for guest code running in a WebAssembly
//! virtual machine: weighted samples are collected, interned into
//! [`ProfileData`], and exported as collapsed stacks or a Speedscope document.
use vstd::prelude::*;

pub mod collapsed_stack;
pub mod collector;
pub mod profile_data;
pub mod session;
pub mod speedscope;
pub mod text;
pub mod ticker;

pub use collapsed_stack::{CollapsedStack, CollapsedStacks};
pub use collector::{RawSample, SampleBuffer};
pub use profile_data::{AddressType, FrameData, ProfileData};
pub use session::{ProfileError, ProfilerBuilder, SessionSlot, WeightSource};
pub use speedscope::{Frame, Profile, SpeedscopeFile};
pub use ticker::{ReportTiming, Ticker};

verus! {

/// The unit in which sample weights are measured: wall-clock nanoseconds
/// elapsed between samples, or fuel consumed by the guest between samples.
#[derive(Copy, Clone, Debug, PartialEq, Eq, Structural)]
pub enum WeightUnit {
    Nanoseconds,
    Fuel,
}

} // verus!
