//! A profiling session's configuration and the decisions taken when it
//! starts: which weight it reads, and that only one session runs at a time.
use vstd::prelude::*;

use crate::WeightUnit;

verus! {

/// Why a session did not start.
#[derive(Copy, Clone, Debug, PartialEq, Eq, Structural)]
pub enum ProfileError {
    /// The tick source could not be installed.
    RegisterError,
    /// Fuel weights were asked of a store that does not account fuel.
    ConfigurationError,
    /// Another session is running in this process.
    SessionActive,
}

/// How a session reads its absolute weight.
#[derive(Copy, Clone, Debug, PartialEq, Eq, Structural)]
pub enum WeightSource {
    /// Nanoseconds elapsed since the tick source started.
    Elapsed,
    /// Fuel consumed since the session started with `initial` fuel.
    Fuel { initial: u64 },
}

/// The weight source of a session in `unit`, given the fuel that the store
/// holds when the session starts (`None` when it does not account fuel).
pub fn weight_source(unit: WeightUnit, fuel: Option<u64>) -> (r: Result<WeightSource, ProfileError>)
    ensures
        r == (match unit {
            WeightUnit::Nanoseconds => Ok(WeightSource::Elapsed),
            WeightUnit::Fuel => match fuel {
                Some(f) => Ok(WeightSource::Fuel { initial: f }),
                None => Err(ProfileError::ConfigurationError),
            },
        }),
{
    match unit {
        WeightUnit::Nanoseconds => Ok(WeightSource::Elapsed),
        WeightUnit::Fuel => match fuel {
            Some(f) => Ok(WeightSource::Fuel { initial: f }),
            None => Err(ProfileError::ConfigurationError),
        },
    }
}

/// The absolute fuel reading: the fuel consumed since the session started
/// with `initial`, or 0 when the store now holds at least as much.
pub fn fuel_reading(initial: u64, current: u64) -> (r: u128)
    ensures
        r == if initial >= current {
            initial - current
        } else {
            0
        },
{
    initial.saturating_sub(current) as u128
}

/// Whether a session runs in this process.
pub struct SessionSlot {
    active: bool,
}

impl SessionSlot {
    pub closed spec fn spec_active(&self) -> bool {
        self.active
    }

    /// A slot with no session.
    pub fn new() -> (r: SessionSlot)
        ensures
            !r.spec_active(),
    {
        SessionSlot { active: false }
    }

    /// Takes the slot for a new session; refused while another runs.
    pub fn acquire(&mut self) -> (r: Result<(), ProfileError>)
        ensures
            old(self).spec_active() ==> r == Err::<(), ProfileError>(ProfileError::SessionActive),
            !old(self).spec_active() ==> r == Ok::<(), ProfileError>(()),
            final(self).spec_active(),
    {
        if self.active {
            Err(ProfileError::SessionActive)
        } else {
            self.active = true;
            Ok(())
        }
    }

    /// Frees the slot when a session ends.
    pub fn release(&mut self)
        ensures
            !final(self).spec_active(),
    {
        self.active = false;
    }
}

/// The frequency a profiler samples at unless told otherwise, in Hz.
pub const DEFAULT_FREQUENCY: u32 = 1000;

/// A builder for the profiler over a store `S`. It sets the frequency at
/// which the profiler samples the stack, the weight unit, and the path of the
/// guest binary.
#[verifier::reject_recursive_types(S)]
pub struct ProfilerBuilder<S> {
    frequency: u32,
    weight_unit: WeightUnit,
    store: S,
    binary_path: Option<String>,
}

impl<S> ProfilerBuilder<S> {
    pub closed spec fn spec_frequency(&self) -> u32 {
        self.frequency
    }

    pub closed spec fn spec_weight_unit(&self) -> WeightUnit {
        self.weight_unit
    }

    pub closed spec fn spec_store(&self) -> S {
        self.store
    }

    pub closed spec fn spec_binary_path(&self) -> Option<String> {
        self.binary_path
    }

    /// A builder at 1000 Hz that weighs samples in nanoseconds.
    pub fn new(store: S) -> (r: ProfilerBuilder<S>)
        ensures
            r.spec_frequency() == DEFAULT_FREQUENCY,
            r.spec_weight_unit() == WeightUnit::Nanoseconds,
            r.spec_store() == store,
            r.spec_binary_path() is None,
    {
        ProfilerBuilder {
            frequency: DEFAULT_FREQUENCY,
            weight_unit: WeightUnit::Nanoseconds,
            store,
            binary_path: None,
        }
    }

    /// Sets the frequency in Hz at which the profiler samples the stack.
    pub fn frequency(self, frequency: u32) -> (r: ProfilerBuilder<S>)
        ensures
            r.spec_frequency() == frequency,
            r.spec_weight_unit() == self.spec_weight_unit(),
            r.spec_store() == self.spec_store(),
            r.spec_binary_path() == self.spec_binary_path(),
    {
        ProfilerBuilder { frequency, ..self }
    }

    /// Sets the unit in which samples are weighed.
    pub fn weight_unit(self, weight_unit: WeightUnit) -> (r: ProfilerBuilder<S>)
        ensures
            r.spec_frequency() == self.spec_frequency(),
            r.spec_weight_unit() == weight_unit,
            r.spec_store() == self.spec_store(),
            r.spec_binary_path() == self.spec_binary_path(),
    {
        ProfilerBuilder { weight_unit, ..self }
    }

    /// Sets the path of the guest binary.
    pub fn binary_path(self, path: String) -> (r: ProfilerBuilder<S>)
        ensures
            r.spec_frequency() == self.spec_frequency(),
            r.spec_weight_unit() == self.spec_weight_unit(),
            r.spec_store() == self.spec_store(),
            r.spec_binary_path() == Some(path),
    {
        ProfilerBuilder { binary_path: Some(path), ..self }
    }

    pub fn get_frequency(&self) -> (r: u32)
        ensures
            r == self.spec_frequency(),
    {
        self.frequency
    }

    pub fn get_weight_unit(&self) -> (r: WeightUnit)
        ensures
            r == self.spec_weight_unit(),
    {
        self.weight_unit
    }

    /// The store and the settings, for running a session.
    pub fn into_parts(self) -> (r: (S, u32, WeightUnit, Option<String>))
        ensures
            r == (self.spec_store(), self.spec_frequency(), self.spec_weight_unit(), self.spec_binary_path()),
    {
        (self.store, self.frequency, self.weight_unit, self.binary_path)
    }
}

} // verus!
