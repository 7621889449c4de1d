use wasmprof::session::{fuel_reading, weight_source};
use wasmprof::{ProfileError, ProfilerBuilder, SessionSlot, WeightSource, WeightUnit};

#[test]
fn fuel_mode_without_fuel_is_a_configuration_error() {
    assert_eq!(weight_source(WeightUnit::Fuel, None), Err(ProfileError::ConfigurationError));
    assert_eq!(weight_source(WeightUnit::Fuel, Some(500)), Ok(WeightSource::Fuel { initial: 500 }));
    assert_eq!(weight_source(WeightUnit::Nanoseconds, None), Ok(WeightSource::Elapsed));
}

#[test]
fn fuel_reading_is_fuel_consumed() {
    assert_eq!(fuel_reading(1_000, 400), 600);
    assert_eq!(fuel_reading(1_000, 1_000), 0);
    assert_eq!(fuel_reading(10, 50), 0);
    assert_eq!(fuel_reading(u64::MAX, 0), u64::MAX as u128);
}

#[test]
fn sessions_run_one_at_a_time() {
    let mut slot = SessionSlot::new();
    assert_eq!(slot.acquire(), Ok(()));
    assert_eq!(slot.acquire(), Err(ProfileError::SessionActive));
    slot.release();
    assert_eq!(slot.acquire(), Ok(()));
    slot.release();
}

#[test]
fn builder_defaults_and_settings() {
    let b = ProfilerBuilder::new(7u8);
    assert_eq!(b.get_frequency(), 1000);
    assert_eq!(b.get_weight_unit(), WeightUnit::Nanoseconds);
    let b = b.frequency(100).weight_unit(WeightUnit::Fuel).binary_path("g.wasm".to_string());
    let (store, frequency, unit, path) = b.into_parts();
    assert_eq!(store, 7);
    assert_eq!(frequency, 100);
    assert_eq!(unit, WeightUnit::Fuel);
    assert_eq!(path, Some("g.wasm".to_string()));
}
