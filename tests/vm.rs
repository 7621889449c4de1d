use std::sync::{Arc, Mutex};
use std::time::Instant;

use wasmprof::session::{fuel_reading, weight_source};
use wasmprof::{FrameData, ProfileData, ProfileError, SampleBuffer, WeightSource, WeightUnit};
use wasmtime::{Config, Engine, FrameInfo, Instance, Module, Store, UpdateDeadline, WasmBacktrace};

const FIB: &str = r#"
(module
  (func $fib (export "fib") (param $n i32) (result i32)
    (if (result i32) (i32.lt_s (local.get $n) (i32.const 2))
      (then (local.get $n))
      (else
        (i32.add
          (call $fib (i32.sub (local.get $n) (i32.const 1)))
          (call $fib (i32.sub (local.get $n) (i32.const 2))))))))
"#;

const FIB_FIB2: &str = r#"
(module
  (export "fib" (func $fib))
  (func $fib (param $n i32) (result i32)
    (if (result i32) (i32.lt_s (local.get $n) (i32.const 2))
      (then (i32.const 1))
      (else
        (i32.add
          (call $fib (i32.sub (local.get $n) (i32.const 2)))
          (call $fib2 (i32.sub (local.get $n) (i32.const 1)))))))
  (func $fib2 (param $n i32) (result i32)
    (if (result i32) (i32.lt_s (local.get $n) (i32.const 2))
      (then (i32.const 1))
      (else
        (i32.add
          (call $fib2 (i32.sub (local.get $n) (i32.const 2)))
          (call $fib (i32.sub (local.get $n) (i32.const 1))))))))
"#;

fn frame_data(frame: &FrameInfo) -> FrameData {
    let symbol = frame.symbols().first();
    FrameData::from_parts(
        frame.func_name(),
        frame.module().name().map(str::to_string),
        frame.func_index(),
        frame.func_offset(),
        frame.module_offset(),
        symbol.and_then(|s| s.file()).map(String::from),
        symbol.and_then(|s| s.line()),
        symbol.and_then(|s| s.column()),
    )
}

/// Runs `fib(n)` with a sample at every epoch check, and returns the profile,
/// the last weight reading, and the fuel consumed when fuel is on.
fn run(wat: &str, unit: WeightUnit, with_fuel: bool, n: i32) -> Result<(ProfileData, u128, u64), ProfileError> {
    let mut config = Config::default();
    config.epoch_interruption(true);
    config.consume_fuel(with_fuel);
    let engine = Engine::new(&config).unwrap();
    let module = Module::new(&engine, wat).unwrap();
    let mut store = Store::new(&engine, ());
    if with_fuel {
        store.set_fuel(1_000_000_000).unwrap();
    }
    let source = weight_source(unit, store.get_fuel().ok())?;
    let initial = store.get_fuel().unwrap_or(0);
    let instance = Instance::new(&mut store, &module, &[]).unwrap();
    let fib = instance.get_typed_func::<i32, i32>(&mut store, "fib").unwrap();

    let buffer = Arc::new(Mutex::new(SampleBuffer::new()));
    let samples = Arc::clone(&buffer);
    let start = Instant::now();
    store.set_epoch_deadline(0);
    store.epoch_deadline_callback(move |context| {
        let reading = match source {
            WeightSource::Elapsed => start.elapsed().as_nanos(),
            WeightSource::Fuel { initial } => fuel_reading(initial, context.get_fuel()?),
        };
        let frames: Vec<FrameData> =
            WasmBacktrace::capture(&context).frames().iter().map(frame_data).collect();
        samples.lock().unwrap().record(frames, reading);
        Ok(UpdateDeadline::Continue(0))
    });
    fib.call(&mut store, n).unwrap();
    store.epoch_deadline_trap();
    let consumed = initial - store.get_fuel().unwrap_or(0);
    let collected = std::mem::replace(&mut *buffer.lock().unwrap(), SampleBuffer::new());
    let last = collected.last_weight();
    Ok((collected.into_profile(unit, None), last, consumed))
}

#[test]
fn fuel_session_samples_fib() {
    let (p, last, consumed) = run(FIB, WeightUnit::Fuel, true, 15).unwrap();
    assert!(!p.samples().is_empty());
    for s in p.samples() {
        assert_eq!(p.frames()[s[0]].name, "fib");
    }
    let total: u128 = p.weights().iter().sum();
    assert_eq!(total, last);
    assert!(last <= consumed as u128);
    assert!(last > 0);
}

#[test]
fn wall_time_session_sees_both_functions() {
    let (p, _, _) = run(FIB_FIB2, WeightUnit::Nanoseconds, false, 15).unwrap();
    let names: Vec<&str> = p.frames().iter().map(|f| f.name.as_str()).collect();
    assert!(names.contains(&"fib"));
    assert!(names.contains(&"fib2"));
    assert!(p.samples().iter().any(|s| s.len() >= 2));

    let doc = p.to_speedscope(None);
    assert_eq!(doc.schema, "https://www.speedscope.app/file-format-schema.json");
    assert_eq!(doc.profiles.len(), 1);
    assert_eq!(doc.profiles[0].profile_type, "evented");
    assert_eq!(doc.profiles[0].unit, "nanoseconds");
    assert_eq!(doc.profiles[0].start_value, 0);
    assert_eq!(doc.profiles[0].end_value, p.weights().iter().sum::<u128>());
}

#[test]
fn fuel_mode_on_store_without_fuel_is_refused() {
    assert!(matches!(run(FIB, WeightUnit::Fuel, false, 5), Err(ProfileError::ConfigurationError)));
}

#[test]
fn two_sessions_in_turn_are_independent() {
    let (a, _, _) = run(FIB, WeightUnit::Fuel, true, 10).unwrap();
    let (b, _, _) = run(FIB, WeightUnit::Fuel, true, 10).unwrap();
    assert!(!a.samples().is_empty());
    assert_eq!(a.samples().len(), b.samples().len());
    assert_eq!(a.weights(), b.weights());
}
