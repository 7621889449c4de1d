use wasmprof::{AddressType, FrameData, SampleBuffer, WeightUnit};

fn frame(name: &str) -> FrameData {
    FrameData::from_parts(Some(name), None, 0, None, None, None, None, None)
}

fn names(fs: &[FrameData]) -> Vec<String> {
    fs.iter().map(|f| f.name.clone()).collect()
}

#[test]
fn record_weighs_the_rise_of_the_reading() {
    let mut b = SampleBuffer::new();
    assert_eq!(b.last_weight(), 0);
    b.record(vec![frame("f")], 10);
    b.record(vec![frame("f")], 25);
    b.record(vec![frame("f")], 25);
    let w: Vec<u128> = b.samples().iter().map(|s| s.weight).collect();
    assert_eq!(w, vec![10, 15, 0]);
    assert_eq!(b.last_weight(), 25);
}

#[test]
fn reading_that_falls_weighs_zero() {
    let mut b = SampleBuffer::new();
    b.record(vec![frame("f")], 100);
    b.record(vec![frame("f")], 40);
    b.record(vec![frame("f")], 130);
    let w: Vec<u128> = b.samples().iter().map(|s| s.weight).collect();
    assert_eq!(w, vec![100, 0, 30]);
    assert_eq!(b.last_weight(), 130);
}

#[test]
fn interning_assigns_indices_on_first_sight() {
    let mut b = SampleBuffer::new();
    b.record(vec![frame("fib"), frame("fib"), frame("main")], 5);
    b.record(vec![frame("fib2"), frame("fib"), frame("main")], 9);
    let p = b.into_profile(WeightUnit::Nanoseconds, Some("guest.wasm".to_string()));
    assert_eq!(names(p.frames()), vec!["fib", "main", "fib2"]);
    assert_eq!(p.samples(), &[vec![0, 0, 1], vec![2, 0, 1]]);
    assert_eq!(p.weights(), &[5, 4]);
    assert_eq!(*p.weight_unit(), WeightUnit::Nanoseconds);
    assert_eq!(p.binary_path(), Some(&"guest.wasm".to_string()));
}

#[test]
fn every_index_names_a_frame() {
    let mut b = SampleBuffer::new();
    b.record(vec![frame("a"), frame("b")], 1);
    b.record(vec![frame("c")], 2);
    b.record(vec![frame("b"), frame("c"), frame("d")], 3);
    let p = b.into_profile(WeightUnit::Fuel, None);
    assert_eq!(p.samples().len(), p.weights().len());
    for s in p.samples() {
        for &i in s {
            assert!(i < p.frames().len());
        }
    }
    assert_eq!(names(p.frames()), vec!["a", "b", "c", "d"]);
}

#[test]
fn empty_backtraces_are_dropped() {
    let mut b = SampleBuffer::new();
    b.record(vec![frame("a")], 4);
    b.record(vec![], 6);
    b.record(vec![frame("a")], 10);
    let p = b.into_profile(WeightUnit::Nanoseconds, None);
    assert_eq!(p.samples().len(), 2);
    assert_eq!(p.weights(), &[4, 4]);
}

#[test]
fn all_empty_session_has_no_samples() {
    let mut b = SampleBuffer::new();
    b.record(vec![], 3);
    b.record(vec![], 8);
    let p = b.into_profile(WeightUnit::Nanoseconds, None);
    assert!(p.samples().is_empty());
    assert!(p.weights().is_empty());
    assert!(p.frames().is_empty());
}

#[test]
fn weights_add_up_to_the_last_reading() {
    let mut b = SampleBuffer::new();
    for r in [3u128, 7, 7, 20, 21] {
        b.record(vec![frame("f")], r);
    }
    let last = b.last_weight();
    let p = b.into_profile(WeightUnit::Fuel, None);
    assert_eq!(p.weights().iter().sum::<u128>(), last);
    assert_eq!(last, 21);
}

#[test]
fn first_frame_of_a_name_is_kept() {
    let first = FrameData::from_parts(Some("f"), Some("m".to_string()), 1, Some(8), None, None, None, None);
    let second = FrameData::from_parts(Some("f"), Some("n".to_string()), 2, None, None, None, None, None);
    let mut b = SampleBuffer::new();
    b.record(vec![first, second], 1);
    let p = b.into_profile(WeightUnit::Nanoseconds, None);
    assert_eq!(p.frames().len(), 1);
    assert_eq!(p.frames()[0].func_index, 1);
    assert_eq!(p.samples(), &[vec![0, 0]]);
}

#[test]
fn frame_without_name_is_unknown() {
    let f = FrameData::from_parts(None, None, 7, Some(3), Some(30), None, None, None);
    assert_eq!(f.name, "<unknown>");
    assert_eq!(f.address, Some(AddressType::ModuleOffset(30)));
    let g = FrameData::from_parts(Some("g"), None, 7, Some(3), None, None, None, None);
    assert_eq!(g.address, Some(AddressType::FuncOffset(3)));
    let h = FrameData::from_parts(Some("h"), None, 7, None, None, None, None, None);
    assert_eq!(h.address, None);
}

#[test]
fn frames_mut_edits_the_table() {
    let mut b = SampleBuffer::new();
    b.record(vec![frame("f")], 1);
    let mut p = b.into_profile(WeightUnit::Nanoseconds, None);
    p.frames_mut()[0].name = "renamed".to_string();
    assert_eq!(p.frames()[0].name, "renamed");
}
