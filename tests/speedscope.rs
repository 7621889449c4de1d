use wasmprof::speedscope::{EventType, SCHEMA_URL};
use wasmprof::{FrameData, ProfileData, SpeedscopeFile, WeightUnit};

fn frame(name: &str) -> FrameData {
    FrameData::from_parts(Some(name), None, 0, None, None, None, None, None)
}

fn two_sample_profile(unit: WeightUnit) -> ProfileData {
    ProfileData::new(
        vec![frame("fib"), frame("fib2"), frame("main")],
        vec![vec![0, 2], vec![1, 0, 2]],
        Some(vec![5, 3]),
        unit,
        None,
    )
}

#[test]
fn document_header() {
    let p = two_sample_profile(WeightUnit::Nanoseconds);
    let doc = p.to_speedscope(Some("run".to_string()));
    assert_eq!(doc.schema, SCHEMA_URL);
    assert_eq!(doc.schema, "https://www.speedscope.app/file-format-schema.json");
    assert_eq!(doc.exporter, "wasmprof");
    assert_eq!(doc.active_profile_index, 0);
    assert_eq!(doc.name, Some("run".to_string()));
    assert_eq!(doc.profiles.len(), 1);
    let prof = &doc.profiles[0];
    assert_eq!(prof.profile_type, "evented");
    assert_eq!(prof.name, "CPU");
    assert_eq!(prof.unit, "nanoseconds");
    assert_eq!(prof.start_value, 0);
    assert_eq!(prof.end_value, 8);
}

#[test]
fn fuel_unit_name() {
    let p = two_sample_profile(WeightUnit::Fuel);
    let doc = SpeedscopeFile::new(&p, None);
    assert_eq!(doc.profiles[0].unit, "fuel");
    assert_eq!(doc.name, None);
}

#[test]
fn events_open_root_first_and_close_leaf_first() {
    let p = two_sample_profile(WeightUnit::Nanoseconds);
    let doc = p.to_speedscope(None);
    let got: Vec<(EventType, usize, u128)> =
        doc.profiles[0].events.iter().map(|e| (e.event_type, e.frame, e.at)).collect();
    let want = vec![
        (EventType::Open, 2, 0),
        (EventType::Open, 0, 0),
        (EventType::Close, 0, 5),
        (EventType::Close, 2, 5),
        (EventType::Open, 2, 5),
        (EventType::Open, 0, 5),
        (EventType::Open, 1, 5),
        (EventType::Close, 1, 8),
        (EventType::Close, 0, 8),
        (EventType::Close, 2, 8),
    ];
    assert_eq!(got, want);
}

#[test]
fn event_timestamps_never_decrease() {
    let p = ProfileData::new(
        vec![frame("a"), frame("b")],
        vec![vec![0], vec![1, 0], vec![0], vec![1]],
        Some(vec![0, 9, 1, 4]),
        WeightUnit::Nanoseconds,
        None,
    );
    let doc = p.to_speedscope(None);
    let events = &doc.profiles[0].events;
    for w in events.windows(2) {
        assert!(w[0].at <= w[1].at);
    }
    assert_eq!(doc.profiles[0].end_value, 14);
}

#[test]
fn shared_frames_follow_the_table() {
    let with_file = FrameData::from_parts(
        Some("f"),
        Some("m".to_string()),
        3,
        Some(4),
        Some(40),
        Some("f.rs".to_string()),
        Some(10),
        Some(2),
    );
    let module_only = FrameData::from_parts(Some("g"), Some("m".to_string()), 5, None, None, None, None, None);
    let p = ProfileData::new(vec![with_file, module_only], vec![vec![0, 1]], Some(vec![1]), WeightUnit::Fuel, None);
    let doc = p.to_speedscope(None);
    let f = &doc.shared.frames;
    assert_eq!(f.len(), 2);
    assert_eq!(f[0].name, "f");
    assert_eq!(f[0].file, Some("f.rs".to_string()));
    assert_eq!(f[0].line, Some(10));
    assert_eq!(f[0].col, Some(2));
    assert_eq!(f[0].module, Some("m".to_string()));
    assert_eq!(f[0].func_index, Some(3));
    assert_eq!(f[0].func_offset, Some(4));
    assert_eq!(f[0].module_offset, Some(40));
    assert_eq!(f[1].name, "g");
    assert_eq!(f[1].file, Some("m".to_string()));
    assert_eq!(f[1].func_index, Some(5));
}

#[test]
fn profile_without_weights_has_no_events() {
    let p = ProfileData::new(vec![frame("a")], vec![vec![0]], None, WeightUnit::Nanoseconds, None);
    let doc = p.to_speedscope(None);
    assert!(doc.profiles[0].events.is_empty());
    assert_eq!(doc.profiles[0].end_value, 0);
}
