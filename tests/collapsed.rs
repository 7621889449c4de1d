use wasmprof::{CollapsedStacks, FrameData, ProfileData, WeightUnit};

fn frame(name: &str) -> FrameData {
    FrameData::from_parts(Some(name), None, 0, None, None, None, None, None)
}

#[test]
fn single_synthetic_sample_is_root_first() {
    let frames = vec!["L".to_string(), "M".to_string(), "R".to_string()];
    let stacks = CollapsedStacks::new(frames, vec![vec![0, 1, 2]], Some(vec![7]));
    assert_eq!(stacks.to_string(), "R;M;L 7\n");
}

#[test]
fn equal_stacks_are_not_merged() {
    let frames = vec!["a".to_string(), "b".to_string()];
    let stacks = CollapsedStacks::new(frames, vec![vec![0, 1], vec![0, 1], vec![1]], Some(vec![3, 4, 5]));
    assert_eq!(stacks.to_string(), "b;a 3\nb;a 4\nb 5\n");
}

#[test]
fn missing_weights_count_one_each() {
    let frames = vec!["f".to_string()];
    let stacks = CollapsedStacks::new(frames, vec![vec![0], vec![0]], None);
    assert_eq!(stacks.to_string(), "f 1\nf 1\n");
}

#[test]
fn no_samples_give_empty_text() {
    let stacks = CollapsedStacks::new(vec![], vec![], Some(vec![]));
    assert_eq!(stacks.to_string(), "");
}

#[test]
fn largest_weight_is_written_in_full() {
    let frames = vec!["f".to_string()];
    let stacks = CollapsedStacks::new(frames, vec![vec![0]], Some(vec![u128::MAX]));
    assert_eq!(stacks.to_string(), "f 340282366920938463463374607431768211455\n");
}

#[test]
fn profile_into_collapsed_stacks() {
    let p = ProfileData::new(
        vec![frame("leaf"), frame("main")],
        vec![vec![0, 1], vec![1]],
        Some(vec![10, 20]),
        WeightUnit::Nanoseconds,
        None,
    );
    assert_eq!(p.into_collapsed_stacks().to_string(), "main;leaf 10\nmain 20\n");
}

#[test]
fn round_trip_is_byte_identical() {
    let frames = vec!["leaf".to_string(), "mid dle".to_string(), "root".to_string(), "x;y".to_string()];
    let stacks = CollapsedStacks::new(
        frames,
        vec![vec![0, 1, 2], vec![3, 2], vec![]],
        Some(vec![7, 0, 12345678901234567890]),
    );
    let text = stacks.to_string();
    let back = CollapsedStacks::parse(&text).unwrap();
    assert_eq!(back.to_string(), text);
}

#[test]
fn parse_reads_stacks_innermost_first() {
    let back = CollapsedStacks::parse("R;M;L 7\n").unwrap();
    let again = CollapsedStacks::new(vec!["L".to_string(), "M".to_string(), "R".to_string()], vec![vec![0, 1, 2]], Some(vec![7]));
    assert_eq!(back.to_string(), again.to_string());
}

#[test]
fn parse_accepts_missing_final_newline() {
    let back = CollapsedStacks::parse("a;b 3\nc 4").unwrap();
    assert_eq!(back.to_string(), "a;b 3\nc 4\n");
}

#[test]
fn parse_empty_text_has_no_stacks() {
    let back = CollapsedStacks::parse("").unwrap();
    assert_eq!(back.to_string(), "");
}

#[test]
fn parse_refuses_line_without_weight() {
    assert!(CollapsedStacks::parse("a;b\n").is_none());
    assert!(CollapsedStacks::parse("a;b \n").is_none());
    assert!(CollapsedStacks::parse("a;b x1\n").is_none());
    assert!(CollapsedStacks::parse("a 1\n\nb 2\n").is_none());
}

#[test]
fn parse_refuses_weight_over_u128() {
    assert!(CollapsedStacks::parse("f 340282366920938463463374607431768211456\n").is_none());
    assert!(CollapsedStacks::parse("f 340282366920938463463374607431768211455\n").is_some());
}

#[test]
fn parse_keeps_names_with_spaces_and_non_ascii() {
    let text = "main;Vec<T> as Clone::clone ünï 42\n";
    let back = CollapsedStacks::parse(text).unwrap();
    assert_eq!(back.to_string(), text);
}

#[test]
fn parse_normalises_leading_zeros() {
    let back = CollapsedStacks::parse("f 007\n").unwrap();
    assert_eq!(back.to_string(), "f 7\n");
}
