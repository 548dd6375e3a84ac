use whisper_plus::segment::{RawSegment, SubtitleEntry, MAX_CENTISECONDS};

#[test]
fn centiseconds_become_milliseconds() {
    let seg = RawSegment::from_centiseconds(12, 345, "hi".to_string()).unwrap();
    assert_eq!(seg, RawSegment { start_ms: 120, end_ms: 3450, text: "hi".to_string() });
}

#[test]
fn empty_span_is_a_span() {
    let seg = RawSegment::from_centiseconds(0, 0, String::new()).unwrap();
    assert_eq!((seg.start_ms, seg.end_ms), (0, 0));
}

#[test]
fn timestamps_that_describe_no_span_are_refused() {
    assert_eq!(RawSegment::from_centiseconds(-1, 5, "x".to_string()), None);
    assert_eq!(RawSegment::from_centiseconds(6, 5, "x".to_string()), None);
    assert_eq!(RawSegment::from_centiseconds(0, MAX_CENTISECONDS + 1, "x".to_string()), None);
    assert_eq!(RawSegment::from_centiseconds(i64::MIN, i64::MAX, "x".to_string()), None);
}

#[test]
fn largest_timestamp_is_accepted() {
    let seg = RawSegment::from_centiseconds(0, MAX_CENTISECONDS, "x".to_string()).unwrap();
    assert_eq!(seg.end_ms, 9_223_372_036_854_775_800);
}

#[test]
fn duration_is_zero_for_a_reversed_span() {
    assert_eq!(RawSegment { start_ms: 10, end_ms: 25, text: String::new() }.duration_ms(), 15);
    assert_eq!(RawSegment { start_ms: 25, end_ms: 10, text: String::new() }.duration_ms(), 0);
    assert_eq!(SubtitleEntry { start_ms: 10, end_ms: 25, text: String::new() }.duration_ms(), 15);
    assert_eq!(SubtitleEntry { start_ms: 25, end_ms: 10, text: String::new() }.duration_ms(), 0);
}
