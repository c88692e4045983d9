use crucible::profiler::millis_from_nanos;
use crucible::profiler::{export_speedscope, Frame, GasProfiler, Profile, Sample};

#[test]
fn test_export_speedscope_produces_valid_json() {
    let mut profile = Profile::new();
    profile.add_sample(Sample::new(vec![Frame::new("foo", "bar")], 50, 512));
    let json = export_speedscope(&profile);
    assert!(json.contains("Crucible Gas Profile"));
    assert!(json.contains("foo"));
}

#[test]
fn speedscope_numbers_each_distinct_frame_once() {
    let mut profile = Profile::new();
    profile.add_sample(Sample::new(
        vec![Frame::new("a", "f"), Frame::new("b", "g")],
        10,
        0,
    ));
    profile.add_sample(Sample::new(vec![Frame::new("a", "f")], 5, 0));
    let json = export_speedscope(&profile);
    assert_eq!(json.matches("{\"name\": \"a\"").count(), 1);
    assert_eq!(json.matches("{\"name\": \"b\"").count(), 1);
    assert_eq!(profile.total_cost(), 15);
}

#[test]
fn profile_totals_add_up_samples() {
    let mut profile = Profile::new();
    profile.add_sample(Sample::new(vec![], 7, 100));
    profile.add_sample(Sample::new(vec![], 8, 28));
    assert_eq!(profile.total_cost(), 15);
    assert_eq!(profile.total_memory_bytes(), 128);
}

#[test]
fn profiler_records_only_while_active() {
    let mut profiler = GasProfiler::new();
    assert!(!profiler.is_active());
    profiler.start();
    assert!(profiler.is_active());
    profiler.stop();
    assert!(!profiler.is_active());
}

#[test]
fn clock_readings_become_whole_milliseconds() {
    assert_eq!(millis_from_nanos(Some(1_700_000_000_123_456_789)), 1_700_000_000_123);
    assert_eq!(millis_from_nanos(Some(999_999)), 0);
    assert_eq!(millis_from_nanos(None), 0);
}
