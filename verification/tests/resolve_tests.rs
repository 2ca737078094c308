use lrctool::TimedRecord;
use lrctool::parse_lrc;
use lrctool::resolve_durations;

fn record(start_ms: u32) -> TimedRecord {
    TimedRecord {
        timestamp_text: String::from("00:00:00.000"),
        speaker: String::from("s"),
        text: String::from("t"),
        start_ms,
        end_ms: None,
    }
}

#[test]
fn resolve_three_records() {
    let mut recs = vec![record(1000), record(5000), record(9000)];
    resolve_durations(&mut recs);
    assert_eq!(recs[0].end_ms, Some(5000));
    assert_eq!(recs[1].end_ms, Some(9000));
    assert_eq!(recs[2].end_ms, Some(12000));
}

#[test]
fn resolve_single_record() {
    let mut recs = vec![record(2000)];
    resolve_durations(&mut recs);
    assert_eq!(recs[0].end_ms, Some(5000));
}

#[test]
fn resolve_empty_sequence() {
    let mut recs: Vec<TimedRecord> = Vec::new();
    resolve_durations(&mut recs);
    assert!(recs.is_empty());
}

#[test]
fn resolve_keeps_other_fields() {
    let mut recs = vec![record(1000), record(4000)];
    recs[0].speaker = String::from("Alice");
    recs[0].text = String::from("Hello");
    resolve_durations(&mut recs);
    assert_eq!(recs[0].speaker, "Alice");
    assert_eq!(recs[0].text, "Hello");
    assert_eq!(recs[0].start_ms, 1000);
    assert_eq!(recs[0].end_ms, Some(4000));
}

#[test]
fn resolve_non_monotonic_passes_through() {
    // Out-of-order starts are not corrected: the first end precedes its start.
    let mut recs = vec![record(5000), record(1000)];
    resolve_durations(&mut recs);
    assert_eq!(recs[0].end_ms, Some(1000));
    assert_eq!(recs[1].end_ms, Some(4000));
}

#[test]
fn resolve_equal_starts_zero_length_interval() {
    let mut recs = vec![record(1000), record(1000)];
    resolve_durations(&mut recs);
    assert_eq!(recs[0].end_ms, Some(1000));
    assert_eq!(recs[1].end_ms, Some(4000));
}

#[test]
fn parse_lrc_resolves_durations() {
    let input = "[00:00:01.000]a\tx\n[00:00:05.000]b\ty\n[00:00:09.000]c\tz";
    let recs = parse_lrc(input);
    assert_eq!(recs.len(), 3);
    assert_eq!(recs[0].start_ms, 1000);
    assert_eq!(recs[0].end_ms, Some(5000));
    assert_eq!(recs[1].end_ms, Some(9000));
    assert_eq!(recs[2].end_ms, Some(12000));
}
