use lrctool::ms_to_ass_time;
use lrctool::ms_to_srt_time;
use lrctool::parse_time_fields;

#[test]
fn parse_time_fields_formula() {
    assert_eq!(parse_time_fields(0, 0, 0, 0), 0);
    assert_eq!(parse_time_fields(0, 0, 1, 50), 1500);
    assert_eq!(parse_time_fields(1, 2, 3, 4), 3723040);
    assert_eq!(parse_time_fields(99, 99, 99, 99), 362_439_990);
}

#[test]
fn parse_time_fields_no_range_validation() {
    // 99 hours and 99 minutes are simply worth their formula value.
    assert_eq!(parse_time_fields(99, 0, 0, 0), 99 * 3_600_000);
    assert_eq!(parse_time_fields(0, 99, 0, 0), 99 * 60_000);
}

#[test]
fn parse_time_fields_injective_examples() {
    let a = parse_time_fields(0, 59, 59, 99);
    let b = parse_time_fields(1, 0, 0, 0);
    assert_ne!(a, b);
    assert_eq!(a + 10, b);
}

#[test]
fn srt_time_format() {
    assert_eq!(ms_to_srt_time(0), "00:00:00,000");
    assert_eq!(ms_to_srt_time(1500), "00:00:01,500");
    assert_eq!(ms_to_srt_time(3723040), "01:02:03,040");
    assert_eq!(ms_to_srt_time(45_296_789), "12:34:56,789");
}

#[test]
fn srt_time_hours_exceed_24_unwrapped() {
    assert_eq!(ms_to_srt_time(90_000_000), "25:00:00,000");
    assert_eq!(ms_to_srt_time(360_000_000), "100:00:00,000");
}

#[test]
fn srt_time_round_trip() {
    for &ms in &[
        0u32,
        1,
        999,
        1000,
        1500,
        59_999,
        60_000,
        3_599_999,
        3_600_000,
        45_296_789,
        86_399_999,
    ] {
        let t = ms_to_srt_time(ms);
        let hours: u32 = t[0..2].parse().unwrap();
        let minutes: u32 = t[3..5].parse().unwrap();
        let seconds: u32 = t[6..8].parse().unwrap();
        let millis: u32 = t[9..12].parse().unwrap();
        assert_eq!(hours * 3_600_000 + minutes * 60_000 + seconds * 1000 + millis, ms);
    }
}

#[test]
fn ass_time_format() {
    assert_eq!(ms_to_ass_time(0), "0:00:00.00");
    assert_eq!(ms_to_ass_time(1500), "0:00:01.50");
    assert_eq!(ms_to_ass_time(3723040), "1:02:03.04");
    assert_eq!(ms_to_ass_time(45_296_789), "12:34:56.78");
}

#[test]
fn ass_time_hour_unpadded() {
    let t = ms_to_ass_time(3_600_000);
    assert_eq!(t, "1:00:00.00");
    assert!(t.starts_with("1:"));
    assert!(!t.starts_with("01:"));
}

#[test]
fn ass_time_centiseconds_truncate() {
    assert_eq!(ms_to_ass_time(1999), "0:00:01.99");
    assert_eq!(ms_to_ass_time(1001), "0:00:01.00");
}
