use whisper_notes::decimal::{parse_number, push_padded};
use whisper_notes::timestamp::format_timestamp;

#[test]
fn timestamps() {
    assert_eq!(format_timestamp(0), "00:00:00,000");
    assert_eq!(format_timestamp(1_234), "00:00:01,234");
    assert_eq!(format_timestamp(5_678), "00:00:05,678");
    assert_eq!(format_timestamp(59_999), "00:00:59,999");
    assert_eq!(format_timestamp(60_000), "00:01:00,000");
    assert_eq!(format_timestamp(3_599_999), "00:59:59,999");
    assert_eq!(format_timestamp(3_661_007), "01:01:01,007");
    assert_eq!(format_timestamp(359_999_999), "99:59:59,999");
    assert_eq!(format_timestamp(360_000_000), "100:00:00,000");
    assert_eq!(format_timestamp(36_000_061_002), "10000:01:01,002");
}

#[test]
fn the_longest_duration() {
    let ms = std::time::Duration::MAX.as_millis();
    let secs = ms / 1000;
    let expected = format!(
        "{:02}:{:02}:{:02},{:03}",
        secs / 3600,
        secs / 60 % 60,
        secs % 60,
        ms % 1000
    );
    assert_eq!(format_timestamp(ms), expected);
}

#[test]
fn different_times_have_different_timestamps() {
    let mut seen: Vec<String> = (0..2_000u128).map(|i| format_timestamp(i * 977)).collect();
    seen.sort();
    seen.dedup();
    assert_eq!(seen.len(), 2_000);
}

#[test]
fn padded_numbers() {
    for (n, width) in [(0u128, 2usize), (7, 3), (10, 2), (123, 2), (99, 3), (5, 0), (u128::MAX, 3)] {
        let mut out = "x".to_string();
        push_padded(&mut out, n, width);
        assert_eq!(out, format!("x{:0width$}", n, width = width));
    }
}

#[test]
fn numbers_are_read_as_the_standard_library_reads_them() {
    for s in [
        "", "+", "-", "0", "+0", "-0", "007", "+200", "200", "2000", " 1", "1 ", "1.5", "1e3", "++1",
        "18446744073709551615", "18446744073709551616", "+18446744073709551615",
        "00000000000000000000000000000042", "99999999999999999999999", "\u{661}", "12a",
    ] {
        assert_eq!(parse_number(s), s.parse::<u64>().ok(), "{:?}", s);
    }
}
