use timeit::codec::format_timestamp;
use timeit::codec::parse_timestamp;
use timeit::timestamp::Timestamp;

fn ts(
    year: u32,
    month: u32,
    day: u32,
    hour: u32,
    minute: u32,
    second: u32,
    offset_minutes: i32,
) -> Timestamp {
    Timestamp { year, month, day, hour, minute, second, offset_minutes }
}

#[test]
fn parse_then_format_is_byte_identical() {
    let raw = b"2024-10-12 09:00:00 +0200";
    let parsed = parse_timestamp(raw).expect("canonical timestamp must parse");
    assert_eq!(parsed, ts(2024, 10, 12, 9, 0, 0, 120));
    let written = format_timestamp(&parsed);
    assert_eq!(written.as_slice(), raw.as_slice());
}

#[test]
fn format_then_parse_returns_the_timestamp() {
    let t = ts(1999, 12, 31, 23, 59, 59, -300);
    let written = format_timestamp(&t);
    assert_eq!(written.as_slice(), b"1999-12-31 23:59:59 -0500".as_slice());
    let back = parse_timestamp(&written).expect("own encoding must parse");
    assert_eq!(back, t);
}

#[test]
fn negative_offset_round_trips() {
    let raw = b"2020-06-01 12:30:00 -0930";
    let parsed = parse_timestamp(raw).expect("negative offset must parse");
    assert_eq!(parsed.offset_minutes, -(9 * 60 + 30));
    assert_eq!(format_timestamp(&parsed).as_slice(), raw.as_slice());
}

#[test]
fn parse_rejects_wrong_length() {
    assert_eq!(parse_timestamp(b"2024-10-12 09:00:00"), None);
    assert_eq!(parse_timestamp(b""), None);
    assert_eq!(parse_timestamp(b"2024-10-12 09:00:00 +02000"), None);
}

#[test]
fn parse_rejects_bad_fields() {
    assert_eq!(parse_timestamp(b"2024-13-01 09:00:00 +0200"), None);
    assert_eq!(parse_timestamp(b"2024-00-01 09:00:00 +0200"), None);
    assert_eq!(parse_timestamp(b"2024-10-32 09:00:00 +0200"), None);
    assert_eq!(parse_timestamp(b"2024-10-12 24:00:00 +0200"), None);
    assert_eq!(parse_timestamp(b"2024-10-12 09:60:00 +0200"), None);
    assert_eq!(parse_timestamp(b"2024-10-12 09:00:60 +0200"), None);
    assert_eq!(parse_timestamp(b"0000-10-12 09:00:00 +0200"), None);
}

#[test]
fn parse_rejects_bad_shape() {
    assert_eq!(parse_timestamp(b"2024/10/12 09:00:00 +0200"), None);
    assert_eq!(parse_timestamp(b"2024-10-12T09:00:00 +0200"), None);
    assert_eq!(parse_timestamp(b"2024-10-12 09.00.00 +0200"), None);
    assert_eq!(parse_timestamp(b"2024-10-12 09:00:00 *0200"), None);
    assert_eq!(parse_timestamp(b"2o24-10-12 09:00:00 +0200"), None);
}

#[test]
fn parse_rejects_non_canonical_offsets() {
    assert_eq!(parse_timestamp(b"2024-10-12 09:00:00 -0000"), None);
    assert_eq!(parse_timestamp(b"2024-10-12 09:00:00 +2400"), None);
    assert_eq!(parse_timestamp(b"2024-10-12 09:00:00 +0260"), None);
    assert!(parse_timestamp(b"2024-10-12 09:00:00 +0000").is_some());
    assert!(parse_timestamp(b"2024-10-12 09:00:00 +2359").is_some());
}

#[test]
fn parse_knows_leap_years() {
    assert!(parse_timestamp(b"2024-02-29 00:00:00 +0100").is_some());
    assert_eq!(parse_timestamp(b"2023-02-29 00:00:00 +0100"), None);
    assert!(parse_timestamp(b"2000-02-29 00:00:00 +0100").is_some());
    assert_eq!(parse_timestamp(b"1900-02-29 00:00:00 +0100"), None);
    assert_eq!(parse_timestamp(b"2023-04-31 00:00:00 +0100"), None);
}

#[test]
fn instant_accounts_for_the_offset() {
    let utc = ts(2024, 10, 12, 7, 0, 0, 0);
    let berlin = ts(2024, 10, 12, 9, 0, 0, 120);
    assert_eq!(utc.instant_seconds(), berlin.instant_seconds());
    let later = ts(2024, 10, 12, 9, 0, 1, 120);
    assert_eq!(later.instant_seconds(), berlin.instant_seconds() + 1);
}

#[test]
fn instant_spans_midnight_and_months() {
    let before = ts(2024, 2, 29, 23, 59, 59, 60);
    let after = ts(2024, 3, 1, 0, 0, 0, 60);
    assert_eq!(after.instant_seconds() - before.instant_seconds(), 1);
}
