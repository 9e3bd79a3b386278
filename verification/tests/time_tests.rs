use yagsdb::time::{advance_timestamp_by_one_sec, instant_of, parse_instant};

#[test]
fn advance_by_one_second() {
    assert_eq!(advance_timestamp_by_one_sec("2024-01-01T00:00:00Z").unwrap(), "2024-01-01T00:00:01Z");
    assert_eq!(advance_timestamp_by_one_sec("2023-12-31T23:59:59Z").unwrap(), "2024-01-01T00:00:00Z");
    assert_eq!(advance_timestamp_by_one_sec("garbage").unwrap(), "garbage");
}

#[test]
fn instants() {
    assert_eq!(instant_of(1, 5), 1_000_000_005);
    assert_eq!(instant_of(-1, 0), -1_000_000_000);
    assert_eq!(parse_instant("1970-01-01T00:00:01.25Z"), Some(1_250_000_000));
    assert_eq!(parse_instant("x"), None);
}

#[test]
fn optional_timestamps_parse_to_utc() {
    assert_eq!(yagsdb::time::parse_rfc3339(None), None);
    assert_eq!(yagsdb::time::parse_rfc3339(Some("nope")), None);
    assert_eq!(yagsdb::time::parse_rfc3339(Some("1970-01-01T01:00:02.5+01:00")), Some((2, 500_000_000)));
}

#[test]
fn advance_at_the_end_of_four_digit_years() {
    assert_eq!(
        advance_timestamp_by_one_sec("9999-12-31T23:59:59+23:59").unwrap(),
        "+10000-01-01T00:00:00+23:59"
    );
    assert_eq!(
        advance_timestamp_by_one_sec("0000-01-01T00:00:00-23:59").unwrap(),
        "0000-01-01T00:00:01-23:59"
    );
}

#[test]
fn utc_times_are_written_with_whole_seconds() {
    assert_eq!(yagsdb::time::utc_rfc3339_secs(0, 0).unwrap(), "1970-01-01T00:00:00Z");
    assert_eq!(yagsdb::time::utc_rfc3339_secs(1_704_067_199, 999_999_999).unwrap(), "2023-12-31T23:59:59Z");
    assert_eq!(yagsdb::time::utc_rfc3339_secs(8_210_266_876_800, 0), None);
}
