use fbm::calendar::{civil_from_days, days_from_civil};
use fbm::clock::{clock_millis, now_ms, now_ms_std};
use fbm::time::{
    chromium_time_to_ms, fmt_ts, format_utc_millis, parse_rfc3339_utc_millis, parse_ts_millis,
    time_parts, time_path, utc_parts, TimeDepth,
};

#[test]
fn parses_ms_and_seconds_timestamps() {
    assert_eq!(parse_ts_millis(Some("1710000000000")), Some(1710000000000));
    assert_eq!(parse_ts_millis(Some("1710000000")), Some(1710000000000));
}

#[test]
fn timestamps_may_be_dates() {
    assert_eq!(parse_ts_millis(Some("2024-03-09T16:00:00Z")), Some(1710000000000));
    assert_eq!(parse_ts_millis(Some("2024-03-09T16:00:00.123Z")), Some(1710000000000));
    assert_eq!(parse_ts_millis(Some("2024-03-09T16:00:00")), None);
    assert_eq!(parse_ts_millis(Some("2024-13-09T16:00:00Z")), None);
    assert_eq!(parse_ts_millis(Some("")), None);
    assert_eq!(parse_ts_millis(Some("soon")), None);
    assert_eq!(parse_ts_millis(None), None);
    assert_eq!(parse_ts_millis(Some("-5")), Some(-5000));
    assert_eq!(parse_rfc3339_utc_millis("1969-12-31T23:59:59Z"), Some(-1000));
}

#[test]
fn times_are_shown_in_utc() {
    assert_eq!(format_utc_millis(1710000000000), "2024-03-09 16:00:00 UTC");
    assert_eq!(format_utc_millis(-1), "1969-12-31 23:59:59 UTC");
    assert_eq!(fmt_ts(Some(951827696000)), "2000-02-29 12:34:56 UTC");
    assert_eq!(fmt_ts(None), "");
}

#[test]
fn times_have_parts() {
    assert_eq!(utc_parts(1710000000000), (2024, 3, 9, 16));
    assert_eq!(time_parts(Some(951827696000)), (Some(2000), Some(2), Some(29), Some(12)));
    assert_eq!(time_parts(None), (None, None, None, None));
}

#[test]
fn time_paths_begin_in_1970() {
    assert_eq!(time_path(0, TimeDepth::Month).as_deref(), Some("time/1970/01"));
    assert_eq!(time_path(-1, TimeDepth::Month), None);
}

#[test]
fn days_and_dates_agree() {
    assert_eq!(civil_from_days(0), (1970, 1, 1));
    assert_eq!(civil_from_days(19791), (2024, 3, 9));
    assert_eq!(civil_from_days(-719468), (0, 3, 1));
    assert_eq!(days_from_civil(2024, 3, 9), Some(19791));
    assert_eq!(days_from_civil(2024, 13, 9), None);
    assert_eq!(days_from_civil(2024, 3, 0), None);
    let mut days = -800_000;
    while days < 800_000 {
        let (year, month, day) = civil_from_days(days);
        assert_eq!(days_from_civil(year, month, day), Some(days));
        days += 997;
    }
}

#[test]
fn chromium_times_count_from_1601() {
    assert_eq!(chromium_time_to_ms(13_354_473_600_000_000), Some(1_710_000_000_000));
    assert_eq!(chromium_time_to_ms(1), Some(-11_644_473_600_000));
    assert_eq!(chromium_time_to_ms(0), None);
    assert_eq!(chromium_time_to_ms(-7), None);
}

#[test]
fn the_clock_counts_milliseconds() {
    assert_eq!(clock_millis(Some(1710000000000)), 1710000000000);
    assert_eq!(clock_millis(None), 0);
    assert_eq!(clock_millis(Some(1u128 << 64)), 0);
    let first = now_ms();
    let second = now_ms_std();
    assert!(first > 1_600_000_000_000);
    assert!(second - first < 60_000);
}
