use std::time::Duration;

use chrono::TimeDelta;
use up::time::{human_readable_duration, human_readable_timedelta};

/// Number of seconds in a minute.
const MINUTES: u64 = 60;
/// Number of seconds in an hour.
const HOURS: u64 = MINUTES * 60;
/// Number of seconds in an day.
const DAYS: u64 = HOURS * 24;
/// Number of seconds in an week.
const WEEKS: u64 = DAYS * 7;

fn readable(duration: Duration) -> String {
    human_readable_duration(duration.as_secs(), duration.subsec_nanos()).unwrap()
}

fn readable_delta(delta: TimeDelta) -> String {
    human_readable_timedelta(delta.num_nanoseconds().unwrap() as i128)
}

#[test]
fn test_human_readable_duration() {
    // Check each time unit type.
    assert_eq!("0ns", readable(Duration::from_nanos(0)));
    assert_eq!("5ns", readable(Duration::from_nanos(5)));
    assert_eq!("5µs", readable(Duration::from_nanos(5999)));
    assert_eq!("5ms", readable(Duration::from_micros(5678)));
    assert_eq!("10s", readable(Duration::from_secs(10)));
    assert_eq!("5m", readable(Duration::from_secs(300)));
    assert_eq!("6h", readable(Duration::from_secs(6 * HOURS)));
    assert_eq!("5d", readable(Duration::from_secs(5 * DAYS)));
    assert_eq!("1w", readable(Duration::from_secs(7 * DAYS)));
    assert_eq!("4w", readable(Duration::from_secs(4 * WEEKS)));

    // minutes + millis/micros/nanos: only print minutes.
    assert_eq!("5m", readable(Duration::from_nanos(300_123_456_789)));

    assert_eq!("5m 12s", readable(Duration::from_nanos(312_123_456_789)));

    assert_eq!("17m 59s", readable(Duration::from_secs(1079)));

    // Weeks + s, s should be printed
    assert_eq!("28w 20s", readable(Duration::from_secs(28 * WEEKS) + Duration::from_secs(20)));

    // Weeks + ms, ms should be ignored
    assert_eq!("28w", readable(Duration::from_secs(28 * WEEKS) + Duration::from_millis(543)));

    assert_eq!("5w 2d 5s", readable(Duration::from_secs(5 * WEEKS + 2 * DAYS) + Duration::from_secs(5)));

    assert_eq!(
        "5w 2d 4h 59m 50s",
        readable(Duration::from_secs(5 * WEEKS + 2 * DAYS + 4 * HOURS + 59 * MINUTES + 50))
    );
}

#[test]
fn test_human_readable_timedelta() {
    assert_eq!("-2m 14s", readable_delta(TimeDelta::seconds(-134_i64)));
    assert_eq!("-2ns", readable_delta(TimeDelta::nanoseconds(-2_i64)));
}

#[test]
fn durations_beyond_the_largest_delta_are_refused() {
    assert_eq!(human_readable_duration(u64::MAX, 0), None);
    assert_eq!(human_readable_duration(9_223_372_036_854_775, 807_000_000).unwrap(), "15250284452w 3d 7h 12m 55s");
    assert_eq!(human_readable_duration(9_223_372_036_854_775, 807_000_001), None);
}
