//! Moments and the calendar.

use portside::time::{civil_from_days, drift_between, format_iso8601, Timestamp};

#[test]
fn known_dates() {
    let of = |secs: i64| format_iso8601(Timestamp::new(secs, 999_999_999));
    assert_eq!(of(0), "1970-01-01T00:00:00Z");
    assert_eq!(of(86_399), "1970-01-01T23:59:59Z");
    assert_eq!(of(86_400), "1970-01-02T00:00:00Z");
    assert_eq!(of(951_782_400), "2000-02-29T00:00:00Z");
    assert_eq!(of(951_868_800), "2000-03-01T00:00:00Z");
    assert_eq!(of(1_704_067_199), "2023-12-31T23:59:59Z");
    assert_eq!(of(1_709_210_096), "2024-02-29T12:34:56Z");
    assert_eq!(of(4_107_542_400), "2100-03-01T00:00:00Z");
    assert_eq!(of(1_788_339_741), "2026-09-02T09:02:21Z");
    assert_eq!(of(253_402_300_799), "9999-12-31T23:59:59Z");
    assert_eq!(of(253_402_300_800), "10000-01-01T00:00:00Z");
}

/// A moment before 1970 is written as its start.
#[test]
fn times_before_the_epoch_are_written_as_the_epoch() {
    assert_eq!(format_iso8601(Timestamp::new(-1, 0)), "1970-01-01T00:00:00Z");
    assert_eq!(format_iso8601(Timestamp::new(-1, 999_999_999)), "1970-01-01T00:00:00Z");
}

/// Every day of more than a whole cycle of the calendar follows the one before it.
#[test]
fn days_follow_each_other() {
    let is_leap = |y: i64| (y % 4 == 0 && y % 100 != 0) || y % 400 == 0;
    let mut expected: (i64, u32, u32) = (1, 1, 1);
    let first: i64 = -719_162;
    for z in first..first + 300_000 {
        assert_eq!(civil_from_days(z), expected);
        let (y, m, d) = expected;
        let length: u32 = match m {
            2 => if is_leap(y) { 29 } else { 28 },
            4 | 6 | 9 | 11 => 30,
            _ => 31,
        };
        expected = if d < length {
            (y, m, d + 1)
        } else if m < 12 {
            (y, m + 1, 1)
        } else {
            (y + 1, 1, 1)
        };
    }
    assert_eq!(civil_from_days(-719_528), (0, 1, 1));
    assert_eq!(civil_from_days(-719_529), (-1, 12, 31));
}

#[test]
fn spans_between_moments() {
    let a = Timestamp::new(10, 500_000_000);
    let b = Timestamp::new(12, 250_000_000);
    assert_eq!(b.nanos_since(a), Some(1_750_000_000));
    assert_eq!(a.nanos_since(b), None);
    assert_eq!(a.nanos_since(a), Some(0));
    assert_eq!(b.whole_seconds_since(a), 1);
    assert_eq!(a.whole_seconds_since(b), 0);
    assert!(b.at_least_after(a, 1));
    assert!(!b.at_least_after(a, 2));
    assert_eq!(drift_between(a, b), 1_750_000_000);
    assert_eq!(drift_between(b, a), 1_750_000_000);
    assert_eq!(a.checked_sub_seconds(11), Some(Timestamp::new(-1, 500_000_000)));
    assert_eq!(Timestamp::new(i64::MIN + 4, 0).checked_sub_seconds(4), Some(Timestamp::new(i64::MIN, 0)));
    assert_eq!(Timestamp::new(i64::MIN + 4, 0).checked_sub_seconds(5), None);
    assert_eq!(a.checked_sub_seconds(u64::MAX), None);
    assert_eq!(Timestamp::new(i64::MAX, 0).whole_seconds_since(Timestamp::new(i64::MIN, 0)), u64::MAX);
}
