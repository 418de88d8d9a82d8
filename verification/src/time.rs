//! Points in time, and the calendar date they are shown as.
use crate::numeral;
use vstd::arithmetic::div_mod::{lemma_hoist_over_denominator, lemma_mod_multiples_vanish};
use vstd::prelude::*;

verus! {

/// A point in time: whole seconds since the Unix epoch, which may be negative, and
/// nanoseconds after that second.
#[derive(Debug, Clone, Copy, PartialEq, Eq, Structural)]
pub struct Timestamp {
    pub secs: i64,
    pub nanos: u32,
}

impl Timestamp {
    /// Nanoseconds since the Unix epoch.
    pub open spec fn ns(self) -> int {
        self.secs * 1_000_000_000 + self.nanos
    }

    /// The start of 1970, UTC.
    pub fn unix_epoch() -> (r: Timestamp)
        ensures
            r.secs == 0,
            r.nanos == 0,
    {
        Timestamp { secs: 0, nanos: 0 }
    }

    /// The point in time with these parts.
    pub fn new(secs: i64, nanos: u32) -> (r: Timestamp)
        ensures
            r.secs == secs,
            r.nanos == nanos,
    {
        Timestamp { secs, nanos }
    }

    /// How long after `earlier` this is, in nanoseconds. `None` when `earlier` is in
    /// fact the later one, as a clock that was set back makes it.
    pub fn nanos_since(self, earlier: Timestamp) -> (r: Option<u128>)
        ensures
            match r {
                Some(d) => d == self.ns() - earlier.ns(),
                None => self.ns() < earlier.ns(),
            },
    {
        let a: i128 = (self.secs as i128) * 1_000_000_000 + (self.nanos as i128);
        let b: i128 = (earlier.secs as i128) * 1_000_000_000 + (earlier.nanos as i128);
        if a < b {
            None
        } else {
            Some((a - b) as u128)
        }
    }

    /// Whether this is at least `seconds` after `earlier`.
    pub fn at_least_after(self, earlier: Timestamp, seconds: u64) -> (r: bool)
        ensures
            r == (self.ns() - earlier.ns() >= seconds * 1_000_000_000),
    {
        match self.nanos_since(earlier) {
            Some(d) => d >= (seconds as u128) * 1_000_000_000,
            None => false,
        }
    }

    /// Whole seconds since `earlier`, or zero when `earlier` is the later one.
    pub fn whole_seconds_since(self, earlier: Timestamp) -> (r: u64)
        ensures
            r == seconds_between(earlier, self),
    {
        match self.nanos_since(earlier) {
            Some(d) => {
                let s: u128 = d / 1_000_000_000;
                if s > u64::MAX as u128 {
                    u64::MAX
                } else {
                    s as u64
                }
            },
            None => 0,
        }
    }

    /// The point `seconds` before this one, where it can be told.
    pub fn checked_sub_seconds(self, seconds: u64) -> (r: Option<Timestamp>)
        ensures
            match r {
                Some(t) => t.secs == self.secs - seconds && t.nanos == self.nanos,
                None => self.secs - seconds < i64::MIN,
            },
    {
        let s: i128 = (self.secs as i128) - (seconds as i128);
        if s < i64::MIN as i128 {
            None
        } else {
            Some(Timestamp { secs: s as i64, nanos: self.nanos })
        }
    }
}

/// Whole seconds from `earlier` to `later`, or zero when `earlier` is the later one.
/// The largest count is `u64::MAX`, which no two points whose nanoseconds stay below a
/// second exceed.
pub open spec fn seconds_between(earlier: Timestamp, later: Timestamp) -> int {
    let s = (later.ns() - earlier.ns()) / 1_000_000_000;
    if later.ns() <= earlier.ns() {
        0
    } else if s > u64::MAX {
        u64::MAX as int
    } else {
        s
    }
}

/// How far apart two points in time are, in nanoseconds, whichever is the later one.
pub open spec fn drift(a: Timestamp, b: Timestamp) -> int {
    if a.ns() >= b.ns() {
        a.ns() - b.ns()
    } else {
        b.ns() - a.ns()
    }
}

/// How far apart two points in time are, in nanoseconds, whichever is the later one.
pub fn drift_between(a: Timestamp, b: Timestamp) -> (r: u128)
    ensures
        r == drift(a, b),
{
    match a.nanos_since(b) {
        Some(d) => d,
        None => match b.nanos_since(a) {
            Some(d) => d,
            None => 0,
        },
    }
}

// ---------------------------------------------------------------------------------
// The Gregorian calendar.
// ---------------------------------------------------------------------------------

/// Whether `y` has a twenty-ninth of February.
pub open spec fn is_leap(y: int) -> bool {
    y % 4 == 0 && (y % 100 != 0 || y % 400 == 0)
}

/// How many days the month `m` of the year `y` has.
pub open spec fn days_in_month(y: int, m: int) -> int {
    if m == 2 {
        if is_leap(y) {
            29
        } else {
            28
        }
    } else if m == 4 || m == 6 || m == 9 || m == 11 {
        30
    } else {
        31
    }
}

/// How many days of the year `y` lie before its month `m`.
pub open spec fn days_before_month(y: int, m: int) -> int
    decreases m,
{
    if m <= 1 {
        0
    } else {
        days_before_month(y, m - 1) + days_in_month(y, m - 1)
    }
}

/// How many days lie between the start of the year 0 and the start of the year `y`.
pub open spec fn days_before_year(y: int) -> int {
    365 * y + (y + 3) / 4 - (y + 99) / 100 + (y + 399) / 400
}

/// Whether the year, month and day name a day of the calendar.
pub open spec fn is_date(y: int, m: int, d: int) -> bool {
    1 <= m <= 12 && 1 <= d <= days_in_month(y, m)
}

/// How many days after the first of January 1970 a date is.
pub open spec fn day_number(y: int, m: int, d: int) -> int {
    days_before_year(y) + days_before_month(y, m) + d - 1 - 719_528
}

/// A year has 365 days, and one more where it is a leap year.
#[verifier::spinoff_prover]
pub proof fn lemma_year_length(y: int)
    ensures
        days_before_year(y + 1) - days_before_year(y) == (if is_leap(y) {
            366int
        } else {
            365int
        }),
{
    lemma_march_day(y);
    assert((y + 4) / 4 == y / 4 + 1);
    assert((y + 100) / 100 == y / 100 + 1);
    assert((y + 400) / 400 == y / 400 + 1);
}

/// What lies before each month, spelled out.
proof fn lemma_days_before_month(y: int)
    ensures
        days_before_month(y, 1) == 0,
        days_before_month(y, 2) == 31,
        days_before_month(y, 3) == 31 + days_in_month(y, 2),
        days_before_month(y, 4) == 62 + days_in_month(y, 2),
        days_before_month(y, 5) == 92 + days_in_month(y, 2),
        days_before_month(y, 6) == 123 + days_in_month(y, 2),
        days_before_month(y, 7) == 153 + days_in_month(y, 2),
        days_before_month(y, 8) == 184 + days_in_month(y, 2),
        days_before_month(y, 9) == 215 + days_in_month(y, 2),
        days_before_month(y, 10) == 245 + days_in_month(y, 2),
        days_before_month(y, 11) == 276 + days_in_month(y, 2),
        days_before_month(y, 12) == 306 + days_in_month(y, 2),
{
    reveal_with_fuel(days_before_month, 13);
}

/// Inside one cycle of four hundred years that start in March, `doe` days from its
/// beginning fall in the year `yoe`, of which `doy` days are over.
#[verifier::spinoff_prover]
proof fn lemma_year_of_era(doe: int)
    requires
        0 <= doe <= 146_096,
    ensures
        ({
            let yoe = (doe - doe / 1460 + doe / 36_524 - doe / 146_096) / 365;
            let doy = doe - (365 * yoe + yoe / 4 - yoe / 100);
            &&& 0 <= yoe <= 399
            &&& 0 <= doy <= 365
            &&& doy == 365 ==> is_leap(yoe + 1)
        }),
{
    let century: int = if doe == 146_096 {
        3
    } else {
        doe / 36_524
    };
    let in_century = doe - 36_524 * century;
    let four = in_century / 1461;
    let in_four = in_century - 1461 * four;
    let one: int = if in_four == 1460 {
        3
    } else {
        in_four / 365
    };
    let yoe = 100 * century + 4 * four + one;
    assert(0 <= one <= 3);
    assert(0 <= four <= 24);
    assert(0 <= century <= 3);
    assert(yoe / 4 == 25 * century + four);
    assert(yoe / 100 == century);
}

/// The day `doy` days after the first of March of the year `y`, taken apart into month
/// and day.
#[verifier::spinoff_prover]
proof fn lemma_day_of_year(y: int, doy: int)
    requires
        0 <= doy <= 365,
        doy == 365 ==> is_leap(y + 1),
    ensures
        ({
            let mp = (5 * doy + 2) / 153;
            let d = doy - (153 * mp + 2) / 5 + 1;
            let m = if mp < 10 {
                mp + 3
            } else {
                mp - 9
            };
            let year = if m <= 2 {
                y + 1
            } else {
                y
            };
            &&& 0 <= mp <= 11
            &&& 1 <= d <= 31
            &&& is_date(year, m, d)
            &&& m > 2 ==> days_before_month(year, m) + d - 1 == doy + 31 + days_in_month(y, 2)
            &&& m <= 2 ==> days_before_month(year, m) + d - 1 == doy - 306
        }),
{
    let mp = (5 * doy + 2) / 153;
    lemma_days_before_month(y);
    lemma_days_before_month(y + 1);
    assert(mp == 0 || mp == 1 || mp == 2 || mp == 3 || mp == 4 || mp == 5 || mp == 6 || mp == 7
        || mp == 8 || mp == 9 || mp == 10 || mp == 11);
}

/// How many days lie before the first of March of the year `yoe` of the cycle `era`,
/// and before the first of January that follows.
#[verifier::spinoff_prover]
proof fn lemma_march_years(yoe: int, era: int)
    requires
        0 <= yoe <= 399,
    ensures
        ({
            let y = yoe + era * 400;
            let before = 146_097 * era + 365 * yoe + yoe / 4 - yoe / 100;
            &&& days_before_year(y) + days_in_month(y, 2) == before + 29
            &&& days_before_year(y + 1) == before + 366
            &&& is_leap(y + 1) == is_leap(yoe + 1)
        }),
{
    lemma_march_day(yoe);
    lemma_cycle(yoe, era);
    lemma_cycle(yoe + 1, era);
    lemma_year_length(yoe);
}

/// Every four hundred years the calendar repeats, after 146,097 days.
#[verifier::spinoff_prover]
pub proof fn lemma_cycle(y: int, era: int)
    ensures
        is_leap(y + era * 400) == is_leap(y),
        days_before_year(y + era * 400) == days_before_year(y) + 146_097 * era,
{
    lemma_hoist_over_denominator(y + 3, 100 * era, 4);
    lemma_hoist_over_denominator(y + 99, 4 * era, 100);
    lemma_hoist_over_denominator(y + 399, era, 400);
    lemma_mod_multiples_vanish(100 * era, y, 4);
    lemma_mod_multiples_vanish(4 * era, y, 100);
    lemma_mod_multiples_vanish(era, y, 400);
}

/// How many days lie before the last of February of the year `y`.
#[verifier::spinoff_prover]
proof fn lemma_march_day(y: int)
    ensures
        days_before_year(y) + days_in_month(y, 2) == 365 * y + y / 4 - y / 100 + y / 400 + 29,
{
    assert((y + 3) / 4 == y / 4 + (if y % 4 == 0 {
        0int
    } else {
        1int
    }));
    assert((y + 99) / 100 == y / 100 + (if y % 100 == 0 {
        0int
    } else {
        1int
    }));
    assert((y + 399) / 400 == y / 400 + (if y % 400 == 0 {
        0int
    } else {
        1int
    }));
}

/// The date that day `doe` of the cycle `era` is.
#[verifier::spinoff_prover]
proof fn lemma_civil(era: int, doe: int)
    requires
        0 <= doe <= 146_096,
    ensures
        ({
            let yoe = (doe - doe / 1460 + doe / 36_524 - doe / 146_096) / 365;
            let doy = doe - (365 * yoe + yoe / 4 - yoe / 100);
            let mp = (5 * doy + 2) / 153;
            let d = doy - (153 * mp + 2) / 5 + 1;
            let m = if mp < 10 {
                mp + 3
            } else {
                mp - 9
            };
            let y = yoe + era * 400;
            let year = if m <= 2 {
                y + 1
            } else {
                y
            };
            &&& 0 <= yoe <= 399
            &&& 0 <= doy <= 365
            &&& 0 <= mp <= 11
            &&& 1 <= d <= 31
            &&& is_date(year, m, d)
            &&& day_number(year, m, d) == era * 146_097 + doe - 719_468
        }),
{
    lemma_year_of_era(doe);
    let yoe = (doe - doe / 1460 + doe / 36_524 - doe / 146_096) / 365;
    let doy = doe - (365 * yoe + yoe / 4 - yoe / 100);
    lemma_march_years(yoe, era);
    lemma_day_of_year(yoe + era * 400, doy);
}

/// The date `z` days after the first of January 1970.
///
/// The count is shifted to start on the first of March of the year 0, so that a leap
/// day is the last of its year, and taken apart into cycles of four hundred years.
pub fn civil_from_days(z: i64) -> (r: (i64, u32, u32))
    requires
        z <= i64::MAX - 719_468,
    ensures
        is_date(r.0 as int, r.1 as int, r.2 as int),
        day_number(r.0 as int, r.1 as int, r.2 as int) == z,
{
    let shifted: i64 = z + 719_468;
    let era: i64 = if shifted >= 0 {
        shifted / 146_097
    } else {
        -((-(shifted + 1)) / 146_097) - 1
    };
    let doe: u64 = (shifted - era * 146_097) as u64;
    proof {
        lemma_civil(era as int, doe as int);
    }
    let yoe: u64 = (doe - doe / 1460 + doe / 36_524 - doe / 146_096) / 365;
    let y: i64 = yoe as i64 + era * 400;
    let doy: u64 = doe - (365 * yoe + yoe / 4 - yoe / 100);
    let mp: u64 = (5 * doy + 2) / 153;
    let d: u32 = (doy - (153 * mp + 2) / 5 + 1) as u32;
    let m: u32 = (if mp < 10 {
        mp + 3
    } else {
        mp - 9
    }) as u32;
    let year: i64 = if m <= 2 {
        y + 1
    } else {
        y
    };
    (year, m, d)
}

/// The date that day `z` after the first of January 1970 is: the only one with that
/// day number.
pub open spec fn date_of(z: int) -> (int, int, int) {
    choose|t: (int, int, int)|
        #![trigger is_date(t.0, t.1, t.2)]
        is_date(t.0, t.1, t.2) && day_number(t.0, t.1, t.2) == z
}

/// A date is the date of its own day number.
pub proof fn lemma_date_of(y: int, m: int, d: int)
    requires
        is_date(y, m, d),
    ensures
        date_of(day_number(y, m, d)) == (y, m, d),
{
    let z = day_number(y, m, d);
    let t = (y, m, d);
    assert(is_date(t.0, t.1, t.2) && day_number(t.0, t.1, t.2) == z);
    let u = date_of(z);
    lemma_day_number_injective(u.0, u.1, u.2, y, m, d);
}

/// A date as `2026-09-02` shows it.
pub open spec fn date_text(y: nat, m: nat, d: nat) -> Seq<char> {
    numeral::padded(y, 4).push('-') + numeral::padded(m, 2).push('-') + numeral::padded(d, 2)
}

/// A time of day, given in seconds, as `08:42:21` shows it.
pub open spec fn clock_text(seconds: nat) -> Seq<char> {
    numeral::padded(seconds / 3600, 2).push(':') + numeral::padded(seconds % 3600 / 60, 2).push(
        ':',
    ) + numeral::padded(seconds % 60, 2)
}

/// The date and time of day of `time` in UTC, as `2026-09-02T08:42:21Z` shows them. A
/// time before 1970 is shown as the start of 1970.
pub open spec fn iso8601(time: Timestamp) -> Seq<char> {
    let secs: int = if time.ns() < 0 {
        0
    } else {
        time.ns() / 1_000_000_000
    };
    let (y, m, d) = date_of(secs / 86_400);
    (date_text(y as nat, m as nat, d as nat).push('T') + clock_text((secs % 86_400) as nat)).push(
        'Z',
    )
}

/// A date as `2026-09-02` shows it.
fn format_date(y: u64, m: u32, d: u32) -> (r: String)
    ensures
        r@ == date_text(y as nat, m as nat, d as nat),
{
    let mut r = numeral::to_padded(y, 4);
    r.push('-');
    let mut rest = numeral::to_padded(m as u64, 2);
    rest.push('-');
    r.append(rest.as_str());
    r.append(numeral::to_padded(d as u64, 2).as_str());
    r
}

/// A time of day as `08:42:21` shows it.
fn format_clock(seconds: u64) -> (r: String)
    ensures
        r@ == clock_text(seconds as nat),
{
    let mut r = numeral::to_padded(seconds / 3600, 2);
    r.push(':');
    let mut rest = numeral::to_padded(seconds % 3600 / 60, 2);
    rest.push(':');
    r.append(rest.as_str());
    r.append(numeral::to_padded(seconds % 60, 2).as_str());
    r
}

/// The date and time of day of `time` in UTC.
pub fn format_iso8601(time: Timestamp) -> (r: String)
    ensures
        r@ == iso8601(time),
{
    let since: u128 = match time.nanos_since(Timestamp::unix_epoch()) {
        Some(d) => d / 1_000_000_000,
        None => 0,
    };
    let secs: u64 = since as u64;
    let days: u64 = secs / 86_400;
    let (year, month, day) = civil_from_days(days as i64);
    proof {
        lemma_year_after_epoch(year as int, month as int, day as int);
        lemma_date_of(year as int, month as int, day as int);
    }
    let mut r = format_date(year as u64, month, day);
    r.push('T');
    r.append(format_clock(secs % 86_400).as_str());
    r.push('Z');
    r
}

/// A date that is not before 1970 has a year that is not before 1970.
proof fn lemma_year_after_epoch(y: int, m: int, d: int)
    requires
        is_date(y, m, d),
        day_number(y, m, d) >= 0,
    ensures
        y >= 1970,
{
    lemma_days_before_month(y);
}

/// No two dates have the same day number: a count of days is shown as one date only.
pub proof fn lemma_day_number_injective(y1: int, m1: int, d1: int, y2: int, m2: int, d2: int)
    requires
        is_date(y1, m1, d1),
        is_date(y2, m2, d2),
        day_number(y1, m1, d1) == day_number(y2, m2, d2),
    ensures
        y1 == y2 && m1 == m2 && d1 == d2,
{
    lemma_days_before_month(y1);
    lemma_days_before_month(y2);
    lemma_year_length(y1);
    lemma_year_length(y2);
    if y1 < y2 {
        assert(days_before_year(y1 + 1) <= days_before_year(y2));
    }
    if y2 < y1 {
        assert(days_before_year(y2 + 1) <= days_before_year(y1));
    }
}

} // verus!
