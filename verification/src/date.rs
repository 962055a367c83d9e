//! Calendar dates: parsing of `YYYY-MM-DD` strings, validation, and the
//! conversion of a date plus a time of day to a millisecond Unix timestamp.

use vstd::prelude::*;

verus! {

/// Why a date string was rejected.
#[derive(Clone, Copy, PartialEq, Eq, Structural, Debug)]
pub enum DateError {
    /// The string is not of the form `YYYY-MM-DD`, or names an impossible
    /// calendar day (such as a thirteenth month).
    Parse,
    /// The date is a real calendar day but lies before 1970, so it has no
    /// non-negative Unix timestamp.
    Range,
}

/// A calendar date in a supported year, as parsed from a `YYYY-MM-DD` string.
#[derive(Clone, Copy, PartialEq, Eq, Structural, Debug)]
pub struct DateSeed {
    pub year: u16,
    pub month: u8,
    pub day: u8,
}

impl DateSeed {
    /// A well-formed date seed: a real calendar day, no earlier than 1970 and
    /// no later than what four year digits can write.
    pub open spec fn wf(self) -> bool {
        &&& 1970 <= self.year <= 9999
        &&& 1 <= self.month <= 12
        &&& 1 <= self.day <= days_in_month(self.year as int, self.month as int)
    }
}

/// Whether `y` is a leap year in the Gregorian calendar.
pub open spec fn is_leap_year(y: int) -> bool {
    y % 4 == 0 && (y % 100 != 0 || y % 400 == 0)
}

/// Number of days in year `y`.
pub open spec fn days_in_year(y: int) -> int {
    if is_leap_year(y) {
        366
    } else {
        365
    }
}

/// Number of days in month `m` of year `y`.
pub open spec fn days_in_month(y: int, m: int) -> int {
    if m == 2 {
        if is_leap_year(y) {
            29
        } else {
            28
        }
    } else if m == 4 || m == 6 || m == 9 || m == 11 {
        30
    } else {
        31
    }
}

/// Days from 1970-01-01 up to the first day of year `y`.
pub open spec fn days_before_year(y: int) -> int
    decreases y,
{
    if y <= 1970 {
        0
    } else {
        days_before_year(y - 1) + days_in_year(y - 1)
    }
}

/// Days from the first day of year `y` up to the first day of its month `m`.
pub open spec fn days_before_month(y: int, m: int) -> int
    decreases m,
{
    if m <= 1 {
        0
    } else {
        days_before_month(y, m - 1) + days_in_month(y, m - 1)
    }
}

/// The day number of date `d`: how many days lie between 1970-01-01 and `d`.
pub open spec fn days_from_civil(d: DateSeed) -> int {
    days_before_year(d.year as int) + days_before_month(d.year as int, d.month as int) + d.day - 1
}

/// The year that day number `n` falls in, counting years up from `y0`, with
/// the remaining day count within that year (zero-based).
pub open spec fn year_and_rest(n: int, y0: int) -> (int, int)
    decreases n,
{
    if n < days_in_year(y0) {
        (y0, n)
    } else {
        year_and_rest(n - days_in_year(y0), y0 + 1)
    }
}

/// The month that `n` remaining days (zero-based) fall in within year `y`,
/// counting months up from `m0`, with the one-based day of that month.
pub open spec fn month_and_day(y: int, n: int, m0: int) -> (int, int)
    decreases 13 - m0,
{
    if m0 >= 12 || n < days_in_month(y, m0) {
        (m0, n + 1)
    } else {
        month_and_day(y, n - days_in_month(y, m0), m0 + 1)
    }
}

/// The calendar date (UTC) of day number `n`: the reading back of
/// `days_from_civil`.
pub open spec fn civil_of_day(n: int) -> DateSeed {
    let (y, rest) = year_and_rest(n, 1970);
    let (m, d) = month_and_day(y, rest, 1);
    DateSeed { year: y as u16, month: m as u8, day: d as u8 }
}

proof fn lemma_days_before_year_monotonic(y1: int, y2: int)
    requires
        y1 <= y2,
    ensures
        days_before_year(y1) <= days_before_year(y2),
    decreases y2 - y1,
{
    if y1 < y2 {
        lemma_days_before_year_monotonic(y1, y2 - 1);
    }
}

proof fn lemma_days_before_month_monotonic(y: int, m1: int, m2: int)
    requires
        m1 <= m2,
    ensures
        days_before_month(y, m1) <= days_before_month(y, m2),
    decreases m2 - m1,
{
    if m1 < m2 {
        lemma_days_before_month_monotonic(y, m1, m2 - 1);
    }
}

proof fn lemma_days_before_month_full(y: int)
    ensures
        days_before_month(y, 13) == days_in_year(y),
{
    reveal_with_fuel(days_before_month, 14);
}

proof fn lemma_year_and_rest(y0: int, y: int, r: int)
    requires
        1970 <= y0 <= y,
        0 <= r < days_in_year(y),
    ensures
        year_and_rest(days_before_year(y) - days_before_year(y0) + r, y0) == (y, r),
    decreases y - y0,
{
    if y0 == y {
    } else {
        lemma_days_before_year_monotonic(y0 + 1, y);
        assert(days_before_year(y0 + 1) == days_before_year(y0) + days_in_year(y0));
        lemma_year_and_rest(y0 + 1, y, r);
    }
}

proof fn lemma_month_and_day(y: int, m0: int, m: int, r: int)
    requires
        1 <= m0 <= m <= 12,
        0 <= r < days_in_month(y, m),
    ensures
        month_and_day(y, days_before_month(y, m) - days_before_month(y, m0) + r, m0) == (m, r + 1),
    decreases m - m0,
{
    if m0 == m {
    } else {
        lemma_days_before_month_monotonic(y, m0 + 1, m);
        assert(days_before_month(y, m0 + 1) == days_before_month(y, m0) + days_in_month(y, m0));
        lemma_month_and_day(y, m0 + 1, m, r);
    }
}

/// Law: reading the day number of a well-formed date back as a calendar date
/// gives that date itself.
pub proof fn lemma_civil_round_trip(d: DateSeed)
    requires
        d.wf(),
    ensures
        civil_of_day(days_from_civil(d)) == d,
{
    let y = d.year as int;
    let m = d.month as int;
    let day = d.day as int;
    let rest = days_before_month(y, m) + day - 1;
    lemma_days_before_month_monotonic(y, m + 1, 13);
    lemma_days_before_month_full(y);
    assert(days_before_month(y, m + 1) == days_before_month(y, m) + days_in_month(y, m));
    lemma_days_before_month_monotonic(y, 1, m);
    assert(0 <= rest < days_in_year(y));
    lemma_year_and_rest(1970, y, rest);
    assert(days_from_civil(d) == days_before_year(y) - days_before_year(1970) + rest);
    lemma_month_and_day(y, 1, m, day - 1);
}

/// Law: a timestamp derived from date seed `d` and any time of day falls on
/// the calendar day `d` itself (UTC).
pub proof fn lemma_seed_timestamp_date(d: DateSeed, ms_of_day: int)
    requires
        d.wf(),
        0 <= ms_of_day < 86_400_000,
    ensures
        civil_of_day((days_from_civil(d) * 86_400_000 + ms_of_day) / 86_400_000) == d,
{
    let days = days_from_civil(d);
    lemma_days_before_year_monotonic(1970, d.year as int);
    lemma_days_before_month_monotonic(d.year as int, 1, d.month as int);
    assert(days >= 0);
    vstd::arithmetic::div_mod::lemma_div_multiples_vanish_fancy(days, ms_of_day, 86_400_000);
    assert((days * 86_400_000 + ms_of_day) / 86_400_000 == days);
    lemma_civil_round_trip(d);
}

/// Whether byte `b` is an ASCII decimal digit.
pub open spec fn is_digit(b: u8) -> bool {
    0x30 <= b <= 0x39
}

/// The numeric value of ASCII digit `b`.
pub open spec fn digit_val(b: u8) -> int {
    b - 0x30
}

/// Whether `s` is shaped exactly like `YYYY-MM-DD`: four digits, a hyphen,
/// two digits, a hyphen, two digits, and nothing else.
pub open spec fn date_format_ok(s: Seq<u8>) -> bool {
    &&& s.len() == 10
    &&& is_digit(s[0]) && is_digit(s[1]) && is_digit(s[2]) && is_digit(s[3])
    &&& s[4] == 0x2d
    &&& is_digit(s[5]) && is_digit(s[6])
    &&& s[7] == 0x2d
    &&& is_digit(s[8]) && is_digit(s[9])
}

/// The year written by a well-formatted date string.
pub open spec fn year_of(s: Seq<u8>) -> int {
    digit_val(s[0]) * 1000 + digit_val(s[1]) * 100 + digit_val(s[2]) * 10 + digit_val(s[3])
}

/// The month written by a well-formatted date string.
pub open spec fn month_of(s: Seq<u8>) -> int {
    digit_val(s[5]) * 10 + digit_val(s[6])
}

/// The day written by a well-formatted date string.
pub open spec fn day_of(s: Seq<u8>) -> int {
    digit_val(s[8]) * 10 + digit_val(s[9])
}

/// Whether `s` is a well-formatted string naming a real calendar day.
pub open spec fn date_calendar_ok(s: Seq<u8>) -> bool {
    &&& date_format_ok(s)
    &&& 1 <= month_of(s) <= 12
    &&& 1 <= day_of(s) <= days_in_month(year_of(s), month_of(s))
}

/// Whether `y` is a leap year.
pub fn is_leap_year_exec(y: u16) -> (r: bool)
    ensures
        r == is_leap_year(y as int),
{
    y % 4 == 0 && (y % 100 != 0 || y % 400 == 0)
}

/// Number of days in month `m` of year `y`.
pub fn days_in_month_exec(y: u16, m: u8) -> (r: u8)
    requires
        1 <= m <= 12,
    ensures
        r == days_in_month(y as int, m as int),
{
    if m == 2 {
        if is_leap_year_exec(y) {
            29
        } else {
            28
        }
    } else if m == 4 || m == 6 || m == 9 || m == 11 {
        30
    } else {
        31
    }
}

/// Parses a date written exactly as `YYYY-MM-DD`. Rejects any other shape or
/// an impossible calendar day with `DateError::Parse`, and a real day before
/// 1970 with `DateError::Range`.
pub fn parse_date(s: &[u8]) -> (r: Result<DateSeed, DateError>)
    ensures
        r is Ok <==> date_calendar_ok(s@) && year_of(s@) >= 1970,
        r matches Ok(d) ==> d.year == year_of(s@) && d.month == month_of(s@) && d.day == day_of(
            s@,
        ) && d.wf(),
        r == Err::<DateSeed, DateError>(DateError::Range) <==> date_calendar_ok(s@) && year_of(s@)
            < 1970,
        r == Err::<DateSeed, DateError>(DateError::Parse) <==> !date_calendar_ok(s@),
{
    if s.len() != 10 {
        return Err(DateError::Parse);
    }
    let mut i: usize = 0;
    while i < 10
        invariant
            s@.len() == 10,
            i <= 10,
            forall|j: int|
                0 <= j < i ==> if j == 4 || j == 7 {
                    s@[j] == 0x2d
                } else {
                    is_digit(s@[j])
                },
        decreases 10 - i,
    {
        let b = s[i];
        if i == 4 || i == 7 {
            if b != 0x2d {
                return Err(DateError::Parse);
            }
        } else {
            if b < 0x30 || b > 0x39 {
                return Err(DateError::Parse);
            }
        }
        i = i + 1;
    }
    let year: u16 = (s[0] - 0x30) as u16 * 1000 + (s[1] - 0x30) as u16 * 100 + (s[2] - 0x30) as u16
        * 10 + (s[3] - 0x30) as u16;
    let month: u8 = (s[5] - 0x30) * 10 + (s[6] - 0x30);
    let day: u8 = (s[8] - 0x30) * 10 + (s[9] - 0x30);
    if month < 1 || month > 12 {
        return Err(DateError::Parse);
    }
    if day < 1 || day > days_in_month_exec(year, month) {
        return Err(DateError::Parse);
    }
    if year < 1970 {
        return Err(DateError::Range);
    }
    Ok(DateSeed { year, month, day })
}

/// The day number of `d`: how many whole days lie between 1970-01-01 and `d`.
pub fn day_number(d: &DateSeed) -> (r: u64)
    requires
        d.wf(),
    ensures
        r == days_from_civil(*d),
        r < 2_939_100,
{
    let mut days: u64 = 0;
    let mut y: u16 = 1970;
    while y < d.year
        invariant
            1970 <= y <= d.year,
            d.year <= 9999,
            days == days_before_year(y as int),
            days <= 366 * (y - 1970),
        decreases d.year - y,
    {
        if is_leap_year_exec(y) {
            days = days + 366;
        } else {
            days = days + 365;
        }
        y = y + 1;
    }
    let mut m: u8 = 1;
    while m < d.month
        invariant
            d.wf(),
            1 <= m <= d.month,
            days == days_before_year(d.year as int) + days_before_month(d.year as int, m as int),
            days <= 366 * (d.year - 1970) + 31 * (m - 1),
        decreases d.month - m,
    {
        days = days + days_in_month_exec(d.year, m) as u64;
        m = m + 1;
    }
    days + (d.day - 1) as u64
}

/// The millisecond Unix timestamp of date `d` at `ms_of_day` milliseconds
/// past its midnight (UTC). The result always fits in the 48 timestamp bits
/// of an identifier.
pub fn seed_timestamp_ms(d: &DateSeed, ms_of_day: u64) -> (r: u64)
    requires
        d.wf(),
        ms_of_day < 86_400_000,
    ensures
        r == days_from_civil(*d) * 86_400_000 + ms_of_day,
        r < 0x1_0000_0000_0000,
{
    let days = day_number(d);
    days * 86_400_000 + ms_of_day
}

} // verus!
