//! Moving a calendar day by a duration: the duration's whole years move the
//! year, then its 30-day months move the month, and the rest is added as
//! days.
use vstd::prelude::*;
use crate::formatter::{MONTH, YEAR};

verus! {

/// Whether a year of the proleptic Gregorian calendar is a leap year.
pub open spec fn spec_leap_year(year: int) -> bool {
    year % 4 == 0 && (year % 100 != 0 || year % 400 == 0)
}

/// The number of days of a month of a year.
pub open spec fn spec_month_days(year: int, month: int) -> int {
    if month == 2 {
        if spec_leap_year(year) { 29 } else { 28 }
    } else if month == 4 || month == 6 || month == 9 || month == 11 {
        30
    } else {
        31
    }
}

/// Whether `chrono::NaiveDate::from_ymd_opt(year, month, day)` gives a day:
/// the year is within chrono's range, from -262143 to 262142, the month is
/// from 1 to 12 and the day is a day of that month.
pub open spec fn spec_date_exists(year: int, month: int, day: int) -> bool {
    &&& -262143 <= year <= 262142
    &&& 1 <= month <= 12
    &&& 1 <= day <= spec_month_days(year, month)
}

/// What `chrono::NaiveDate::from_ymd_opt(year, month, day)`, moved by
/// `TimeDelta::seconds(seconds)` with `checked_add_signed` (or
/// `checked_sub_signed` when `add` is false), gives as a day number
/// counted from 1 January of year 1 (`num_days_from_ce`).
pub uninterp spec fn spec_shifted_days(year: int, month: int, day: int, seconds: int, add: bool) -> Option<int>;

/// Whether `chrono::TimeDelta::seconds` takes a number of seconds: at most
/// `i64::MAX / 1000` either way.
pub open spec fn spec_seconds_ok(s: int) -> bool {
    -9223372036854775 <= s <= 9223372036854775
}

/// `chrono::NaiveDate::from_ymd_opt(year, month, day).is_some()`: whether
/// the day exists in chrono's range of the proleptic Gregorian calendar.
#[verifier::external_body]
fn date_exists(year: i32, month: u32, day: u32) -> (r: bool)
    ensures
        r == spec_date_exists(year as int, month as int, day as int),
{
    chrono::NaiveDate::from_ymd_opt(year, month, day).is_some()
}

/// `chrono::NaiveDate::from_ymd_opt(year, month, day)`, then
/// `checked_add_signed(TimeDelta::seconds(seconds))`, then
/// `num_days_from_ce`. The result is named.
#[verifier::external_body]
fn date_plus_seconds(year: i32, month: u32, day: u32, seconds: i64) -> (r: Option<i32>)
    requires
        spec_seconds_ok(seconds as int),
    ensures
        match r {
            Some(v) => spec_shifted_days(year as int, month as int, day as int, seconds as int, true) == Some(v as int),
            None => spec_shifted_days(year as int, month as int, day as int, seconds as int, true) is None,
        },
{
    chrono::NaiveDate::from_ymd_opt(year, month, day)
        .and_then(|date| date.checked_add_signed(chrono::TimeDelta::seconds(seconds)))
        .map(|date| chrono::Datelike::num_days_from_ce(&date))
}

/// `chrono::NaiveDate::from_ymd_opt(year, month, day)`, then
/// `checked_sub_signed(TimeDelta::seconds(seconds))`, then
/// `num_days_from_ce`. The result is named.
#[verifier::external_body]
fn date_minus_seconds(year: i32, month: u32, day: u32, seconds: i64) -> (r: Option<i32>)
    requires
        spec_seconds_ok(seconds as int),
    ensures
        match r {
            Some(v) => spec_shifted_days(year as int, month as int, day as int, seconds as int, false) == Some(v as int),
            None => spec_shifted_days(year as int, month as int, day as int, seconds as int, false) is None,
        },
{
    chrono::NaiveDate::from_ymd_opt(year, month, day)
        .and_then(|date| date.checked_sub_signed(chrono::TimeDelta::seconds(seconds)))
        .map(|date| chrono::Datelike::num_days_from_ce(&date))
}

/// The magnitude of an integer.
pub open spec fn spec_abs(s: int) -> int {
    if s < 0 { -s } else { s }
}

/// Rust's `/` on integers: rounding toward zero.
pub open spec fn spec_trunc_div(a: int, b: int) -> int {
    if a >= 0 { a / b } else { -((-a) / b) }
}

/// Rust's `%` on integers: the remainder of `/`, with the sign of `a`.
pub open spec fn spec_trunc_rem(a: int, b: int) -> int {
    a - b * spec_trunc_div(a, b)
}

/// The year step: the duration's whole 365-day years are added to (or
/// taken from) the year, and the duration loses them. `None` where the day
/// would not exist, the year would not fit, or the rest is no duration.
pub open spec fn spec_year_step(y: int, m: int, d: int, s: int, add: bool) -> Option<(int, int)> {
    let n = spec_abs(s) / (YEAR as int);
    if n == 0 {
        Some((y, s))
    } else {
        let y2 = if add { y + n } else { y - n };
        let rest = s - (YEAR as int) * n;
        if i32::MIN <= y2 <= i32::MAX && spec_date_exists(y2, m, d) && spec_seconds_ok(rest) {
            Some((y2, rest))
        } else {
            None
        }
    }
}

/// The month step: the duration's whole 30-day months move the month, and
/// the duration loses them. Adding carries past December into the year
/// (the month is the sum modulo 12, so a sum of 12 gives month 0, which is
/// no day); taking away subtracts the months modulo 12 and the years as
/// Rust's `/` and `%` do on the count as an `i32`, and adds 12 to a
/// negative month. `None` where the result is no day, or does not fit.
pub open spec fn spec_month_step(y: int, m: int, d: int, s: int, add: bool) -> Option<(int, int, int)> {
    let n = spec_abs(s) / (MONTH as int);
    if n == 0 {
        Some((y, m, s))
    } else {
        let rest = s - (MONTH as int) * n;
        if add {
            let total = m + n;
            let y2 = y + total / 12;
            let m2 = total % 12;
            if total <= u32::MAX && i32::MIN <= y2 <= i32::MAX && spec_date_exists(y2, m2, d) && spec_seconds_ok(rest) {
                Some((y2, m2, rest))
            } else {
                None
            }
        } else {
            let ni = (n as i32) as int;
            let y2 = y - spec_trunc_div(ni, 12);
            let raw = m - spec_trunc_rem(ni, 12);
            let m2 = if raw < 0 { raw + 12 } else { raw };
            if i32::MIN <= y2 <= i32::MAX && spec_date_exists(y2, m2, d) && spec_seconds_ok(rest) {
                Some((y2, m2, rest))
            } else {
                None
            }
        }
    }
}

/// A day moved by a duration of `seconds`, forward when `add`: the year
/// step, the month step, then the rest of the duration in whole days.
/// `None` where the day does not exist or a step gives no day.
pub open spec fn spec_shift_date(year: int, month: int, day: int, seconds: int, add: bool) -> Option<int> {
    if !spec_date_exists(year, month, day) {
        None
    } else {
        match spec_year_step(year, month, day, seconds, add) {
            None => None,
            Some((y1, s1)) => match spec_month_step(y1, month, day, s1, add) {
                None => None,
                Some((y2, m2, s2)) => spec_shifted_days(y2, m2, day, s2, add),
            },
        }
    }
}

/// Moves the day `year-month-day` by a duration of `seconds`, forward when
/// `add` and back otherwise: whole 365-day years first, then whole 30-day
/// months, then the rest as whole days. Gives the day counted from 1
/// January of year 1, or `None` where the day does not exist or a step
/// gives a day that does not exist or does not fit.
pub fn shift_date(year: i32, month: u32, day: u32, seconds: i64, add: bool) -> (r: Option<i32>)
    requires
        spec_seconds_ok(seconds as int),
    ensures
        match r {
            Some(v) => spec_shift_date(year as int, month as int, day as int, seconds as int, add) == Some(v as int),
            None => spec_shift_date(year as int, month as int, day as int, seconds as int, add) is None,
        },
{
    if !date_exists(year, month, day) {
        return None;
    }
    // The year step.
    let abs_seconds: i64 = if seconds < 0 { -seconds } else { seconds };
    let years: i64 = abs_seconds / YEAR;
    let mut y: i32 = year;
    let mut s: i64 = seconds;
    if years != 0 {
        let y2: i64 = if add { year as i64 + years } else { year as i64 - years };
        let rest: i64 = seconds - YEAR * years;
        if !(-2147483648 <= y2 && y2 <= 2147483647) {
            return None;
        }
        if !(-9223372036854775 <= rest && rest <= 9223372036854775) {
            return None;
        }
        if !date_exists(y2 as i32, month, day) {
            return None;
        }
        y = y2 as i32;
        s = rest;
    }
    assert(spec_year_step(year as int, month as int, day as int, seconds as int, add) == Some((y as int, s as int)));
    // The month step.
    let ghost y1 = y;
    let ghost s1 = s;
    let abs_rest: i64 = if s < 0 { -s } else { s };
    let months: i64 = abs_rest / MONTH;
    let mut m: u32 = month;
    if months != 0 {
        let rest: i64 = s - MONTH * months;
        let y2: i64;
        let m2: i64;
        if add {
            let total: i64 = month as i64 + months;
            if total > 4294967295 {
                return None;
            }
            y2 = y as i64 + total / 12;
            m2 = total % 12;
        } else {
            let ni: i32 = months as i32;
            let wide: i64 = ni as i64;
            let quotient: i64 = if wide >= 0 { wide / 12 } else { 0 - ((0 - wide) / 12) };
            let remainder: i64 = wide - 12 * quotient;
            y2 = y as i64 - quotient;
            let raw: i64 = month as i64 - remainder;
            m2 = if raw < 0 { raw + 12 } else { raw };
        }
        if !(-2147483648 <= y2 && y2 <= 2147483647) {
            return None;
        }
        if !(-9223372036854775 <= rest && rest <= 9223372036854775) {
            return None;
        }
        if !(0 <= m2 && m2 <= 4294967295) {
            return None;
        }
        if !date_exists(y2 as i32, m2 as u32, day) {
            return None;
        }
        y = y2 as i32;
        m = m2 as u32;
        s = rest;
    }
    assert(spec_month_step(y1 as int, month as int, day as int, s1 as int, add) == Some((y as int, m as int, s as int)));
    if add {
        date_plus_seconds(y, m, day, s)
    } else {
        date_minus_seconds(y, m, day, s)
    }
}

} // verus!
