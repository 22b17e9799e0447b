use chrono::{Datelike, NaiveDate};
use smartcalc::calendar::shift_date;

fn days(year: i32, month: u32, day: u32) -> i32 {
    NaiveDate::from_ymd_opt(year, month, day).unwrap().num_days_from_ce()
}

const DAY: i64 = 86400;
const MONTH: i64 = 30 * DAY;
const YEAR: i64 = 365 * DAY;

#[test]
fn whole_years_move_the_year() {
    assert_eq!(shift_date(2021, 1, 31, YEAR, true), Some(days(2022, 1, 31)));
    assert_eq!(shift_date(2021, 1, 31, 2 * YEAR + 3 * DAY, true), Some(days(2023, 2, 3)));
    assert_eq!(shift_date(2021, 1, 31, YEAR, false), Some(days(2020, 1, 31)));
    assert_eq!(shift_date(2020, 2, 29, YEAR, true), None);
}

#[test]
fn whole_months_move_the_month() {
    assert_eq!(shift_date(2020, 3, 15, MONTH, true), Some(days(2020, 4, 15)));
    assert_eq!(shift_date(2020, 3, 15, 2 * MONTH + DAY, true), Some(days(2020, 5, 16)));
    assert_eq!(shift_date(2020, 3, 15, MONTH, false), Some(days(2020, 2, 15)));
    assert_eq!(shift_date(2020, 1, 15, 3 * MONTH, false), Some(days(2020, 10, 15)));
    assert_eq!(shift_date(2020, 11, 15, MONTH, true), None);
    assert_eq!(shift_date(2020, 10, 15, 4 * MONTH, true), Some(days(2021, 2, 15)));
}

#[test]
fn the_rest_moves_whole_days() {
    assert_eq!(shift_date(2020, 3, 15, 3 * DAY + 7, true), Some(days(2020, 3, 18)));
    assert_eq!(shift_date(2020, 3, 15, 3 * DAY + 7, false), Some(days(2020, 3, 12)));
    assert_eq!(shift_date(2020, 3, 15, 0, true), Some(days(2020, 3, 15)));
    assert_eq!(shift_date(2020, 2, 30, 0, true), None);
}

#[test]
fn days_exist_as_the_gregorian_calendar_says() {
    assert_eq!(shift_date(2000, 2, 29, 0, true), Some(days(2000, 2, 29)));
    assert_eq!(shift_date(1900, 2, 29, 0, true), None);
    assert_eq!(shift_date(2021, 2, 29, 0, true), None);
    assert_eq!(shift_date(2020, 4, 31, 0, true), None);
    assert_eq!(shift_date(2020, 13, 1, 0, true), None);
    assert_eq!(shift_date(2020, 1, 0, 0, true), None);
    assert_eq!(shift_date(262142, 12, 31, 0, true), Some(days(262142, 12, 31)));
    assert_eq!(shift_date(262143, 1, 1, 0, true), None);
    assert_eq!(shift_date(-262143, 1, 1, 0, true), Some(days(-262143, 1, 1)));
    assert_eq!(shift_date(-262144, 12, 31, 0, true), None);
    assert_eq!(shift_date(-4, 2, 29, 0, true), Some(days(-4, 2, 29)));
}
