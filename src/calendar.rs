use chrono::NaiveDate;
use vstd::prelude::*;

verus! {

/// The years that a calendar date can have
pub open spec fn year_in_range(year: int) -> bool {
    -262143 <= year <= 262142
}

/// A leap year of the proleptic Gregorian calendar
pub open spec fn is_leap(year: int) -> bool {
    (year % 4 == 0 && year % 100 != 0) || year % 400 == 0
}

/// The number of days in month `month` of year `year`
pub open spec fn days_in_month(year: int, month: int) -> int {
    if month == 2 {
        if is_leap(year) {
            29
        } else {
            28
        }
    } else if month == 4 || month == 6 || month == 9 || month == 11 {
        30
    } else {
        31
    }
}

/// The day `(year, month, day)` exists
pub open spec fn ymd_valid(year: int, month: int, day: int) -> bool {
    year_in_range(year) && 1 <= month <= 12 && 1 <= day <= days_in_month(year, month)
}

/// The day number of `(year, month, day)` in the proleptic Gregorian
/// calendar, counting 1970-01-01 as day 0: whole 400-year eras from a year
/// that starts in March, then the years and days within the era
pub open spec fn civil_days(year: int, month: int, day: int) -> int {
    let y = if month <= 2 { year - 1 } else { year };
    let era = y / 400;
    let yoe = y - era * 400;
    let mp = if month > 2 { month - 3 } else { month + 9 };
    let doy = (153 * mp + 2) / 5 + day - 1;
    let doe = yoe * 365 + yoe / 4 - yoe / 100 + doy;
    era * 146097 + doe - 719468
}

/// The day number of the calendar date `(year, month, day)`, counting
/// 1970-01-01 as day 0, if that date exists
pub open spec fn ymd_epoch_days(year: i32, month: u32, day: u32) -> Option<i32> {
    if ymd_valid(year as int, month as int, day as int) {
        Some(civil_days(year as int, month as int, day as int) as i32)
    } else {
        None
    }
}

/// Relies on chrono's `NaiveDate::from_ymd_opt`, which gives `None` exactly
/// for a year outside its range, a month outside 1 to 12, or a day that the
/// month does not have, and on `NaiveDate::to_epoch_days` for the day number
/// of the date it made
#[verifier::external_body]
pub(crate) fn epoch_days_of_ymd(year: i32, month: u32, day: u32) -> (r: Option<i32>)
    ensures
        r == ymd_epoch_days(year, month, day),
{
    match NaiveDate::from_ymd_opt(year, month, day) {
        Some(d) => Some(d.to_epoch_days()),
        None => None,
    }
}

} // verus!
