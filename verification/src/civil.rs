//! Conversions between day numbers and civil dates.
//!
//! Calendar field extraction and construction are delegated to the external
//! date arithmetic library; everything stated about the two calls is pinned
//! to the crate's own [`crate::calendar::day_of_civil`] correspondence.

use crate::calendar::{
    day_of_civil, next_ym, valid_civil, valid_ym, MAX_CIVIL_DAY,
};
use chrono::Datelike;
use vstd::prelude::*;

verus! {

/// Bound on the years accepted by civil date construction, chosen inside
/// the year range the external date library represents (roughly ±262000).
pub const MAX_YMD_YEAR: i128 = 250_000;

/// The civil date `day` days after 1970-01-01 (before it for negative
/// `day`), as `(year, month, day-of-month)`.
///
/// Relies on `chrono::NaiveDate::from_epoch_days`, whose day 0 is
/// 1970-01-01, and on the `chrono::Datelike` field accessors `year`,
/// `month` and `day`: together they return exactly the proleptic Gregorian
/// date of the given day number.
#[verifier::external_body]
pub fn civil_from_day(day: i64) -> (r: (i32, u32, u32))
    requires
        -(MAX_CIVIL_DAY as int) <= day as int <= MAX_CIVIL_DAY as int,
    ensures
        valid_civil(r.0 as int, r.1 as int, r.2 as int),
        day_of_civil(r.0 as int, r.1 as int, r.2 as int) == day as int,
{
    let date = chrono::NaiveDate::from_epoch_days(day as i32).unwrap();
    (date.year(), date.month(), date.day())
}

/// The day number (days since 1970-01-01) of the civil date `(y, m, d)`.
///
/// Relies on `chrono::NaiveDate::from_ymd_opt` and
/// `chrono::Datelike::num_days_from_ce`, whose day 1 is 0001-01-01: the
/// proleptic Gregorian date `(y, m, d)` lies 719163 days after that, plus
/// its day number.
#[verifier::external_body]
pub fn day_from_civil(y: i32, m: u32, d: u32) -> (r: i64)
    requires
        valid_civil(y as int, m as int, d as int),
        -(MAX_YMD_YEAR as int) <= y as int <= MAX_YMD_YEAR as int,
    ensures
        r as int == day_of_civil(y as int, m as int, d as int),
{
    let date = chrono::NaiveDate::from_ymd_opt(y, m, d).unwrap();
    (date.num_days_from_ce() as i64) - 719_163
}

/// The calendar month following month `m` of year `y`, rolling the year at
/// December.
pub fn month_after(y: i32, m: u32) -> (r: (i32, u32))
    requires
        valid_ym(y as int, m as int),
        y < i32::MAX,
    ensures
        r.0 as int == next_ym(y as int, m as int).0,
        r.1 as int == next_ym(y as int, m as int).1,
        valid_ym(r.0 as int, r.1 as int),
{
    if m == 12 {
        (y + 1, 1)
    } else {
        (y, m + 1)
    }
}

} // verus!
