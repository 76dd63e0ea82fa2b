//! The proleptic Gregorian calendar as integer arithmetic on day numbers.
//!
//! A *day number* counts civil days since the epoch day 1970-01-01 (negative
//! before it). The spec functions here define the correspondence between day
//! numbers and civil dates (year, month, day-of-month), the Monday-based
//! weekday of a day number, and which day numbers start a calendar month.
//! The proof functions establish the facts the boundary computations rest
//! on: how month starts step, that month starts are strictly ordered, and
//! that no month start falls strictly between two consecutive ones.

use vstd::arithmetic::div_mod::{
    lemma_fundamental_div_mod, lemma_fundamental_div_mod_converse,
    lemma_mod_division_less_than_divisor,
};
use vstd::prelude::*;

verus! {

/// Days from 0001-01-01 to the epoch day 1970-01-01.
pub const DAYS_FROM_YEAR_1_TO_EPOCH: i128 = 719_162;

/// Bound on the day numbers accepted by calendar field extraction, chosen
/// well inside the range that the underlying calendar library represents
/// (its years span roughly &#177;262000; this bound stays near &#177;164000).
pub const MAX_CIVIL_DAY: i128 = 60_000_000;

/// Bound on the years that correspond to day numbers within
/// [`MAX_CIVIL_DAY`]; see `lemma_year_of_day_in_range`.
pub const MAX_CIVIL_YEAR: i128 = 200_000;

/// Whether year `y` is a leap year in the proleptic Gregorian calendar.
pub open spec fn is_leap_year(y: int) -> bool {
    y % 4 == 0 && (y % 100 != 0 || y % 400 == 0)
}

/// The number of days in month `m` of year `y` (for `1 <= m <= 12`).
pub open spec fn days_in_month(y: int, m: int) -> int {
    if m == 2 {
        if is_leap_year(y) {
            29
        } else {
            28
        }
    } else if m == 4 || m == 6 || m == 9 || m == 11 {
        30
    } else {
        31
    }
}

/// The number of days from the first of January of year `y` to the first of
/// month `m` of year `y`.
pub open spec fn days_before_month(y: int, m: int) -> int
    decreases m,
{
    if m <= 1 {
        0
    } else {
        days_before_month(y, m - 1) + days_in_month(y, m - 1)
    }
}

/// The number of leap years among the years `1, ..., y - 1` (negative
/// counts extend the pattern to years before year 1).
pub open spec fn leap_years_before(y: int) -> int {
    (y - 1) / 4 - (y - 1) / 100 + (y - 1) / 400
}

/// The number of days from 0001-01-01 to the first of January of year `y`.
pub open spec fn days_before_year(y: int) -> int {
    365 * (y - 1) + leap_years_before(y)
}

/// Whether `m` is a month number.
pub open spec fn valid_ym(y: int, m: int) -> bool {
    1 <= m <= 12
}

/// Whether `(y, m, d)` is a civil date of the proleptic Gregorian calendar.
pub open spec fn valid_civil(y: int, m: int, d: int) -> bool {
    valid_ym(y, m) && 1 <= d <= days_in_month(y, m)
}

/// The day number of the civil date `(y, m, d)`: days since 1970-01-01.
pub open spec fn day_of_civil(y: int, m: int, d: int) -> int {
    days_before_year(y) + days_before_month(y, m) + (d - 1) - DAYS_FROM_YEAR_1_TO_EPOCH
}

/// The calendar month following month `m` of year `y`, rolling the year at
/// December.
pub open spec fn next_ym(y: int, m: int) -> (int, int) {
    if m == 12 {
        (y + 1, 1)
    } else {
        (y, m + 1)
    }
}

/// Months in linear order: consecutive months differ by one.
pub open spec fn month_index(y: int, m: int) -> int {
    12 * y + m
}

/// Whether day number `dn` is the first day of some calendar month.
pub open spec fn is_month_first_day(dn: int) -> bool {
    exists|y: int, m: int| valid_ym(y, m) && #[trigger] day_of_civil(y, m, 1) == dn
}

/// The Monday-based weekday of day number `dn` (Monday = 0, ..., Sunday =
/// 6). The epoch day 1970-01-01 is a Thursday, index 3.
pub open spec fn weekday_of_day(dn: int) -> int {
    (dn + 3) % 7
}

/// For a positive divisor, stepping the dividend down by one steps the
/// quotient down exactly at the multiples.
pub proof fn lemma_div_step(a: int, n: int)
    requires
        n > 0,
    ensures
        a / n - (a - 1) / n == if a % n == 0 {
            1int
        } else {
            0int
        },
{
    lemma_fundamental_div_mod(a, n);
    lemma_mod_division_less_than_divisor(a, n);
    assert((a / n - 1) * n == (a / n) * n - n) by (nonlinear_arith);
    assert(n * (a / n) == (a / n) * n) by (nonlinear_arith);
    if a % n == 0 {
        lemma_fundamental_div_mod_converse(a - 1, n, a / n - 1, n - 1);
    } else {
        lemma_fundamental_div_mod_converse(a - 1, n, a / n, a % n - 1);
    }
}

/// If `a` is divisible by 400 it is divisible by 100 and by 4; if it is
/// divisible by 100 it is divisible by 4.
pub proof fn lemma_leap_divisor_chain(a: int)
    ensures
        a % 400 == 0 ==> a % 100 == 0 && a % 4 == 0,
        a % 100 == 0 ==> a % 4 == 0,
{
    lemma_fundamental_div_mod(a, 400);
    lemma_fundamental_div_mod(a, 100);
    lemma_mod_division_less_than_divisor(a, 400);
    lemma_mod_division_less_than_divisor(a, 100);
    if a % 400 == 0 {
        assert((4 * (a / 400)) * 100 == 400 * (a / 400)) by (nonlinear_arith);
        assert((100 * (a / 400)) * 4 == 400 * (a / 400)) by (nonlinear_arith);
        lemma_fundamental_div_mod_converse(a, 100, 4 * (a / 400), 0);
        lemma_fundamental_div_mod_converse(a, 4, 100 * (a / 400), 0);
    }
    if a % 100 == 0 {
        assert((25 * (a / 100)) * 4 == 100 * (a / 100)) by (nonlinear_arith);
        lemma_fundamental_div_mod_converse(a, 4, 25 * (a / 100), 0);
    }
}

/// Stepping a year forward adds 366 days for a leap year and 365 days
/// otherwise.
pub proof fn lemma_days_before_year_step(y: int)
    ensures
        days_before_year(y + 1) - days_before_year(y) == if is_leap_year(y) {
            366int
        } else {
            365int
        },
{
    lemma_div_step(y, 4);
    lemma_div_step(y, 100);
    lemma_div_step(y, 400);
    lemma_leap_divisor_chain(y);
}

/// The days of months one through twelve of year `y` sum to a full year.
pub proof fn lemma_days_before_month_full_year(y: int)
    ensures
        days_before_month(y, 12) + days_in_month(y, 12) == if is_leap_year(y) {
            366int
        } else {
            365int
        },
{
    assert(days_before_month(y, 1) == 0);
    assert(days_before_month(y, 2) == days_before_month(y, 1) + days_in_month(y, 1));
    assert(days_before_month(y, 3) == days_before_month(y, 2) + days_in_month(y, 2));
    assert(days_before_month(y, 4) == days_before_month(y, 3) + days_in_month(y, 3));
    assert(days_before_month(y, 5) == days_before_month(y, 4) + days_in_month(y, 4));
    assert(days_before_month(y, 6) == days_before_month(y, 5) + days_in_month(y, 5));
    assert(days_before_month(y, 7) == days_before_month(y, 6) + days_in_month(y, 6));
    assert(days_before_month(y, 8) == days_before_month(y, 7) + days_in_month(y, 7));
    assert(days_before_month(y, 9) == days_before_month(y, 8) + days_in_month(y, 8));
    assert(days_before_month(y, 10) == days_before_month(y, 9) + days_in_month(y, 9));
    assert(days_before_month(y, 11) == days_before_month(y, 10) + days_in_month(y, 10));
    assert(days_before_month(y, 12) == days_before_month(y, 11) + days_in_month(y, 11));
}

/// The first of the month after `(y, m)` lies exactly `days_in_month(y, m)`
/// days after the first of `(y, m)`.
pub proof fn lemma_month_start_succ(y: int, m: int)
    requires
        valid_ym(y, m),
    ensures
        day_of_civil(next_ym(y, m).0, next_ym(y, m).1, 1) == day_of_civil(y, m, 1)
            + days_in_month(y, m),
{
    if m == 12 {
        lemma_days_before_year_step(y);
        lemma_days_before_month_full_year(y);
    }
}

/// Month starts are strictly ordered: an earlier month in the linear order
/// starts a full month of days earlier.
pub proof fn lemma_month_start_mono(y1: int, m1: int, y2: int, m2: int)
    requires
        valid_ym(y1, m1),
        valid_ym(y2, m2),
        month_index(y1, m1) < month_index(y2, m2),
    ensures
        day_of_civil(y1, m1, 1) + days_in_month(y1, m1) <= day_of_civil(y2, m2, 1),
    decreases month_index(y2, m2) - month_index(y1, m1),
{
    let (yn, mn) = next_ym(y1, m1);
    lemma_month_start_succ(y1, m1);
    if month_index(yn, mn) < month_index(y2, m2) {
        lemma_month_start_mono(yn, mn, y2, m2);
    }
}

/// Distinct months have distinct starts, ordered like the months.
pub proof fn lemma_month_start_cmp(y1: int, m1: int, y2: int, m2: int)
    requires
        valid_ym(y1, m1),
        valid_ym(y2, m2),
    ensures
        month_index(y1, m1) < month_index(y2, m2) <==> day_of_civil(y1, m1, 1) < day_of_civil(
            y2,
            m2,
            1,
        ),
        month_index(y1, m1) == month_index(y2, m2) <==> day_of_civil(y1, m1, 1) == day_of_civil(
            y2,
            m2,
            1,
        ),
{
    if month_index(y1, m1) < month_index(y2, m2) {
        lemma_month_start_mono(y1, m1, y2, m2);
    }
    if month_index(y2, m2) < month_index(y1, m1) {
        lemma_month_start_mono(y2, m2, y1, m1);
    }
}

/// No calendar month starts strictly between the first of `(y, m)` and the
/// first of the following month.
pub proof fn lemma_no_month_start_between(y: int, m: int, k: int)
    requires
        valid_ym(y, m),
        day_of_civil(y, m, 1) < k,
        k < day_of_civil(next_ym(y, m).0, next_ym(y, m).1, 1),
    ensures
        !is_month_first_day(k),
{
    let (yn, mn) = next_ym(y, m);
    lemma_month_start_succ(y, m);
    assert forall|y2: int, m2: int| valid_ym(y2, m2) implies #[trigger] day_of_civil(y2, m2, 1)
        != k by {
        lemma_month_start_cmp(y2, m2, y, m);
        if month_index(y, m) < month_index(y2, m2) {
            assert(month_index(yn, mn) <= month_index(y2, m2));
            lemma_month_start_cmp(yn, mn, y2, m2);
        }
    }
}

/// The days from New Year to a month start grow from zero to at most 335.
pub proof fn lemma_days_before_month_bounds(y: int, m: int)
    requires
        valid_ym(y, m),
    ensures
        0 <= days_before_month(y, m) <= 335,
{
    assert(days_before_month(y, 1) == 0);
    assert(days_before_month(y, 2) == days_before_month(y, 1) + days_in_month(y, 1));
    assert(days_before_month(y, 3) == days_before_month(y, 2) + days_in_month(y, 2));
    assert(days_before_month(y, 4) == days_before_month(y, 3) + days_in_month(y, 3));
    assert(days_before_month(y, 5) == days_before_month(y, 4) + days_in_month(y, 4));
    assert(days_before_month(y, 6) == days_before_month(y, 5) + days_in_month(y, 5));
    assert(days_before_month(y, 7) == days_before_month(y, 6) + days_in_month(y, 6));
    assert(days_before_month(y, 8) == days_before_month(y, 7) + days_in_month(y, 7));
    assert(days_before_month(y, 9) == days_before_month(y, 8) + days_in_month(y, 8));
    assert(days_before_month(y, 10) == days_before_month(y, 9) + days_in_month(y, 9));
    assert(days_before_month(y, 11) == days_before_month(y, 10) + days_in_month(y, 10));
    assert(days_before_month(y, 12) == days_before_month(y, 11) + days_in_month(y, 11));
}

/// The leap-year count stays between zero and the year count, on either
/// side of year one.
pub proof fn lemma_leap_years_before_bounds(y: int)
    ensures
        y >= 1 ==> 0 <= leap_years_before(y) <= y - 1,
        y <= 0 ==> y - 4 <= leap_years_before(y) <= 0,
{
    let a = y - 1;
    lemma_fundamental_div_mod(a, 4);
    lemma_fundamental_div_mod(a, 100);
    lemma_fundamental_div_mod(a, 400);
    lemma_mod_division_less_than_divisor(a, 4);
    lemma_mod_division_less_than_divisor(a, 100);
    lemma_mod_division_less_than_divisor(a, 400);
}

/// Civil dates of bounded years have bounded day numbers.
pub proof fn lemma_day_of_civil_range(y: int, m: int, d: int)
    requires
        valid_civil(y, m, d),
        -250_000 <= y <= 250_000,
    ensures
        -100_000_000 <= day_of_civil(y, m, d) <= 100_000_000,
{
    lemma_days_before_month_bounds(y, m);
    lemma_leap_years_before_bounds(y);
}

/// Civil dates with day numbers inside [`MAX_CIVIL_DAY`] have years inside
/// [`MAX_CIVIL_YEAR`].
pub proof fn lemma_year_of_day_in_range(y: int, m: int, d: int)
    requires
        valid_civil(y, m, d),
        -(MAX_CIVIL_DAY as int) <= day_of_civil(y, m, d) <= MAX_CIVIL_DAY as int,
    ensures
        -(MAX_CIVIL_YEAR as int) <= y <= MAX_CIVIL_YEAR as int,
{
    lemma_days_before_month_bounds(y, m);
    lemma_leap_years_before_bounds(y);
}

/// Floor division and the matching remainder, `r.0 * b + r.1 == a` with
/// `0 <= r.1 < b`. These agree with `/` and `%` of the specification
/// language, whose division rounds toward negative infinity for a positive
/// divisor.
pub fn div_mod_floor(a: i128, b: i128) -> (r: (i128, i128))
    requires
        0 < b,
    ensures
        r.0 == a as int / b as int,
        r.1 == a as int % b as int,
{
    proof {
        lemma_fundamental_div_mod(a as int, b as int);
        lemma_mod_division_less_than_divisor(a as int, b as int);
    }
    if a >= 0 {
        let q = ((a as u128) / (b as u128)) as i128;
        let rm = ((a as u128) % (b as u128)) as i128;
        (q, rm)
    } else {
        let n: i128 = -(a + 1);
        let qn = ((n as u128) / (b as u128)) as i128;
        let rn = ((n as u128) % (b as u128)) as i128;
        proof {
            lemma_fundamental_div_mod(n as int, b as int);
            lemma_mod_division_less_than_divisor(n as int, b as int);
            assert((-qn - 1) * b == -(b * qn) - b) by (nonlinear_arith);
            lemma_fundamental_div_mod_converse(a as int, b as int, -qn - 1, b - 1 - rn);
        }
        (-qn - 1, b - 1 - rn)
    }
}

/// A day within a month lies strictly before the start of the following
/// month.
pub proof fn lemma_day_in_month_bracket(y: int, m: int, d: int)
    requires
        valid_civil(y, m, d),
    ensures
        day_of_civil(y, m, 1) <= day_of_civil(y, m, d),
        day_of_civil(y, m, d) < day_of_civil(next_ym(y, m).0, next_ym(y, m).1, 1),
{
    lemma_month_start_succ(y, m);
}

} // verus!
