//! Boundary computation: the first interval for a span's begin, and the
//! next interval after a given interval begin, for each grouping.
//!
//! A *boundary* is an absolute instant that starts a bucket of the selected
//! grouping: local midnight for days, Monday local midnight for weeks, the
//! first of the month at local midnight for months. "Local" means shifted
//! by a fixed offset west of the canonical reference. An interval runs from
//! one boundary to the next boundary minus the end precision.

use crate::calendar::{
    day_of_civil, is_month_first_day, lemma_day_in_month_bracket, lemma_day_of_civil_range,
    lemma_month_start_succ, lemma_no_month_start_between, lemma_year_of_day_in_range, valid_ym,
    weekday_of_day,
};
use crate::calendar::div_mod_floor;
use crate::civil::{civil_from_day, day_from_civil, month_after};
use crate::grouping::Grouping;
use crate::time::{
    instant_in_range, precision_in_range, Duration, Instant, NANOS_PER_DAY, NANOS_PER_SECOND,
    NANOS_PER_WEEK,
};
use vstd::arithmetic::div_mod::{
    lemma_div_multiples_vanish, lemma_fundamental_div_mod, lemma_mod_add_multiples_vanish,
    lemma_mod_division_less_than_divisor, lemma_mod_multiples_basic,
};
use vstd::prelude::*;

verus! {

/// Bound on the instants the step functions accept: wide enough that the
/// interval walker's intermediate boundaries, which may overshoot the
/// requested span by a month plus the precision, stay inside it.
pub const MAX_WALK_NANOS: i128 = 4_200_000_000_000_000_000_000;

/// Whether an instant value lies within the range the step functions
/// accept.
pub open spec fn walk_in_range(t: int) -> bool {
    -MAX_WALK_NANOS <= t <= MAX_WALK_NANOS
}

/// The instant `t` expressed in the local reference `w` seconds west of
/// the canonical reference.
pub open spec fn local_nanos(t: int, w: int) -> int {
    t - w * (NANOS_PER_SECOND as int)
}

/// The absolute instant of local midnight of local day number `k`.
pub open spec fn instant_of_day(k: int, w: int) -> int {
    k * (NANOS_PER_DAY as int) + w * (NANOS_PER_SECOND as int)
}

/// Whether local day number `k` starts a bucket of grouping `g`.
pub open spec fn day_matches(g: Grouping, k: int) -> bool {
    match g {
        Grouping::PerDay => true,
        Grouping::PerWeek => weekday_of_day(k) == 0,
        Grouping::PerMonth => is_month_first_day(k),
    }
}

/// Whether the absolute instant `t` is a bucket boundary of grouping `g`
/// for the local reference `w` seconds west: local midnight of a matching
/// local day.
#[verifier::opaque]
pub open spec fn is_boundary(g: Grouping, w: int, t: int) -> bool {
    &&& local_nanos(t, w) % (NANOS_PER_DAY as int) == 0
    &&& day_matches(g, local_nanos(t, w) / (NANOS_PER_DAY as int))
}

/// Whether `b2` is the first boundary strictly after `b`.
pub open spec fn is_next_boundary(g: Grouping, w: int, b: int, b2: int) -> bool {
    &&& is_boundary(g, w, b2)
    &&& b < b2
    &&& forall|u: int| b < u < b2 ==> !is_boundary(g, w, u)
}

/// Whether `b` is the boundary on which the first interval for a span
/// beginning at `t` starts: the last boundary at or before `t` when the
/// first interval is extended, the first boundary strictly after `t`
/// otherwise.
pub open spec fn is_first_boundary(g: Grouping, w: int, t: int, extend: bool, b: int) -> bool {
    &&& is_boundary(g, w, b)
    &&& if extend {
        b <= t && (forall|u: int| b < u <= t ==> !is_boundary(g, w, u))
    } else {
        t < b && (forall|u: int| t < u < b ==> !is_boundary(g, w, u))
    }
}

/// Whether `(b, e)` is a well-formed interval of grouping `g`: `b` is a
/// boundary and `e` precedes the next boundary by exactly the precision
/// `p`.
pub open spec fn interval_ok(g: Grouping, w: int, p: int, b: int, e: int) -> bool {
    &&& is_boundary(g, w, b)
    &&& is_next_boundary(g, w, b, e + p)
}

/// Local midnight of a matching day is a boundary, and a boundary only of
/// matching days.
proof fn lemma_boundary_of_day(g: Grouping, w: int, k: int)
    ensures
        is_boundary(g, w, instant_of_day(k, w)) <==> day_matches(g, k),
{
    reveal(is_boundary);
    lemma_mod_multiples_basic(k, (NANOS_PER_DAY as int));
    lemma_div_multiples_vanish(k, (NANOS_PER_DAY as int));
    assert(local_nanos(instant_of_day(k, w), w) == k * (NANOS_PER_DAY as int));
    assert(k * (NANOS_PER_DAY as int) == (NANOS_PER_DAY as int) * k);
}

/// If no local day in the open range `(k1, k2)` matches the grouping, then
/// no boundary lies in `(lo, instant_of_day(k2, w))` for any `lo` at or
/// after local midnight of day `k1`.
proof fn lemma_no_boundary_in_span(g: Grouping, w: int, lo: int, k1: int, k2: int)
    requires
        instant_of_day(k1, w) <= lo,
        k1 < k2,
        forall|k: int| k1 < k < k2 ==> !day_matches(g, k),
    ensures
        forall|u: int| lo < u < instant_of_day(k2, w) ==> !is_boundary(g, w, u),
{
    reveal(is_boundary);
    assert forall|u: int| lo < u < instant_of_day(k2, w) implies !is_boundary(g, w, u) by {
        if is_boundary(g, w, u) {
            let ln = local_nanos(u, w);
            lemma_fundamental_div_mod(ln, (NANOS_PER_DAY as int));
            let k = ln / (NANOS_PER_DAY as int);
            assert(ln == (NANOS_PER_DAY as int) * k);
            assert((NANOS_PER_DAY as int) * k > k1 * (NANOS_PER_DAY as int));
            assert((NANOS_PER_DAY as int) * k < k2 * (NANOS_PER_DAY as int));
            assert(k1 < k < k2);
            assert(!day_matches(g, k));
        }
    }
}

/// Stepping a day number by a week keeps its weekday.
proof fn lemma_weekday_step_week(k: int)
    ensures
        weekday_of_day(k + 7) == weekday_of_day(k),
{
    lemma_mod_add_multiples_vanish(k + 3, 7);
}

/// No day strictly between a Monday and the Monday a week later is a
/// Monday.
proof fn lemma_no_monday_between(k: int, j: int)
    requires
        weekday_of_day(k) == 0,
        k < j < k + 7,
    ensures
        weekday_of_day(j) != 0,
{
    lemma_fundamental_div_mod(k + 3, 7);
    lemma_fundamental_div_mod(j + 3, 7);
    lemma_mod_division_less_than_divisor(j + 3, 7);
    if weekday_of_day(j) == 0 {
        let qk = (k + 3) / 7;
        let qj = (j + 3) / 7;
        assert(j - k == 7 * qj - 7 * qk);
    }
}

/// Law: what a boundary looks like in local calendar terms — it falls on
/// local midnight (time-of-day zero) of a day that starts a bucket of the
/// grouping: any day for days, a Monday for weeks, a first of the month
/// for months.
pub proof fn lemma_boundary_fields(g: Grouping, w: int, t: int)
    requires
        is_boundary(g, w, t),
    ensures
        local_nanos(t, w) % (NANOS_PER_DAY as int) == 0,
        day_matches(g, local_nanos(t, w) / (NANOS_PER_DAY as int)),
{
    reveal(is_boundary);
}

/// Law: what an interval end looks like in local calendar terms, for a
/// precision of at most a day. It falls on the day before the next
/// boundary, at the last moment of that day permitted by the precision
/// (`23:59:59.999...` for one millisecond); for the per-day grouping that
/// day is the interval's own day, and for the per-week grouping it is a
/// Sunday.
pub proof fn lemma_end_fields(g: Grouping, w: int, p: int, b: int, e: int)
    requires
        interval_ok(g, w, p, b, e),
        0 < p <= NANOS_PER_DAY as int,
    ensures
        local_nanos(e, w) / (NANOS_PER_DAY as int) == local_nanos(e + p, w) / (
        NANOS_PER_DAY as int) - 1,
        local_nanos(e, w) % (NANOS_PER_DAY as int) == (NANOS_PER_DAY as int) - p,
        g is PerDay ==> local_nanos(e, w) / (NANOS_PER_DAY as int) == local_nanos(b, w) / (
        NANOS_PER_DAY as int),
        g is PerWeek ==> weekday_of_day(local_nanos(e, w) / (NANOS_PER_DAY as int)) == 6,
{
    reveal(is_boundary);
    let ln2 = local_nanos(e + p, w);
    lemma_fundamental_div_mod(ln2, NANOS_PER_DAY as int);
    let k2 = ln2 / (NANOS_PER_DAY as int);
    assert(ln2 == (NANOS_PER_DAY as int) * k2);
    vstd::arithmetic::div_mod::lemma_fundamental_div_mod_converse(
        local_nanos(e, w),
        NANOS_PER_DAY as int,
        k2 - 1,
        (NANOS_PER_DAY as int) - p,
    );
    match g {
        Grouping::PerDay => {
            let lnb = local_nanos(b, w);
            lemma_fundamental_div_mod(lnb, NANOS_PER_DAY as int);
            let kb = lnb / (NANOS_PER_DAY as int);
            assert(lnb == (NANOS_PER_DAY as int) * kb);
            lemma_boundary_of_day(Grouping::PerDay, w, kb + 1);
            assert(b + (NANOS_PER_DAY as int) == instant_of_day(kb + 1, w));
            assert(e + p >= b + (NANOS_PER_DAY as int));
            if e + p > b + (NANOS_PER_DAY as int) {
                assert(!is_boundary(g, w, b + (NANOS_PER_DAY as int)));
            }
            assert(e + p == b + (NANOS_PER_DAY as int));
        },
        Grouping::PerWeek => {
            assert(weekday_of_day(k2) == 0);
            lemma_fundamental_div_mod(k2 + 3, 7);
            let q = (k2 + 3) / 7;
            vstd::arithmetic::div_mod::lemma_fundamental_div_mod_converse(
                k2 + 2,
                7,
                q - 1,
                6,
            );
        },
        Grouping::PerMonth => {
        },
    }
}

/// The local day number of `t` in the reference `w` seconds west, with the
/// nanosecond of day as remainder.
fn local_day_of(t: i128, offset_west_seconds: i32) -> (r: (i128, i128))
    requires
        walk_in_range(t as int),
    ensures
        r.0 == local_nanos(t as int, offset_west_seconds as int) / (NANOS_PER_DAY as int),
        r.1 == local_nanos(t as int, offset_west_seconds as int) % (NANOS_PER_DAY as int),
        local_nanos(t as int, offset_west_seconds as int) == r.0 * (NANOS_PER_DAY as int) + r.1,
        0 <= r.1 < (NANOS_PER_DAY as int),
        -50_000_000 <= r.0 <= 50_000_000,
{
    let w9: i128 = (offset_west_seconds as i128) * NANOS_PER_SECOND;
    let ln = t - w9;
    let (day, rem) = div_mod_floor(ln, NANOS_PER_DAY);
    proof {
        lemma_fundamental_div_mod(ln as int, (NANOS_PER_DAY as int));
        lemma_mod_division_less_than_divisor(ln as int, (NANOS_PER_DAY as int));
    }
    (day, rem)
}

/// The initial per-day interval for a span beginning at `begin`: the day
/// of `begin`'s local date if extended, the following day otherwise.
pub fn get_initial_begin_end_times_day(
    begin: Instant,
    offset_west_seconds: i32,
    end_precision: Duration,
    extend_begin: bool,
) -> (r: (Instant, Instant))
    requires
        instant_in_range(begin@),
        precision_in_range(end_precision@),
    ensures
        is_first_boundary(
            Grouping::PerDay,
            offset_west_seconds as int,
            begin@,
            extend_begin,
            r.0@,
        ),
        interval_ok(Grouping::PerDay, offset_west_seconds as int, end_precision@, r.0@, r.1@),
        r.1@ == r.0@ + (NANOS_PER_DAY as int) - end_precision@,
        begin@ - 32 * (NANOS_PER_DAY as int) < r.0@ <= begin@ + 32 * (NANOS_PER_DAY as int),
{
    let ghost w = offset_west_seconds as int;
    let t = begin.as_nanos();
    let (day, rem) = local_day_of(t, offset_west_seconds);
    let floor_abs = t - rem;
    let b0 = if extend_begin {
        floor_abs
    } else {
        floor_abs + NANOS_PER_DAY
    };
    let e0 = b0 + NANOS_PER_DAY - end_precision.as_nanos();
    proof {
        assert(floor_abs as int == instant_of_day(day as int, w));
        lemma_boundary_of_day(Grouping::PerDay, w, day as int);
        lemma_boundary_of_day(Grouping::PerDay, w, day as int + 1);
        lemma_boundary_of_day(Grouping::PerDay, w, day as int + 2);
        lemma_no_boundary_in_span(Grouping::PerDay, w, floor_abs as int, day as int, day as int + 1);
        lemma_no_boundary_in_span(
            Grouping::PerDay,
            w,
            instant_of_day(day as int + 1, w),
            day as int + 1,
            day as int + 2,
        );
        assert(begin@ < instant_of_day(day as int + 1, w));
    }
    (Instant::from_nanos(b0), Instant::from_nanos(e0))
}

/// The initial per-week interval for a span beginning at `begin`: the week
/// of `begin`'s local date, Monday to Sunday, if extended, the following
/// week otherwise.
pub fn get_initial_begin_end_times_week(
    begin: Instant,
    offset_west_seconds: i32,
    end_precision: Duration,
    extend_begin: bool,
) -> (r: (Instant, Instant))
    requires
        instant_in_range(begin@),
        precision_in_range(end_precision@),
    ensures
        is_first_boundary(
            Grouping::PerWeek,
            offset_west_seconds as int,
            begin@,
            extend_begin,
            r.0@,
        ),
        interval_ok(Grouping::PerWeek, offset_west_seconds as int, end_precision@, r.0@, r.1@),
        r.1@ == r.0@ + (NANOS_PER_WEEK as int) - end_precision@,
        begin@ - 32 * (NANOS_PER_DAY as int) < r.0@ <= begin@ + 32 * (NANOS_PER_DAY as int),
{
    let ghost w = offset_west_seconds as int;
    let t = begin.as_nanos();
    let (day, rem) = local_day_of(t, offset_west_seconds);
    let (_q7, wd) = div_mod_floor(day + 3, 7);
    let monday = day - wd;
    let floor_abs = t - rem - wd * NANOS_PER_DAY;
    let b0 = if extend_begin {
        floor_abs
    } else {
        floor_abs + NANOS_PER_WEEK
    };
    let e0 = b0 + NANOS_PER_WEEK - end_precision.as_nanos();
    proof {
        let md = monday as int;
        lemma_fundamental_div_mod(day as int + 3, 7);
        lemma_mod_division_less_than_divisor(day as int + 3, 7);
        assert(md + 3 == 7 * _q7);
        lemma_mod_multiples_basic(_q7 as int, 7);
        assert((md + 3) % 7 == 0);
        assert(weekday_of_day(md) == 0);
        lemma_weekday_step_week(md);
        lemma_weekday_step_week(md + 7);
        assert(floor_abs as int == instant_of_day(md, w));
        lemma_boundary_of_day(Grouping::PerWeek, w, md);
        lemma_boundary_of_day(Grouping::PerWeek, w, md + 7);
        lemma_boundary_of_day(Grouping::PerWeek, w, md + 14);
        assert forall|k: int| md < k < md + 7 implies !day_matches(Grouping::PerWeek, k) by {
            lemma_no_monday_between(md, k);
        }
        assert forall|k: int| md + 7 < k < md + 14 implies !day_matches(Grouping::PerWeek, k) by {
            lemma_no_monday_between(md + 7, k);
        }
        lemma_no_boundary_in_span(Grouping::PerWeek, w, floor_abs as int, md, md + 7);
        lemma_no_boundary_in_span(Grouping::PerWeek, w, instant_of_day(md + 7, w), md + 7, md + 14);
        assert(begin@ < instant_of_day(day as int + 1, w));
        assert(instant_of_day(day as int + 1, w) <= instant_of_day(md + 7, w));
    }
    (Instant::from_nanos(b0), Instant::from_nanos(e0))
}

/// The initial per-month interval for a span beginning at `begin`: the
/// calendar month of `begin`'s local date if extended, the following month
/// otherwise.
pub fn get_initial_begin_end_times_month(
    begin: Instant,
    offset_west_seconds: i32,
    end_precision: Duration,
    extend_begin: bool,
) -> (r: (Instant, Instant))
    requires
        instant_in_range(begin@),
        precision_in_range(end_precision@),
    ensures
        is_first_boundary(
            Grouping::PerMonth,
            offset_west_seconds as int,
            begin@,
            extend_begin,
            r.0@,
        ),
        interval_ok(Grouping::PerMonth, offset_west_seconds as int, end_precision@, r.0@, r.1@),
        begin@ - 32 * (NANOS_PER_DAY as int) < r.0@ <= begin@ + 32 * (NANOS_PER_DAY as int),
        r.0@ < r.1@ + end_precision@ <= r.0@ + 31 * (NANOS_PER_DAY as int),
{
    let ghost w = offset_west_seconds as int;
    let t = begin.as_nanos();
    let (day, rem) = local_day_of(t, offset_west_seconds);
    let (y, m, dd) = civil_from_day(day as i64);
    let ms_day: i128 = day - (dd as i128 - 1);
    proof {
        assert(day_of_civil(y as int, m as int, 1) == ms_day as int);
        lemma_year_of_day_in_range(y as int, m as int, dd as int);
        lemma_day_in_month_bracket(y as int, m as int, dd as int);
    }
    let (yn, mn) = month_after(y, m);
    let next1: i128 = day_from_civil(yn, mn, 1) as i128;
    proof {
        lemma_day_of_civil_range(yn as int, mn as int, 1);
        lemma_month_start_succ(y as int, m as int);
        assert forall|k: int| (ms_day as int) < k < (next1 as int) implies !day_matches(
            Grouping::PerMonth,
            k,
        ) by {
            lemma_no_month_start_between(y as int, m as int, k);
        }
    }
    let w9: i128 = (offset_west_seconds as i128) * NANOS_PER_SECOND;
    if extend_begin {
        let b0 = ms_day * NANOS_PER_DAY + w9;
        let e0 = next1 * NANOS_PER_DAY + w9 - end_precision.as_nanos();
        proof {
            assert(b0 as int == instant_of_day(ms_day as int, w));
            assert(is_month_first_day(ms_day as int));
            assert(is_month_first_day(next1 as int)) by {
                assert(valid_ym(yn as int, mn as int) && day_of_civil(yn as int, mn as int, 1)
                    == next1 as int);
            }
            lemma_boundary_of_day(Grouping::PerMonth, w, ms_day as int);
            lemma_boundary_of_day(Grouping::PerMonth, w, next1 as int);
            lemma_no_boundary_in_span(
                Grouping::PerMonth,
                w,
                b0 as int,
                ms_day as int,
                next1 as int,
            );
            assert(begin@ < instant_of_day(day as int + 1, w));
            assert(instant_of_day(day as int + 1, w) <= instant_of_day(next1 as int, w));
        }
        (Instant::from_nanos(b0), Instant::from_nanos(e0))
    } else {
        let (ynn, mnn) = month_after(yn, mn);
        let next2: i128 = day_from_civil(ynn, mnn, 1) as i128;
        let b0 = next1 * NANOS_PER_DAY + w9;
        let e0 = next2 * NANOS_PER_DAY + w9 - end_precision.as_nanos();
        proof {
            lemma_day_of_civil_range(ynn as int, mnn as int, 1);
            lemma_month_start_succ(yn as int, mn as int);
            assert(b0 as int == instant_of_day(next1 as int, w));
            assert(is_month_first_day(next1 as int)) by {
                assert(valid_ym(yn as int, mn as int) && day_of_civil(yn as int, mn as int, 1)
                    == next1 as int);
            }
            assert(is_month_first_day(next2 as int)) by {
                assert(valid_ym(ynn as int, mnn as int) && day_of_civil(ynn as int, mnn as int, 1)
                    == next2 as int);
            }
            lemma_boundary_of_day(Grouping::PerMonth, w, next1 as int);
            lemma_boundary_of_day(Grouping::PerMonth, w, next2 as int);
            assert forall|k: int| (next1 as int) < k < (next2 as int) implies !day_matches(
                Grouping::PerMonth,
                k,
            ) by {
                lemma_no_month_start_between(yn as int, mn as int, k);
            }
            lemma_no_boundary_in_span(
                Grouping::PerMonth,
                w,
                begin@,
                ms_day as int,
                next1 as int,
            );
            lemma_no_boundary_in_span(
                Grouping::PerMonth,
                w,
                b0 as int,
                next1 as int,
                next2 as int,
            );
            assert(instant_of_day(ms_day as int, w) <= begin@);
            assert(begin@ < instant_of_day(next1 as int, w));
        }
        (Instant::from_nanos(b0), Instant::from_nanos(e0))
    }
}

/// The per-day interval following the interval that begins at `cur_begin`:
/// begin and end shift forward by 24 hours.
pub fn get_next_begin_end_times_day(cur_begin: Instant, end_precision: Duration) -> (r: (
    Instant,
    Instant,
))
    requires
        walk_in_range(cur_begin@),
        precision_in_range(end_precision@),
    ensures
        r.0@ == cur_begin@ + (NANOS_PER_DAY as int),
        r.1@ == r.0@ + (NANOS_PER_DAY as int) - end_precision@,
        forall|w: int|
            #[trigger] is_boundary(Grouping::PerDay, w, cur_begin@) ==> is_next_boundary(
                Grouping::PerDay,
                w,
                cur_begin@,
                r.0@,
            ) && interval_ok(Grouping::PerDay, w, end_precision@, r.0@, r.1@),
{
    let b = cur_begin.as_nanos() + NANOS_PER_DAY;
    let e = b + NANOS_PER_DAY - end_precision.as_nanos();
    proof {
        assert forall|w: int| #[trigger]
            is_boundary(Grouping::PerDay, w, cur_begin@) implies is_next_boundary(
            Grouping::PerDay,
            w,
            cur_begin@,
            b as int,
        ) && interval_ok(Grouping::PerDay, w, end_precision@ as int, b as int, e as int) by {
            reveal(is_boundary);
            let ln = local_nanos(cur_begin@, w);
            lemma_fundamental_div_mod(ln, (NANOS_PER_DAY as int));
            let k = ln / (NANOS_PER_DAY as int);
            assert(cur_begin@ == instant_of_day(k, w));
            lemma_boundary_of_day(Grouping::PerDay, w, k);
            lemma_boundary_of_day(Grouping::PerDay, w, k + 1);
            lemma_boundary_of_day(Grouping::PerDay, w, k + 2);
            assert(b as int == instant_of_day(k + 1, w));
            assert(e + end_precision@ == instant_of_day(k + 2, w));
            lemma_no_boundary_in_span(Grouping::PerDay, w, cur_begin@, k, k + 1);
            lemma_no_boundary_in_span(Grouping::PerDay, w, b as int, k + 1, k + 2);
        }
    }
    (Instant::from_nanos(b), Instant::from_nanos(e))
}

/// The per-week interval following the interval that begins at
/// `cur_begin`: begin and end shift forward by seven days.
pub fn get_next_begin_end_times_week(cur_begin: Instant, end_precision: Duration) -> (r: (
    Instant,
    Instant,
))
    requires
        walk_in_range(cur_begin@),
        precision_in_range(end_precision@),
    ensures
        r.0@ == cur_begin@ + (NANOS_PER_WEEK as int),
        r.1@ == r.0@ + (NANOS_PER_WEEK as int) - end_precision@,
        forall|w: int|
            #[trigger] is_boundary(Grouping::PerWeek, w, cur_begin@) ==> is_next_boundary(
                Grouping::PerWeek,
                w,
                cur_begin@,
                r.0@,
            ) && interval_ok(Grouping::PerWeek, w, end_precision@, r.0@, r.1@),
{
    let b = cur_begin.as_nanos() + NANOS_PER_WEEK;
    let e = b + NANOS_PER_WEEK - end_precision.as_nanos();
    proof {
        assert forall|w: int| #[trigger]
            is_boundary(Grouping::PerWeek, w, cur_begin@) implies is_next_boundary(
            Grouping::PerWeek,
            w,
            cur_begin@,
            b as int,
        ) && interval_ok(Grouping::PerWeek, w, end_precision@ as int, b as int, e as int) by {
            reveal(is_boundary);
            let ln = local_nanos(cur_begin@, w);
            lemma_fundamental_div_mod(ln, (NANOS_PER_DAY as int));
            let k = ln / (NANOS_PER_DAY as int);
            assert(cur_begin@ == instant_of_day(k, w));
            lemma_weekday_step_week(k);
            lemma_weekday_step_week(k + 7);
            lemma_boundary_of_day(Grouping::PerWeek, w, k);
            lemma_boundary_of_day(Grouping::PerWeek, w, k + 7);
            lemma_boundary_of_day(Grouping::PerWeek, w, k + 14);
            assert(b as int == instant_of_day(k + 7, w));
            assert(e + end_precision@ == instant_of_day(k + 14, w));
            assert forall|j: int| k < j < k + 7 implies !day_matches(Grouping::PerWeek, j) by {
                lemma_no_monday_between(k, j);
            }
            assert forall|j: int| k + 7 < j < k + 14 implies !day_matches(
                Grouping::PerWeek,
                j,
            ) by {
                lemma_no_monday_between(k + 7, j);
            }
            lemma_no_boundary_in_span(Grouping::PerWeek, w, cur_begin@, k, k + 7);
            lemma_no_boundary_in_span(Grouping::PerWeek, w, b as int, k + 7, k + 14);
        }
    }
    (Instant::from_nanos(b), Instant::from_nanos(e))
}

/// The per-month interval following the interval that begins at
/// `cur_begin`: it begins on the first of the month after `cur_begin`'s
/// local month and ends before the month after that.
pub fn get_next_begin_end_times_month(
    cur_begin: Instant,
    end_precision: Duration,
    offset_west_seconds: i32,
) -> (r: (Instant, Instant))
    requires
        walk_in_range(cur_begin@),
        precision_in_range(end_precision@),
    ensures
        is_next_boundary(Grouping::PerMonth, offset_west_seconds as int, cur_begin@, r.0@),
        interval_ok(Grouping::PerMonth, offset_west_seconds as int, end_precision@, r.0@, r.1@),
        cur_begin@ < r.0@ <= cur_begin@ + 32 * (NANOS_PER_DAY as int),
        r.0@ < r.1@ + end_precision@ <= r.0@ + 31 * (NANOS_PER_DAY as int),
{
    let ghost w = offset_west_seconds as int;
    let t = cur_begin.as_nanos();
    let (day, _rem) = local_day_of(t, offset_west_seconds);
    let (y, m, dd) = civil_from_day(day as i64);
    let ms_day: i128 = day - (dd as i128 - 1);
    proof {
        assert(day_of_civil(y as int, m as int, 1) == ms_day as int);
        lemma_year_of_day_in_range(y as int, m as int, dd as int);
        lemma_day_in_month_bracket(y as int, m as int, dd as int);
    }
    let (yn, mn) = month_after(y, m);
    let next1: i128 = day_from_civil(yn, mn, 1) as i128;
    let (ynn, mnn) = month_after(yn, mn);
    let next2: i128 = day_from_civil(ynn, mnn, 1) as i128;
    let w9: i128 = (offset_west_seconds as i128) * NANOS_PER_SECOND;
    let b = next1 * NANOS_PER_DAY + w9;
    let e = next2 * NANOS_PER_DAY + w9 - end_precision.as_nanos();
    proof {
        lemma_day_of_civil_range(yn as int, mn as int, 1);
        lemma_day_of_civil_range(ynn as int, mnn as int, 1);
        lemma_month_start_succ(y as int, m as int);
        lemma_month_start_succ(yn as int, mn as int);
        assert(b as int == instant_of_day(next1 as int, w));
        assert(is_month_first_day(next1 as int)) by {
            assert(valid_ym(yn as int, mn as int) && day_of_civil(yn as int, mn as int, 1)
                == next1 as int);
        }
        assert(is_month_first_day(next2 as int)) by {
            assert(valid_ym(ynn as int, mnn as int) && day_of_civil(ynn as int, mnn as int, 1)
                == next2 as int);
        }
        lemma_boundary_of_day(Grouping::PerMonth, w, next1 as int);
        lemma_boundary_of_day(Grouping::PerMonth, w, next2 as int);
        assert forall|k: int| (ms_day as int) < k < (next1 as int) implies !day_matches(
            Grouping::PerMonth,
            k,
        ) by {
            lemma_no_month_start_between(y as int, m as int, k);
        }
        assert forall|k: int| (next1 as int) < k < (next2 as int) implies !day_matches(
            Grouping::PerMonth,
            k,
        ) by {
            lemma_no_month_start_between(yn as int, mn as int, k);
        }
        lemma_no_boundary_in_span(Grouping::PerMonth, w, cur_begin@, ms_day as int, next1 as int);
        lemma_no_boundary_in_span(Grouping::PerMonth, w, b as int, next1 as int, next2 as int);
        assert(instant_of_day(ms_day as int, w) <= cur_begin@);
        assert(cur_begin@ < instant_of_day(next1 as int, w));
    }
    (Instant::from_nanos(b), Instant::from_nanos(e))
}

} // verus!
