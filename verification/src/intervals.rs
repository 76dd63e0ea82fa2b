//! The interval walker: partition a `[begin, end)` span into
//! calendar-aligned intervals of the selected grouping.
//!
//! The returned sequence is characterized exactly by [`intervals_spec`]:
//! every interval runs from one boundary to the next boundary minus the
//! precision, consecutive intervals are contiguous modulo the precision
//! gap, the first interval encloses or follows `begin` as selected, and
//! the sequence stops right where `end` falls, with the enclosing interval
//! kept or dropped as selected.

use crate::boundaries::{
    get_initial_begin_end_times_day, get_initial_begin_end_times_month,
    get_initial_begin_end_times_week, get_next_begin_end_times_day, get_next_begin_end_times_month,
    get_next_begin_end_times_week, interval_ok, is_boundary, is_first_boundary, is_next_boundary,
    walk_in_range,
};
use crate::grouping::Grouping;
use crate::time::{
    instant_in_range, precision_in_range, Duration, Instant, NANOS_PER_DAY, NANOS_PER_MILLISECOND,
};
use vstd::prelude::*;

verus! {

/// The views of a sequence of interval pairs: each instant as its count of
/// nanoseconds since the epoch.
pub open spec fn seq_view(v: Seq<(Instant, Instant)>) -> Seq<(int, int)> {
    Seq::new(v.len(), |i: int| (v[i].0@, v[i].1@))
}

/// Whether `s` is a well-formed run of intervals of grouping `g`: every
/// entry spans one bucket, and each begin follows the previous end by
/// exactly the precision gap `p`.
pub open spec fn chain_ok(s: Seq<(int, int)>, g: Grouping, w: int, p: int) -> bool {
    &&& (forall|i: int| 0 <= i < s.len() ==> interval_ok(g, w, p, s[i].0, s[i].1))
    &&& (forall|i: int| 0 <= i < s.len() - 1 ==> s[i + 1].0 == s[i].1 + p)
}

/// Whether `full` is the complete walk for the span `[begin, end)`: a
/// non-empty contiguous run of intervals whose first begin is the boundary
/// selected for `begin`, whose intermediate ends fall short of `end`, and
/// whose last end reaches or passes `end`.
pub open spec fn walk_complete(
    full: Seq<(int, int)>,
    begin: int,
    end: int,
    g: Grouping,
    w: int,
    p: int,
    extend_begin: bool,
) -> bool {
    &&& full.len() >= 1
    &&& chain_ok(full, g, w, p)
    &&& is_first_boundary(g, w, begin, extend_begin, full[0].0)
    &&& (forall|i: int| 0 <= i < full.len() - 1 ==> full[i].1 < end)
    &&& full.last().1 >= end
}

/// The exact characterization of a generated interval sequence: empty for
/// a degenerate span; otherwise the complete walk, with the final
/// interval — the one whose end reaches or passes `end` — kept when
/// `extend_end` is set and dropped otherwise.
pub open spec fn intervals_spec(
    s: Seq<(int, int)>,
    begin: int,
    end: int,
    g: Grouping,
    w: int,
    p: int,
    extend_begin: bool,
    extend_end: bool,
) -> bool {
    if begin >= end {
        s.len() == 0
    } else if extend_end {
        walk_complete(s, begin, end, g, w, p, extend_begin)
    } else {
        exists|pending: (int, int)|
            walk_complete(#[trigger] s.push(pending), begin, end, g, w, p, extend_begin)
    }
}

/// There is only one first boundary strictly after `b`.
pub proof fn lemma_next_boundary_unique(g: Grouping, w: int, b: int, x: int, y: int)
    requires
        is_next_boundary(g, w, b, x),
        is_next_boundary(g, w, b, y),
    ensures
        x == y,
{
    if x < y {
        assert(!is_boundary(g, w, x));
    }
    if y < x {
        assert(!is_boundary(g, w, y));
    }
}

/// Mapping to views commutes with appending an interval.
proof fn lemma_seq_view_push(v: Seq<(Instant, Instant)>, x: (Instant, Instant))
    ensures
        seq_view(v.push(x)) == seq_view(v).push((x.0@, x.1@)),
{
    assert(seq_view(v.push(x)) =~= seq_view(v).push((x.0@, x.1@)));
}

/// Appending an interval that spans the next bucket and follows the last
/// end by the precision gap keeps a run well-formed.
proof fn lemma_chain_push(s: Seq<(int, int)>, x: (int, int), g: Grouping, w: int, p: int)
    requires
        chain_ok(s, g, w, p),
        s.len() > 0 ==> x.0 == s.last().1 + p,
        interval_ok(g, w, p, x.0, x.1),
    ensures
        chain_ok(s.push(x), g, w, p),
{
    let t = s.push(x);
    assert forall|i: int| 0 <= i < t.len() implies interval_ok(g, w, p, t[i].0, t[i].1) by {
        if i < s.len() {
            assert(t[i] == s[i]);
        }
    }
    assert forall|i: int| 0 <= i < t.len() - 1 implies t[i + 1].0 == t[i].1 + p by {
        if i < s.len() - 1 {
            assert(t[i] == s[i] && t[i + 1] == s[i + 1]);
        } else {
            assert(t[i] == s.last() && t[i + 1] == x);
        }
    }
}

/// The ordered sequence of calendar-aligned intervals of grouping
/// `grouping` covering the span `[begin, end)`.
///
/// Boundaries are aligned in the reference `offset_west_seconds` seconds
/// west of the canonical reference; each interval ends `end_precision`
/// before the boundary that starts the next one. `extend_begin` selects
/// whether the first interval starts on the boundary at or before `begin`
/// or on the one after it; `extend_end` selects whether the last interval
/// ends at or after `end` or before it. A degenerate span (`begin >= end`)
/// yields an empty sequence.
#[verifier::rlimit(100)]
pub fn get_intervals_impl(
    begin: Instant,
    end: Instant,
    grouping: &Grouping,
    end_precision: Duration,
    offset_west_seconds: i32,
    extend_begin: bool,
    extend_end: bool,
) -> (r: Vec<(Instant, Instant)>)
    requires
        instant_in_range(begin@),
        instant_in_range(end@),
        precision_in_range(end_precision@),
    ensures
        intervals_spec(
            seq_view(r@),
            begin@,
            end@,
            *grouping,
            offset_west_seconds as int,
            end_precision@,
            extend_begin,
            extend_end,
        ),
{
    let ghost g = *grouping;
    let ghost w = offset_west_seconds as int;
    let ghost p = end_precision@;
    let ghost pos_p: int = if p >= 0 {
        p
    } else {
        0
    };
    if !begin.is_before(&end) {
        let r: Vec<(Instant, Instant)> = Vec::new();
        proof {
            assert(seq_view(r@) =~= Seq::<(int, int)>::empty());
        }
        return r;
    }
    let (mut cur_begin, mut cur_end) = match *grouping {
        Grouping::PerDay => get_initial_begin_end_times_day(
            begin,
            offset_west_seconds,
            end_precision,
            extend_begin,
        ),
        Grouping::PerWeek => get_initial_begin_end_times_week(
            begin,
            offset_west_seconds,
            end_precision,
            extend_begin,
        ),
        Grouping::PerMonth => get_initial_begin_end_times_month(
            begin,
            offset_west_seconds,
            end_precision,
            extend_begin,
        ),
    };
    let mut intervals: Vec<(Instant, Instant)> = Vec::new();
    proof {
        assert(seq_view(intervals@) =~= Seq::<(int, int)>::empty());
    }
    while cur_end.is_before(&end)
        invariant
            instant_in_range(begin@),
            instant_in_range(end@),
            precision_in_range(p),
            begin@ < end@,
            g == *grouping,
            w == offset_west_seconds as int,
            p == end_precision@,
            (pos_p == if p >= 0 {
                p
            } else {
                0
            }),
            interval_ok(g, w, p, cur_begin@, cur_end@),
            begin@ - 32 * (NANOS_PER_DAY as int) < cur_begin@,
            cur_begin@ <= end@ + pos_p + 32 * (NANOS_PER_DAY as int),
            chain_ok(seq_view(intervals@).push((cur_begin@, cur_end@)), g, w, p),
            is_first_boundary(
                g,
                w,
                begin@,
                extend_begin,
                seq_view(intervals@).push((cur_begin@, cur_end@))[0].0,
            ),
            forall|i: int|
                0 <= i < intervals@.len() ==> (#[trigger] seq_view(intervals@)[i]).1 < end@,
        decreases (if cur_end@ < end@ {
            end@ - cur_end@
        } else {
            0int
        }),
    {
        let ghost pre = intervals@;
        let prev = (cur_begin, cur_end);
        intervals.push(prev);
        proof {
            lemma_seq_view_push(pre, prev);
        }
        let nxt = match *grouping {
            Grouping::PerDay => get_next_begin_end_times_day(cur_begin, end_precision),
            Grouping::PerWeek => get_next_begin_end_times_week(cur_begin, end_precision),
            Grouping::PerMonth => get_next_begin_end_times_month(
                cur_begin,
                end_precision,
                offset_west_seconds,
            ),
        };
        proof {
            assert(is_boundary(g, w, cur_begin@));
            assert(is_next_boundary(g, w, cur_begin@, nxt.0@));
            assert(interval_ok(g, w, p, nxt.0@, nxt.1@));
            lemma_next_boundary_unique(g, w, cur_begin@, cur_end@ + p, nxt.0@);
            assert(nxt.0@ == cur_end@ + p);
            let chained = seq_view(pre).push((cur_begin@, cur_end@));
            assert(seq_view(intervals@) == chained);
            assert(chained.last() == (cur_begin@, cur_end@));
            lemma_chain_push(chained, (nxt.0@, nxt.1@), g, w, p);
            assert(seq_view(intervals@).push((nxt.0@, nxt.1@))[0] == chained[0]);
            assert forall|i: int| 0 <= i < intervals@.len() implies (#[trigger] seq_view(
                intervals@,
            )[i]).1 < end@ by {
                if i < pre.len() {
                    assert(seq_view(intervals@)[i] == seq_view(pre)[i]);
                } else {
                    assert(seq_view(intervals@)[i] == (cur_begin@, cur_end@));
                }
            }
            assert(nxt.1@ + p > nxt.0@);
        }
        cur_begin = nxt.0;
        cur_end = nxt.1;
    }
    let ghost full = seq_view(intervals@).push((cur_begin@, cur_end@));
    proof {
        assert(walk_complete(full, begin@, end@, g, w, p, extend_begin)) by {
            assert(chain_ok(full, g, w, p));
            assert(full.last() == (cur_begin@, cur_end@));
            assert(cur_end@ >= end@);
            assert forall|i: int| 0 <= i < full.len() - 1 implies full[i].1 < end@ by {
                assert(full[i] == seq_view(intervals@)[i]);
            }
        }
    }
    if extend_end {
        let ghost pre = intervals@;
        intervals.push((cur_begin, cur_end));
        proof {
            lemma_seq_view_push(pre, (cur_begin, cur_end));
            assert(seq_view(intervals@) == full);
        }
    } else {
        proof {
            assert(walk_complete(
                seq_view(intervals@).push((cur_begin@, cur_end@)),
                begin@,
                end@,
                g,
                w,
                p,
                extend_begin,
            ));
        }
    }
    intervals
}

/// The interval sequence with caller-chosen precision and extension flags,
/// in the canonical (UTC) reference.
///
/// Bucket boundaries (begin of a day, week, month) are shifted
/// `offset_west_seconds` towards the west, allowing to retrieve e.g. day
/// intervals starting on the day boundary in a local timezone.
/// `end_precision` determines how much time before an interval boundary
/// the previous interval ends. If `extend_begin` is true, the first
/// interval starts on the interval boundary **before** `begin`, otherwise
/// on the interval boundary after it. If `extend_end` is true, the last
/// interval ends at the interval boundary **after** `end`, otherwise
/// before it.
pub fn get_utc_intervals_opts(
    begin: Instant,
    end: Instant,
    grouping: &Grouping,
    offset_west_seconds: i32,
    end_precision: Duration,
    extend_begin: bool,
    extend_end: bool,
) -> (r: Vec<(Instant, Instant)>)
    requires
        instant_in_range(begin@),
        instant_in_range(end@),
        precision_in_range(end_precision@),
    ensures
        intervals_spec(
            seq_view(r@),
            begin@,
            end@,
            *grouping,
            offset_west_seconds as int,
            end_precision@,
            extend_begin,
            extend_end,
        ),
{
    get_intervals_impl(
        begin,
        end,
        grouping,
        end_precision,
        offset_west_seconds,
        extend_begin,
        extend_end,
    )
}

/// The interval sequence with the default options: both extension flags
/// set, so the intervals enclose `begin` and `end`, and a precision of one
/// millisecond, so each interval ends one millisecond before the next
/// boundary.
pub fn get_extended_utc_intervals_with_defaults(
    begin: Instant,
    end: Instant,
    grouping: &Grouping,
    offset_west_seconds: i32,
) -> (r: Vec<(Instant, Instant)>)
    requires
        instant_in_range(begin@),
        instant_in_range(end@),
    ensures
        intervals_spec(
            seq_view(r@),
            begin@,
            end@,
            *grouping,
            offset_west_seconds as int,
            NANOS_PER_MILLISECOND as int,
            true,
            true,
        ),
{
    get_intervals_impl(
        begin,
        end,
        grouping,
        Duration::milliseconds(1),
        offset_west_seconds,
        true,
        true,
    )
}

/// Law: a degenerate span yields an empty sequence whatever the other
/// options are, and a proper span with end extension always yields at
/// least one interval.
pub proof fn lemma_emptiness(
    s: Seq<(int, int)>,
    begin: int,
    end: int,
    g: Grouping,
    w: int,
    p: int,
    extend_begin: bool,
    extend_end: bool,
)
    requires
        intervals_spec(s, begin, end, g, w, p, extend_begin, extend_end),
    ensures
        begin >= end ==> s.len() == 0,
        begin < end && extend_end ==> s.len() >= 1,
{
}

/// Law: adjacent intervals are contiguous modulo the precision gap: each
/// begin lies exactly `p` after the previous end.
pub proof fn lemma_contiguity(
    s: Seq<(int, int)>,
    begin: int,
    end: int,
    g: Grouping,
    w: int,
    p: int,
    extend_begin: bool,
    extend_end: bool,
)
    requires
        intervals_spec(s, begin, end, g, w, p, extend_begin, extend_end),
    ensures
        forall|i: int| 0 <= i < s.len() - 1 ==> s[i + 1].0 == s[i].1 + p,
{
    if begin < end && !extend_end {
        let pending = choose|pending: (int, int)|
            walk_complete(#[trigger] s.push(pending), begin, end, g, w, p, extend_begin);
        let full = s.push(pending);
        assert forall|i: int| 0 <= i < s.len() - 1 implies s[i + 1].0 == s[i].1 + p by {
            assert(full[i] == s[i] && full[i + 1] == s[i + 1]);
        }
    }
}

/// Law: every interval begin is a boundary of the grouping, and adding
/// the precision to every interval end yields exactly the next boundary
/// (midnight, next Monday, first of the following month).
pub proof fn lemma_alignment(
    s: Seq<(int, int)>,
    begin: int,
    end: int,
    g: Grouping,
    w: int,
    p: int,
    extend_begin: bool,
    extend_end: bool,
)
    requires
        intervals_spec(s, begin, end, g, w, p, extend_begin, extend_end),
    ensures
        forall|i: int| 0 <= i < s.len() ==> is_boundary(g, w, (#[trigger] s[i]).0),
        forall|i: int| 0 <= i < s.len() ==> is_next_boundary(g, w, (#[trigger] s[i]).0, s[i].1 + p),
{
    if begin < end {
        if extend_end {
            assert forall|i: int| 0 <= i < s.len() implies is_boundary(g, w, (#[trigger] s[i]).0)
                && is_next_boundary(g, w, s[i].0, s[i].1 + p) by {
                assert(interval_ok(g, w, p, s[i].0, s[i].1));
            }
        } else {
            let pending = choose|pending: (int, int)|
                walk_complete(#[trigger] s.push(pending), begin, end, g, w, p, extend_begin);
            let full = s.push(pending);
            assert forall|i: int| 0 <= i < s.len() implies is_boundary(g, w, (#[trigger] s[i]).0)
                && is_next_boundary(g, w, s[i].0, s[i].1 + p) by {
                assert(full[i] == s[i]);
                assert(interval_ok(g, w, p, full[i].0, full[i].1));
            }
        }
    }
}

/// Law: the intervals enclose the requested span exactly as the extension
/// flags select. With begin extension the first interval starts at or
/// before `begin` — exactly at it precisely when `begin` falls on a
/// boundary — and without it strictly after `begin`. With end extension
/// the last interval ends at or past `end`, and without it every interval
/// ends strictly before `end`.
pub proof fn lemma_enclosure(
    s: Seq<(int, int)>,
    begin: int,
    end: int,
    g: Grouping,
    w: int,
    p: int,
    extend_begin: bool,
    extend_end: bool,
)
    requires
        intervals_spec(s, begin, end, g, w, p, extend_begin, extend_end),
        s.len() > 0,
    ensures
        extend_begin ==> s[0].0 <= begin,
        extend_begin ==> (s[0].0 == begin <==> is_boundary(g, w, begin)),
        !extend_begin ==> s[0].0 > begin,
        extend_end ==> s.last().1 >= end,
        !extend_end ==> (forall|i: int| 0 <= i < s.len() ==> (#[trigger] s[i]).1 < end),
{
    assert(begin < end);
    if extend_end {
        assert(is_first_boundary(g, w, begin, extend_begin, s[0].0));
    } else {
        let pending = choose|pending: (int, int)|
            walk_complete(#[trigger] s.push(pending), begin, end, g, w, p, extend_begin);
        let full = s.push(pending);
        assert(full[0] == s[0]);
        assert(is_first_boundary(g, w, begin, extend_begin, s[0].0));
        assert forall|i: int| 0 <= i < s.len() implies (#[trigger] s[i]).1 < end by {
            assert(full[i] == s[i]);
            assert(0 <= i < full.len() - 1);
        }
    }
    if extend_begin {
        if s[0].0 == begin {
            assert(is_boundary(g, w, begin));
        }
        if is_boundary(g, w, begin) && s[0].0 < begin {
            assert(!is_boundary(g, w, begin));
        }
    }
}

/// There is only one boundary on which the first interval can start.
proof fn lemma_first_boundary_unique(g: Grouping, w: int, t: int, extend: bool, b1: int, b2: int)
    requires
        is_first_boundary(g, w, t, extend, b1),
        is_first_boundary(g, w, t, extend, b2),
    ensures
        b1 == b2,
{
    if extend {
        if b1 < b2 {
            assert(!is_boundary(g, w, b2));
        }
        if b2 < b1 {
            assert(!is_boundary(g, w, b1));
        }
    } else {
        if b1 < b2 {
            assert(!is_boundary(g, w, b1));
        }
        if b2 < b1 {
            assert(!is_boundary(g, w, b2));
        }
    }
}

/// Two complete walks for the same span agree on every entry up to the
/// shorter length.
proof fn lemma_walk_prefix_eq(
    full1: Seq<(int, int)>,
    full2: Seq<(int, int)>,
    begin: int,
    end: int,
    g: Grouping,
    w: int,
    p: int,
    extend_begin: bool,
    i: int,
)
    requires
        walk_complete(full1, begin, end, g, w, p, extend_begin),
        walk_complete(full2, begin, end, g, w, p, extend_begin),
        0 <= i < full1.len(),
        i < full2.len(),
    ensures
        full1[i] == full2[i],
    decreases i,
{
    if i == 0 {
        lemma_first_boundary_unique(g, w, begin, extend_begin, full1[0].0, full2[0].0);
    } else {
        lemma_walk_prefix_eq(full1, full2, begin, end, g, w, p, extend_begin, i - 1);
        assert(full1[i].0 == full1[i - 1].1 + p);
        assert(full2[i].0 == full2[i - 1].1 + p);
    }
    assert(interval_ok(g, w, p, full1[i].0, full1[i].1));
    assert(interval_ok(g, w, p, full2[i].0, full2[i].1));
    lemma_next_boundary_unique(g, w, full1[i].0, full1[i].1 + p, full2[i].1 + p);
}

/// Two complete walks for the same span are equal.
proof fn lemma_walk_complete_unique(
    full1: Seq<(int, int)>,
    full2: Seq<(int, int)>,
    begin: int,
    end: int,
    g: Grouping,
    w: int,
    p: int,
    extend_begin: bool,
)
    requires
        walk_complete(full1, begin, end, g, w, p, extend_begin),
        walk_complete(full2, begin, end, g, w, p, extend_begin),
    ensures
        full1 == full2,
{
    if full1.len() < full2.len() {
        lemma_walk_prefix_eq(full1, full2, begin, end, g, w, p, extend_begin, full1.len() - 1);
        assert(full2[full1.len() - 1].1 < end);
        assert(full1.last().1 >= end);
    }
    if full2.len() < full1.len() {
        lemma_walk_prefix_eq(full2, full1, begin, end, g, w, p, extend_begin, full2.len() - 1);
        assert(full1[full2.len() - 1].1 < end);
        assert(full2.last().1 >= end);
    }
    assert forall|i: int| 0 <= i < full1.len() implies full1[i] == full2[i] by {
        lemma_walk_prefix_eq(full1, full2, begin, end, g, w, p, extend_begin, i);
    }
    assert(full1 =~= full2);
}

/// Law: the characterization admits exactly one sequence — any two
/// sequences that satisfy it for the same inputs are equal, so the
/// contract determines the generated intervals completely.
pub proof fn lemma_intervals_spec_unique(
    s1: Seq<(int, int)>,
    s2: Seq<(int, int)>,
    begin: int,
    end: int,
    g: Grouping,
    w: int,
    p: int,
    extend_begin: bool,
    extend_end: bool,
)
    requires
        intervals_spec(s1, begin, end, g, w, p, extend_begin, extend_end),
        intervals_spec(s2, begin, end, g, w, p, extend_begin, extend_end),
    ensures
        s1 == s2,
{
    if begin >= end {
        assert(s1 =~= s2);
    } else if extend_end {
        lemma_walk_complete_unique(s1, s2, begin, end, g, w, p, extend_begin);
    } else {
        let p1 = choose|pending: (int, int)|
            walk_complete(#[trigger] s1.push(pending), begin, end, g, w, p, extend_begin);
        let p2 = choose|pending: (int, int)|
            walk_complete(#[trigger] s2.push(pending), begin, end, g, w, p, extend_begin);
        lemma_walk_complete_unique(s1.push(p1), s2.push(p2), begin, end, g, w, p, extend_begin);
        assert(s1.len() == s2.len());
        assert forall|i: int| 0 <= i < s1.len() implies s1[i] == s2[i] by {
            assert(s1.push(p1)[i] == s1[i]);
            assert(s2.push(p2)[i] == s2[i]);
        }
        assert(s1 =~= s2);
    }
}

/// Law: shifting the local reference `k` seconds further west shifts
/// every boundary of the grouping `k` seconds later in the canonical
/// reference (and a shift towards the east, `k` negative, shifts them
/// earlier).
pub proof fn lemma_offset_shift(g: Grouping, w: int, k: int, t: int)
    ensures
        is_boundary(g, w, t) <==> is_boundary(
            g,
            w + k,
            t + k * (crate::time::NANOS_PER_SECOND as int),
        ),
{
    reveal(is_boundary);
    assert(crate::boundaries::local_nanos(t + k * (crate::time::NANOS_PER_SECOND as int), w + k)
        == crate::boundaries::local_nanos(t, w));
}

} // verus!
