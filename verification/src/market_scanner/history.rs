//! What a token's price history says about its movement.

use crate::arithmetic::codes_are_ordered;
use crate::arithmetic::large_integers_are_finite;
use crate::arithmetic::nothing_is_taken_away;
use crate::arithmetic::number_of_code;
use crate::arithmetic::numbers_are_ordered;
use crate::arithmetic::one_is_exact;
use crate::arithmetic::one_is_large;
use crate::arithmetic::plus_is_monotone;
use crate::arithmetic::product_is_not_negative;
use crate::arithmetic::products_are_ordered;
use crate::arithmetic::rounding_is_exact;
use crate::arithmetic::rounding_is_monotone;
use crate::arithmetic::small_quotients_are_finite;
use crate::arithmetic::times_commutes;
use crate::arithmetic::times_fraction_shrinks;
use crate::arithmetic::zero_is_exact;
use crate::binary64::magnitude;
use crate::binary64::number;
use crate::binary64::one_in_units;
use crate::binary64::Binary64;
use crate::closeness::differences_are_opposite;
use crate::closeness::epsilon_is_small;
use crate::closeness::plus_keeps_order;
use crate::closeness::product_is_near;
use crate::closeness::quotient_is_near;
use crate::closeness::root_is_near;
use crate::closeness::rounding_is_near;
use crate::closeness::small_sums_are_finite;
use crate::closeness::sum_is_above;
use crate::closeness::sum_is_near;
use crate::closeness::sum_is_nearest;
use crate::numbers::EPSILON;
use crate::numbers::ONE;
use crate::numbers::ZERO;
use crate::rounding::rounded;
use vstd::arithmetic::div_mod::lemma_fundamental_div_mod;
use vstd::prelude::*;

verus! {

pub const INFINITY: u64 = 0x7ff0_0000_0000_0000;

pub const MINUS_INFINITY: u64 = 0xfff0_0000_0000_0000;

/// Seconds in a day.
pub const DAY_SECONDS: i128 = 86_400;

/// How far from a day before the latest point its price may be taken: three hours.
pub const DAY_TOLERANCE_SECONDS: i128 = 10_800;

/// A price at a time in seconds.
#[derive(Clone, Copy, Debug, PartialEq, Eq, Structural)]
pub struct HistoryPoint {
    pub t: i64,
    pub p: Binary64,
}

/// What a history says about movement.
#[derive(Clone, Copy, Debug, PartialEq, Eq, Structural)]
pub struct HistoryStats {
    pub point_count: usize,
    pub range: Binary64,
    pub max_jump: Binary64,
    pub rms_change: Binary64,
    pub change_24h: Option<Binary64>,
}

pub open spec fn spec_is_price(p: Binary64) -> bool {
    p.is_finite() && p.ge(number(ZERO)) && p.le(number(ONE))
}

/// Whether a number is a price: from 0 to 1.
#[verifier::when_used_as_spec(spec_is_price)]
pub fn is_price(p: Binary64) -> (r: bool)
    ensures
        r == is_price(p),
{
    p.is_finite() && p.ge(number(ZERO)) && p.le(number(ONE))
}

/// How many points hold a price.
pub open spec fn priced_count(points: Seq<HistoryPoint>) -> nat
    decreases points.len(),
{
    if points.len() == 0 {
        0
    } else {
        priced_count(points.drop_last()) + if is_price(points.last().p) {
            1nat
        } else {
            0
        }
    }
}

/// The points with one more put in its place in time, unless that time is taken.
pub open spec fn with_point(points: Seq<HistoryPoint>, point: HistoryPoint) -> Seq<HistoryPoint>
    decreases points.len(),
{
    if points.len() == 0 || point.t < points[0].t {
        seq![point] + points
    } else if point.t == points[0].t {
        points
    } else {
        seq![points[0]] + with_point(points.drop_first(), point)
    }
}

/// The points that hold a price, in the order of time, the first of each time.
pub open spec fn timeline(points: Seq<HistoryPoint>) -> Seq<HistoryPoint>
    decreases points.len(),
{
    if points.len() == 0 {
        Seq::empty()
    } else if is_price(points.last().p) {
        with_point(timeline(points.drop_last()), points.last())
    } else {
        timeline(points.drop_last())
    }
}

/// The lowest price.
pub open spec fn lowest(points: Seq<HistoryPoint>) -> Binary64
    decreases points.len(),
{
    if points.len() == 0 {
        number(INFINITY)
    } else {
        lowest(points.drop_last()).min(points.last().p)
    }
}

/// The highest price.
pub open spec fn highest(points: Seq<HistoryPoint>) -> Binary64
    decreases points.len(),
{
    if points.len() == 0 {
        number(MINUS_INFINITY)
    } else {
        highest(points.drop_last()).max(points.last().p)
    }
}

/// Movement between neighbouring points that are no more than a gap apart.
pub struct Movement {
    pub max_jump: Binary64,
    pub squared: Binary64,
    pub count: nat,
}

pub open spec fn movement(points: Seq<HistoryPoint>, max_gap: i64) -> Movement
    decreases points.len(),
{
    if points.len() < 2 {
        Movement { max_jump: number(ZERO), squared: number(ZERO), count: 0 }
    } else {
        let before = movement(points.drop_last(), max_gap);
        let from = points[points.len() - 2];
        let to = points.last();
        let change = to.p.minus(from.p).abs();
        if 0 < to.t - from.t <= max_gap {
            Movement {
                max_jump: before.max_jump.max(change),
                squared: before.squared.plus(change.times(change)),
                count: before.count + 1,
            }
        } else {
            before
        }
    }
}

pub open spec fn distance(a: int, b: int) -> nat {
    if a < b {
        (b - a) as nat
    } else {
        (a - b) as nat
    }
}

/// The first of the points nearest to a time.
pub open spec fn nearest(points: Seq<HistoryPoint>, time: int) -> HistoryPoint
    decreases points.len(),
{
    if points.len() <= 1 {
        points[0]
    } else {
        let before = nearest(points.drop_last(), time);
        if distance(points.last().t as int, time) < distance(before.t as int, time) {
            points.last()
        } else {
            before
        }
    }
}

/// The change from about a day before the latest point to it.
pub open spec fn day_change(points: Seq<HistoryPoint>) -> Option<Binary64> {
    let time = points.last().t - DAY_SECONDS;
    let old = nearest(points, time);
    if distance(old.t as int, time) <= DAY_TOLERANCE_SECONDS {
        Some(points.last().p.minus(old.p))
    } else {
        None
    }
}

/// What a history says about movement; nothing where it holds fewer than two prices.
pub open spec fn history_stats(points: Seq<HistoryPoint>, max_gap: i64) -> Option<HistoryStats> {
    if priced_count(points) < 2 {
        None
    } else {
        let line = timeline(points);
        let moved = movement(line, max_gap);
        Some(
            HistoryStats {
                point_count: line.len() as usize,
                range: highest(line).minus(lowest(line)),
                max_jump: moved.max_jump,
                rms_change: if moved.count > 0 {
                    moved.squared.over(Binary64::spec_from_integer(moved.count as int)).sqrt()
                } else {
                    number(ZERO)
                },
                change_24h: day_change(line),
            },
        )
    }
}

proof fn lemma_with_point(points: Seq<HistoryPoint>, point: HistoryPoint, at: int)
    requires
        0 <= at <= points.len(),
        forall|i: int| 0 <= i < at ==> points[i].t < point.t,
        at < points.len() ==> points[at].t >= point.t,
    ensures
        with_point(points, point) == if at < points.len() && points[at].t == point.t {
            points
        } else {
            points.insert(at, point)
        },
    decreases at,
{
    if at == 0 {
        assert(points.insert(0, point) =~= seq![point] + points);
    } else {
        lemma_with_point(points.drop_first(), point, at - 1);
        assert(seq![points[0]] + points.drop_first() =~= points);
        assert(seq![points[0]] + points.drop_first().insert(at - 1, point) =~= points.insert(
            at,
            point,
        ));
    }
}

fn put_point(points: &mut Vec<HistoryPoint>, point: HistoryPoint)
    ensures
        final(points)@ == with_point(old(points)@, point),
{
    let mut at: usize = 0;
    while at < points.len() && points[at].t < point.t
        invariant
            at <= points.len(),
            forall|i: int| 0 <= i < at ==> points[i].t < point.t,
        decreases points.len() - at,
    {
        at = at + 1;
    }
    proof {
        lemma_with_point(points@, point, at as int);
    }
    if at < points.len() && points[at].t == point.t {
        return ;
    }
    points.insert(at, point);
}

/// A timeline is not empty where a point holds a price, and is no longer than the points.
proof fn lemma_timeline(points: Seq<HistoryPoint>)
    ensures
        priced_count(points) > 0 ==> timeline(points).len() > 0,
        timeline(points).len() <= points.len(),
    decreases points.len(),
{
    if points.len() > 0 {
        lemma_timeline(points.drop_last());
        lemma_with_point_len(timeline(points.drop_last()), points.last());
    }
}

proof fn lemma_with_point_len(points: Seq<HistoryPoint>, point: HistoryPoint)
    ensures
        with_point(points, point).len() > 0,
        points.len() <= with_point(points, point).len() <= points.len() + 1,
    decreases points.len(),
{
    if points.len() > 0 && point.t > points[0].t {
        lemma_with_point_len(points.drop_first(), point);
    }
}

fn wide_distance(a: i128, b: i128) -> (r: i128)
    requires
        -0x1_0000_0000_0000_0000 < a < 0x1_0000_0000_0000_0000,
        -0x1_0000_0000_0000_0000 < b < 0x1_0000_0000_0000_0000,
    ensures
        r == distance(a as int, b as int),
{
    if a < b {
        b - a
    } else {
        a - b
    }
}

fn find_day_change(points: &Vec<HistoryPoint>) -> (r: Option<Binary64>)
    requires
        points.len() > 0,
    ensures
        r == day_change(points@),
{
    let latest = points[points.len() - 1];
    let time: i128 = latest.t as i128 - DAY_SECONDS;
    let mut best = points[0];
    let mut i: usize = 1;
    while i < points.len()
        invariant
            1 <= i <= points.len(),
            time == points@.last().t - DAY_SECONDS,
            best == nearest(points@.take(i as int), time as int),
        decreases points.len() - i,
    {
        assert(points@.take(i + 1).drop_last() =~= points@.take(i as int));
        if wide_distance(points[i].t as i128, time) < wide_distance(best.t as i128, time) {
            best = points[i];
        }
        i = i + 1;
    }
    assert(points@.take(i as int) =~= points@);
    if wide_distance(best.t as i128, time) <= DAY_TOLERANCE_SECONDS {
        Some(latest.p.minus(best.p))
    } else {
        None
    }
}

/// What a history says about movement.
pub fn calculate_history_stats(points: &Vec<HistoryPoint>, max_gap_seconds: i64) -> (r: Option<
    HistoryStats,
>)
    ensures
        r == history_stats(points@, max_gap_seconds),
{
    let mut line: Vec<HistoryPoint> = Vec::new();
    let mut priced: usize = 0;
    let mut i: usize = 0;
    while i < points.len()
        invariant
            i <= points.len(),
            priced <= i,
            priced == priced_count(points@.take(i as int)),
            line@ == timeline(points@.take(i as int)),
        decreases points.len() - i,
    {
        assert(points@.take(i + 1).drop_last() =~= points@.take(i as int));
        if is_price(points[i].p) {
            put_point(&mut line, points[i]);
            priced = priced + 1;
        }
        i = i + 1;
    }
    assert(points@.take(i as int) =~= points@);
    if priced < 2 {
        return None;
    }
    proof {
        lemma_timeline(points@);
    }
    let mut minimum = number(INFINITY);
    let mut maximum = number(MINUS_INFINITY);
    let mut max_jump = number(ZERO);
    let mut squared = number(ZERO);
    let mut count: u64 = 0;
    let mut k: usize = 0;
    while k < line.len()
        invariant
            k <= line.len(),
            minimum == lowest(line@.take(k as int)),
            maximum == highest(line@.take(k as int)),
            movement(line@.take(k as int), max_gap_seconds) == (Movement {
                max_jump,
                squared,
                count: count as nat,
            }),
            count <= k,
        decreases line.len() - k,
    {
        let ghost next = line@.take(k + 1);
        proof {
            assert(next.drop_last() =~= line@.take(k as int));
        }
        let to = line[k];
        minimum = minimum.min(to.p);
        maximum = maximum.max(to.p);
        if k > 0 {
            let from = line[k - 1];
            assert(next[next.len() - 2] == from);
            let elapsed: i128 = to.t as i128 - from.t as i128;
            if 0 < elapsed && elapsed <= max_gap_seconds as i128 {
                let change = to.p.minus(from.p).abs();
                max_jump = max_jump.max(change);
                squared = squared.plus(change.times(change));
                count = count + 1;
            }
        }
        k = k + 1;
    }
    assert(line@.take(k as int) =~= line@);
    let rms_change = if count > 0 {
        squared.over(Binary64::from_u64(count)).sqrt()
    } else {
        number(ZERO)
    };
    Some(
        HistoryStats {
            point_count: line.len(),
            range: maximum.minus(minimum),
            max_jump,
            rms_change,
            change_24h: find_day_change(&line),
        },
    )
}

/// A point whose time is in order among others.
pub open spec fn in_time_order(points: Seq<HistoryPoint>) -> bool {
    forall|i: int, j: int| 0 <= i < j < points.len() ==> points[i].t < points[j].t
}

proof fn lemma_with_point_order(points: Seq<HistoryPoint>, point: HistoryPoint)
    requires
        in_time_order(points),
    ensures
        in_time_order(with_point(points, point)),
        forall|i: int|
            0 <= i < with_point(points, point).len() ==> points.contains(
                #[trigger] with_point(points, point)[i],
            ) || with_point(points, point)[i] == point,
    decreases points.len(),
{
    let put = with_point(points, point);
    if points.len() == 0 || point.t < points[0].t {
        assert forall|i: int| 0 <= i < put.len() implies points.contains(#[trigger] put[i])
            || put[i] == point by {
            if i > 0 {
                assert(put[i] == points[i - 1]);
            }
        }
    } else if point.t > points[0].t {
        let rest = points.drop_first();
        lemma_with_point_order(rest, point);
        let put_rest = with_point(rest, point);
        assert forall|i: int| 0 <= i < put_rest.len() implies points[0].t < #[trigger] put_rest[i].t by {
            if rest.contains(put_rest[i]) {
                let k = choose|k: int| 0 <= k < rest.len() && rest[k] == put_rest[i];
                assert(points[k + 1] == rest[k]);
            }
        }
        assert forall|i: int, j: int| 0 <= i < j < put.len() implies put[i].t < put[j].t by {
            assert(put[j] == put_rest[j - 1]);
            if i > 0 {
                assert(put[i] == put_rest[i - 1]);
            }
        }
        assert forall|i: int| 0 <= i < put.len() implies points.contains(#[trigger] put[i])
            || put[i] == point by {
            if i == 0 {
                assert(put[0] == points[0]);
            } else {
                assert(put[i] == put_rest[i - 1]);
                if rest.contains(put_rest[i - 1]) {
                    let k = choose|k: int| 0 <= k < rest.len() && rest[k] == put_rest[i - 1];
                    assert(points[k + 1] == put[i]);
                }
            }
        }
    }
}

/// A timeline is in the order of time, no time comes twice, and each of its points is one of the
/// history's that holds a price.
pub proof fn timeline_is_ordered(points: Seq<HistoryPoint>)
    ensures
        in_time_order(timeline(points)),
        forall|i: int|
            0 <= i < timeline(points).len() ==> points.contains(#[trigger] timeline(points)[i])
                && is_price(timeline(points)[i].p),
    decreases points.len(),
{
    if points.len() > 0 {
        let front = points.drop_last();
        timeline_is_ordered(front);
        let before = timeline(front);
        let line = timeline(points);
        if is_price(points.last().p) {
            lemma_with_point_order(before, points.last());
        }
        assert forall|i: int| 0 <= i < line.len() implies points.contains(#[trigger] line[i])
            && is_price(line[i].p) by {
            if before.contains(line[i]) {
                let k = choose|k: int| 0 <= k < before.len() && before[k] == line[i];
                assert(front.contains(before[k]));
                let m = choose|m: int| 0 <= m < front.len() && front[m] == before[k];
                assert(points[m] == line[i]);
            } else {
                assert(line[i] == points.last());
                assert(points[points.len() - 1] == line[i]);
            }
        }
    }
}

/// Whether no two points have the same time.
pub open spec fn times_differ(points: Seq<HistoryPoint>) -> bool {
    forall|i: int, j: int| 0 <= i < j < points.len() ==> points[i].t != points[j].t
}

/// A point whose time is not taken comes in, and the others stay.
proof fn lemma_new_point(points: Seq<HistoryPoint>, point: HistoryPoint)
    requires
        forall|i: int| 0 <= i < points.len() ==> points[i].t != point.t,
    ensures
        with_point(points, point).len() == points.len() + 1,
        with_point(points, point).contains(point),
        forall|i: int|
            0 <= i < points.len() ==> with_point(points, point).contains(#[trigger] points[i]),
    decreases points.len(),
{
    let put = with_point(points, point);
    if points.len() == 0 || point.t < points[0].t {
        assert(put[0] == point);
        assert forall|i: int| 0 <= i < points.len() implies put.contains(#[trigger] points[i]) by {
            assert(put[i + 1] == points[i]);
        }
    } else {
        let rest = points.drop_first();
        assert forall|i: int| 0 <= i < rest.len() implies rest[i].t != point.t by {
            assert(rest[i] == points[i + 1]);
        }
        lemma_new_point(rest, point);
        let put_rest = with_point(rest, point);
        let at = choose|at: int| 0 <= at < put_rest.len() && put_rest[at] == point;
        assert(put[at + 1] == point);
        assert forall|i: int| 0 <= i < points.len() implies put.contains(#[trigger] points[i]) by {
            if i == 0 {
                assert(put[0] == points[0]);
            } else {
                assert(rest[i - 1] == points[i]);
                let k = choose|k: int| 0 <= k < put_rest.len() && put_rest[k] == rest[i - 1];
                assert(put[k + 1] == points[i]);
            }
        }
    }
}

/// Where the times differ, the timeline holds every point with a price, once.
pub proof fn no_price_is_left_out(points: Seq<HistoryPoint>)
    requires
        times_differ(points),
    ensures
        timeline(points).len() == priced_count(points),
        forall|i: int|
            0 <= i < points.len() && is_price(points[i].p) ==> timeline(points).contains(
                #[trigger] points[i],
            ),
    decreases points.len(),
{
    if points.len() > 0 {
        let front = points.drop_last();
        let last = points.last();
        let before = timeline(front);
        let line = timeline(points);
        assert(times_differ(front));
        no_price_is_left_out(front);
        timeline_is_ordered(front);
        if is_price(last.p) {
            assert forall|i: int| 0 <= i < before.len() implies before[i].t != last.t by {
                assert(front.contains(before[i]));
                let k = choose|k: int| 0 <= k < front.len() && front[k] == before[i];
                assert(points[k] == before[i]);
            }
            lemma_new_point(before, last);
        }
        assert forall|i: int| 0 <= i < points.len() && is_price(points[i].p) implies line.contains(
            #[trigger] points[i],
        ) by {
            if i < points.len() - 1 {
                assert(front[i] == points[i]);
                assert(before.contains(front[i]));
                let k = choose|k: int| 0 <= k < before.len() && before[k] == front[i];
                if is_price(last.p) {
                    assert(line.contains(before[k]));
                }
            }
        }
    }
}

/// Two sequences in the order of time with the same points are the same.
proof fn lemma_same_points(a: Seq<HistoryPoint>, b: Seq<HistoryPoint>)
    requires
        in_time_order(a),
        in_time_order(b),
        forall|i: int| 0 <= i < a.len() ==> b.contains(#[trigger] a[i]),
        forall|i: int| 0 <= i < b.len() ==> a.contains(#[trigger] b[i]),
    ensures
        a == b,
    decreases a.len(),
{
    if a.len() == 0 {
        if b.len() > 0 {
            assert(a.contains(b[0]));
        }
        assert(a =~= b);
    } else {
        assert(b.contains(a[0]));
        let j = choose|j: int| 0 <= j < b.len() && b[j] == a[0];
        assert(a.contains(b[0]));
        let i = choose|i: int| 0 <= i < a.len() && a[i] == b[0];
        assert(i == 0 && j == 0);
        let p = a.drop_first();
        let q = b.drop_first();
        assert forall|k: int| 0 <= k < p.len() implies q.contains(#[trigger] p[k]) by {
            assert(p[k] == a[k + 1]);
            assert(b.contains(a[k + 1]));
            let m = choose|m: int| 0 <= m < b.len() && b[m] == a[k + 1];
            assert(q[m - 1] == p[k]);
        }
        assert forall|k: int| 0 <= k < q.len() implies p.contains(#[trigger] q[k]) by {
            assert(q[k] == b[k + 1]);
            assert(a.contains(b[k + 1]));
            let m = choose|m: int| 0 <= m < a.len() && a[m] == b[k + 1];
            assert(p[m - 1] == q[k]);
        }
        lemma_same_points(p, q);
        assert(a =~= seq![a[0]] + p);
        assert(b =~= seq![b[0]] + q);
    }
}

proof fn lemma_rearranged(a: Seq<HistoryPoint>, b: Seq<HistoryPoint>)
    requires
        times_differ(a),
        times_differ(b),
        a.to_multiset() == b.to_multiset(),
    ensures
        forall|i: int| 0 <= i < timeline(a).len() ==> timeline(b).contains(#[trigger] timeline(a)[i]),
{
    a.to_multiset_ensures();
    b.to_multiset_ensures();
    timeline_is_ordered(a);
    no_price_is_left_out(b);
    let line = timeline(a);
    assert forall|i: int| 0 <= i < line.len() implies timeline(b).contains(#[trigger] line[i]) by {
        assert(a.contains(line[i]));
        assert(a.to_multiset().count(line[i]) > 0);
        assert(b.contains(line[i]));
        let k = choose|k: int| 0 <= k < b.len() && b[k] == line[i];
        assert(timeline(b).contains(b[k]));
    }
}

/// What a history says does not depend on the order in which its points come, where their times
/// differ.
pub proof fn the_order_of_points_does_not_matter(
    points: Seq<HistoryPoint>,
    rearranged: Seq<HistoryPoint>,
    max_gap: i64,
)
    requires
        times_differ(points),
        points.to_multiset() == rearranged.to_multiset(),
    ensures
        history_stats(points, max_gap) == history_stats(rearranged, max_gap),
{
    lemma_times_differ(points, rearranged);
    lemma_rearranged(points, rearranged);
    lemma_rearranged(rearranged, points);
    timeline_is_ordered(points);
    timeline_is_ordered(rearranged);
    lemma_same_points(timeline(points), timeline(rearranged));
    no_price_is_left_out(points);
    no_price_is_left_out(rearranged);
}

/// Times that differ still do after a rearrangement.
proof fn lemma_times_differ(a: Seq<HistoryPoint>, b: Seq<HistoryPoint>)
    requires
        times_differ(a),
        a.to_multiset() == b.to_multiset(),
    ensures
        times_differ(b),
{
    a.to_multiset_ensures();
    b.to_multiset_ensures();
    assert(a.no_duplicates());
    a.lemma_multiset_has_no_duplicates();
    b.lemma_multiset_has_no_duplicates_conv();
    assert forall|i: int, j: int| 0 <= i < j < b.len() implies b[i].t != b[j].t by {
        assert(b.contains(b[i]) && b.contains(b[j]));
        assert(b.to_multiset().count(b[i]) > 0 && b.to_multiset().count(b[j]) > 0);
        assert(a.contains(b[i]) && a.contains(b[j]));
        let k = choose|k: int| 0 <= k < a.len() && a[k] == b[i];
        let m = choose|m: int| 0 <= m < a.len() && a[m] == b[j];
        assert(a[k] != a[m]);
    }
}

/// Statistics are there exactly where at least two points hold a price, and count the points that
/// do, where their times differ.
pub proof fn prices_are_counted(points: Seq<HistoryPoint>, max_gap: i64)
    requires
        times_differ(points),
        points.len() <= usize::MAX,
    ensures
        history_stats(points, max_gap) is None <==> priced_count(points) < 2,
        history_stats(points, max_gap) is Some ==> history_stats(points, max_gap)->0.point_count
            == priced_count(points),
{
    lemma_timeline(points);
    no_price_is_left_out(points);
}

/// The lowest and the highest price are prices, and all others lie between them.
proof fn lemma_extremes(points: Seq<HistoryPoint>)
    requires
        points.len() > 0,
        forall|i: int| 0 <= i < points.len() ==> is_price(#[trigger] points[i].p),
    ensures
        is_price(lowest(points)),
        is_price(highest(points)),
        forall|i: int|
            0 <= i < points.len() ==> lowest(points).le(#[trigger] points[i].p) && points[i].p.le(
                highest(points),
            ),
    decreases points.len(),
{
    let front = points.drop_last();
    assert(is_price(points[points.len() - 1].p));
    if front.len() > 0 {
        assert forall|i: int| 0 <= i < front.len() implies is_price(#[trigger] front[i].p) by {
            assert(front[i] == points[i]);
        }
        lemma_extremes(front);
        assert forall|i: int| 0 <= i < points.len() implies lowest(points).le(#[trigger] points[i].p)
            && points[i].p.le(highest(points)) by {
            if i < front.len() {
                assert(front[i] == points[i]);
            }
        }
    } else {
        assert(lowest(front) == number(INFINITY));
        assert(highest(front) == number(MINUS_INFINITY));
    }
}

/// A change between two prices is no larger than the range that they lie in, and the range is no
/// larger than one.
proof fn lemma_change(from: Binary64, to: Binary64, low: Binary64, high: Binary64)
    requires
        is_price(from),
        is_price(to),
        is_price(low),
        is_price(high),
        low.le(from),
        from.le(high),
        low.le(to),
        to.le(high),
    ensures
        ({
            let change = to.minus(from).abs();
            let range = high.minus(low);
            change.is_finite() && !change.negative() && number(ZERO).le(change) && change.le(range)
                && range.le(number(ONE))
        }),
{
    let range = high.minus(low);
    differences_are_opposite(to, from);
    differences_are_opposite(high, low);
    plus_is_monotone(to, from.negate(), low.negate());
    plus_keeps_order(to, high, low.negate());
    plus_is_monotone(from, to.negate(), low.negate());
    plus_keeps_order(from, high, low.negate());
    plus_is_monotone(high, low.negate(), number(ZERO).negate());
    nothing_is_taken_away(high);
}

/// The largest jump is no larger than the range that the prices lie in.
proof fn lemma_jumps(points: Seq<HistoryPoint>, max_gap: i64, low: Binary64, high: Binary64)
    requires
        is_price(low),
        is_price(high),
        low.le(high),
        forall|i: int|
            0 <= i < points.len() ==> is_price(#[trigger] points[i].p) && low.le(points[i].p)
                && points[i].p.le(high),
    ensures
        ({
            let jump = movement(points, max_gap).max_jump;
            jump.is_finite() && !jump.negative() && number(ZERO).le(jump) && jump.le(
                high.minus(low),
            )
        }),
    decreases points.len(),
{
    if points.len() < 2 {
        lemma_change(low, low, low, high);
    } else {
        let front = points.drop_last();
        assert forall|i: int| 0 <= i < front.len() implies is_price(#[trigger] front[i].p)
            && low.le(front[i].p) && front[i].p.le(high) by {
            assert(front[i] == points[i]);
        }
        lemma_jumps(front, max_gap, low, high);
        let from = points[points.len() - 2];
        let to = points[points.len() - 1];
        assert(is_price(from.p) && is_price(to.p));
        lemma_change(from.p, to.p, low, high);
    }
}

/// One more square in a sum, with the rounding.
proof fn lemma_one_more_square(k: int, d: int, s: int, c: int, t: int)
    requires
        0 <= k,
        0 <= c <= d,
        s <= 2 * (k * d),
        s * 0x20_0000_0000_0000 <= k * d * (0x20_0000_0000_0000 + 2 * k),
        t * 0x20_0000_0000_0000 <= (s + c) * 0x20_0000_0000_0001,
        t <= s + 2 * c,
    ensures
        t <= 2 * ((k + 1) * d),
        t * 0x20_0000_0000_0000 <= (k + 1) * d * (0x20_0000_0000_0000 + 2 * (k + 1)),
{
    let kd = k * d;
    let kkd = k * kd;
    assert((k + 1) * d == kd + d) by (nonlinear_arith)
        requires
            kd == k * d,
    ;
    assert(0 <= kd && 0 <= kkd) by (nonlinear_arith)
        requires
            kkd == k * kd,
            kd == k * d,
            0 <= k,
            d >= 0,
    ;
    assert(k * d * (0x20_0000_0000_0000 + 2 * k) == kd * 0x20_0000_0000_0000 + 2 * kkd) by (nonlinear_arith)
        requires
            kkd == k * kd,
            kd == k * d,
    ;
    assert((k + 1) * d * (0x20_0000_0000_0000 + 2 * (k + 1)) == kd * 0x20_0000_0000_0000 + d * 0x20_0000_0000_0000 + 2 * kkd + 4 * kd + 2 * d)
        by (nonlinear_arith)
        requires
            kkd == k * kd,
            kd == k * d,
    ;
    if k <= 0x20_0000_0000_0000 {
        // The rounding is one part in 2^53 of the sum.
        assert(kkd <= 0x20_0000_0000_0000 * kd) by (nonlinear_arith)
            requires
                kkd == k * kd,
                k <= 0x20_0000_0000_0000,
                kd >= 0,
        ;
    } else {
        // The rounding is at most the square that is added.
        assert(kd >= 0x20_0000_0000_0000 * d) by (nonlinear_arith)
            requires
                kd == k * d,
                k > 0x20_0000_0000_0000,
                d >= 0,
        ;
    }
}

/// The sum of the squares of the changes, against the square of a bound on them.
#[verifier::rlimit(40)]
proof fn lemma_squares(points: Seq<HistoryPoint>, max_gap: i64, top: Binary64)
    requires
        points.len() <= 0x1_0000_0000_0000_0000,
        forall|i: int| 0 <= i < points.len() ==> is_price(#[trigger] points[i].p),
        top.is_finite(),
        !top.negative(),
        top.le(number(ONE)),
        movement(points, max_gap).max_jump.le(top),
    ensures
        ({
            let moved = movement(points, max_gap);
            let square = top.times(top).units();
            &&& moved.count < points.len() || moved.count == 0
            &&& moved.squared.is_finite()
            &&& !moved.squared.negative()
            &&& 0 <= square <= one_in_units()
            &&& top.times(top).is_finite()
            &&& moved.squared.units() <= 2 * (moved.count * square)
            &&& moved.squared.units() * 0x20_0000_0000_0000 <= moved.count * square * (0x20_0000_0000_0000 + 2 * moved.count)
        }),
    decreases points.len(),
{
    let square = top.times(top).units();
    one_is_exact();
    zero_is_exact();
    assert(top.times(top).is_finite() && 0 <= square <= one_in_units()) by {
        numbers_are_ordered(number(ZERO), top);
        times_fraction_shrinks(top, top);
        product_is_not_negative(top, top);
        numbers_are_ordered(number(ZERO), top.times(top));
        numbers_are_ordered(top.times(top), number(ONE));
    }
    if points.len() < 2 {
        let zero = number(ZERO);
        assert(zero.units() == 0);
        assert(0 * square == 0);
        assert(0 * (0x20_0000_0000_0000 + 2 * 0) == 0);
    } else {
        let front = points.drop_last();
        let before = movement(front, max_gap);
        let from = points[points.len() - 2];
        let to = points[points.len() - 1];
        let change = to.p.minus(from.p).abs();
        assert(is_price(from.p) && is_price(to.p));
        differences_are_opposite(to.p, from.p);
        assert forall|i: int| 0 <= i < front.len() implies is_price(#[trigger] front[i].p) by {
            assert(front[i] == points[i]);
        }
        if 0 < to.t - from.t <= max_gap {
            lemma_jumps(front, max_gap, number(ZERO), number(ONE));
            lemma_squares(front, max_gap, top);
            let k = before.count as int;
            let term = change.times(change);
            assert(change.is_finite() && !change.negative() && change.le(top));
            numbers_are_ordered(number(ZERO), change);
            numbers_are_ordered(change, top);
            products_are_ordered(top, change, top);
            times_commutes(top, change);
            products_are_ordered(change, change, top);
            product_is_not_negative(change, change);
            let s = before.squared.units();
            let one = one_in_units() as int;
            assert(s <= 0x2_0000_0000_0000_0000 * one) by (nonlinear_arith)
                requires
                    s <= 2 * (k * square),
                    0 <= k <= 0x1_0000_0000_0000_0000,
                    0 <= square <= one,
            ;
            small_sums_are_finite(before.squared, term, 0x2_0000_0000_0000_0001);
            sum_is_near(before.squared, term);
            sum_is_nearest(before.squared, term);
            numbers_are_ordered(number(ZERO), before.squared);
            lemma_one_more_square(k, square, s, term.units(), before.squared.plus(term).units());
        } else {
            lemma_squares(front, max_gap, top);
        }
    }
}

/// Four times 2^53 times a bound on the quadratic mean, in units: the largest jump with one part
/// in 2^53 for each change, and a quarter of 1e-9.
spec fn mean_bound(j: int, n: int, e: int) -> int {
    4 * (j * (0x20_0000_0000_0000 + n)) + e * 0x20_0000_0000_0000
}

/// The average of squares, against the square of a bound on the quadratic mean.
#[verifier::rlimit(40)]
proof fn lemma_average(
    o: int,
    e: int,
    j: int,
    d: int,
    s: int,
    n: int,
    c: int,
    a: int,
    y: int,
)
    requires
        o >= 0x1_0000_0000_0000_0000_0000_0000,
        e * 1_100_000_000 >= o,
        0 <= j <= o,
        0 <= d,
        0 < n <= 0x1_0000_0000_0000_0000,
        s * 0x20_0000_0000_0000 <= n * d * (0x20_0000_0000_0000 + 2 * n),
        c * 0x20_0000_0000_0000 <= n * o * 0x20_0000_0000_0001 + 0x20_0000_0000_0000,
        c * 0x20_0000_0000_0000 + 0x20_0000_0000_0000 >= n * o * 0x1f_ffff_ffff_ffff,
        0 <= a,
        a * c * 0x20_0000_0000_0000 <= s * o * 0x20_0000_0000_0001 + c * 0x20_0000_0000_0000,
        d * o * 0x20_0000_0000_0000 <= j * j * 0x20_0000_0000_0001 + o * 0x20_0000_0000_0000,
        4 * 0x20_0000_0000_0000 * y >= mean_bound(j, n, e),
    ensures
        a * o <= y * y,
{
    let p = 0x20_0000_0000_0000 + 2 * n;
    let b = d * p;
    lemma_average_of(o, d, s, n, c, a, p, b);
    let ao = a * o;
    let bo = b * o;
    let od = d * o;
    let jj = j * j;
    let pj = jj * p;
    let q = o * p;
    assert(ao * 0x20_0000_0000_0000 * 0x20_0000_0000_0000 <= bo * 0x20_0000_0000_0004 + 2 * (o * 0x20_0000_0000_0000 * 0x20_0000_0000_0000)) by (nonlinear_arith)
        requires
            a * 0x20_0000_0000_0000 * 0x20_0000_0000_0000 <= b * 0x20_0000_0000_0004 + 2 * (0x20_0000_0000_0000 * 0x20_0000_0000_0000),
            ao == a * o,
            bo == b * o,
            o > 0,
    ;
    assert(bo * 0x20_0000_0000_0000 <= pj * 0x20_0000_0000_0001 + q * 0x20_0000_0000_0000) by (nonlinear_arith)
        requires
            d * o * 0x20_0000_0000_0000 <= jj * 0x20_0000_0000_0001 + o * 0x20_0000_0000_0000,
            bo == d * p * o,
            pj == jj * p,
            q == o * p,
            p > 0,
    ;
    assert(jj >= 0) by (nonlinear_arith)
        requires
            jj == j * j,
    ;
    assert(pj >= 0 && q >= 0) by (nonlinear_arith)
        requires
            pj == jj * p,
            q == o * p,
            jj >= 0,
            o > 0,
            p > 0,
    ;
    // In parts: ao * N^2 <= pj * (N + 6) + 2 * q * N + 2 * o * N^2.
    let nn = 0x20_0000_0000_0000int;
    assert(ao * 0x20_0000_0000_0000 * 0x20_0000_0000_0000 <= pj * 0x20_0000_0000_0006 + 2 * (q * 0x20_0000_0000_0000) + 2 * (o * 0x20_0000_0000_0000 * 0x20_0000_0000_0000)) by {
        assert(bo * 0x20_0000_0000_0004 * 0x20_0000_0000_0000 <= (pj * 0x20_0000_0000_0001 + q * 0x20_0000_0000_0000) * 0x20_0000_0000_0004);
    }
    let z = mean_bound(j, n, e);
    let jn = j * (nn + n);
    let ee = e * e;
    let je = jn * e;
    let zz = 16 * (jn * jn) + 8 * (je * 0x20_0000_0000_0000) + ee * 0x20_0000_0000_0000 * 0x20_0000_0000_0000;
    assert(zz == z * z) by (nonlinear_arith)
        requires
            z == 4 * jn + e * 0x20_0000_0000_0000,
            zz == 16 * (jn * jn) + 8 * (je * 0x20_0000_0000_0000) + ee * 0x20_0000_0000_0000 * 0x20_0000_0000_0000,
            je == jn * e,
            ee == e * e,
    ;
    assert(jn * jn >= pj * 0x20_0000_0000_0000) by (nonlinear_arith)
        requires
            jn == j * (nn + n),
            pj == (j * j) * p,
            p == nn + 2 * n,
            nn == 0x20_0000_0000_0000,
            n > 0,
    ;
    assert(e * 0x20_0000_0000_0000 >= 8_000_000 * j);
    assert(jn >= 0) by (nonlinear_arith)
        requires
            jn == j * (nn + n),
            j >= 0,
            nn + n > 0,
    ;
    assert(2 * (j * jn) >= pj) by (nonlinear_arith)
        requires
            jn == j * (nn + n),
            pj == (j * j) * p,
            p == nn + 2 * n,
            nn > 0,
    ;
    assert(je * 0x20_0000_0000_0000 >= 8_000_000 * (j * jn)) by (nonlinear_arith)
        requires
            je == jn * e,
            e * 0x20_0000_0000_0000 >= 8_000_000 * j,
            jn >= 0,
    ;
    assert(ee >= o * 0x1_0000_0000) by (nonlinear_arith)
        requires
            ee == e * e,
            e * 1_100_000_000 >= o,
            o >= 0x1_0000_0000_0000_0000_0000_0000,
    ;
    assert(q <= o * 0x4_0000_0000_0000_0000) by (nonlinear_arith)
        requires
            q == o * p,
            p <= 0x4_0000_0000_0000_0000,
            o > 0,
    ;
    assert(16 * (ao * 0x20_0000_0000_0000 * 0x20_0000_0000_0000) <= zz);
    assert(16 * (ao * 0x20_0000_0000_0000 * 0x20_0000_0000_0000) <= 16 * (y * y * 0x20_0000_0000_0000 * 0x20_0000_0000_0000)) by (nonlinear_arith)
        requires
            16 * (ao * 0x20_0000_0000_0000 * 0x20_0000_0000_0000) <= z * z,
            4 * 0x20_0000_0000_0000 * y >= z,
            z >= 0,
    ;
}

/// The average of squares, against the square of a bound on the changes.
#[verifier::rlimit(40)]
proof fn lemma_average_of(o: int, d: int, s: int, n: int, c: int, a: int, p: int, b: int)
    requires
        o >= 0x1_0000_0000_0000_0000_0000_0000,
        0 <= d,
        0 < n <= 0x1_0000_0000_0000_0000,
        p == 0x20_0000_0000_0000 + 2 * n,
        b == d * p,
        s * 0x20_0000_0000_0000 <= n * d * p,
        c * 0x20_0000_0000_0000 <= n * o * 0x20_0000_0000_0001 + 0x20_0000_0000_0000,
        c * 0x20_0000_0000_0000 + 0x20_0000_0000_0000 >= n * o * 0x1f_ffff_ffff_ffff,
        0 <= a,
        a * c * 0x20_0000_0000_0000 <= s * o * 0x20_0000_0000_0001 + c * 0x20_0000_0000_0000,
    ensures
        a * 0x20_0000_0000_0000 * 0x20_0000_0000_0000 <= b * 0x20_0000_0000_0004 + 2 * (0x20_0000_0000_0000 * 0x20_0000_0000_0000),
{
    let no = n * o;
    assert(no >= o) by (nonlinear_arith)
        requires
            no == n * o,
            n >= 1,
            o > 0,
    ;
    assert(c * 0x20_0000_0000_0000 >= no * 0x1f_ffff_ffff_fffe);
    assert(c * 0x20_0000_0000_0000 <= no * 0x20_0000_0000_0002);
    let ano = a * no;
    assert(ano * 0x1f_ffff_ffff_fffe <= a * c * 0x20_0000_0000_0000) by (nonlinear_arith)
        requires
            ano == a * no,
            c * 0x20_0000_0000_0000 >= no * 0x1f_ffff_ffff_fffe,
            a >= 0,
    ;
    let an = a * n;
    let so = s * o;
    assert(ano == an * o) by (nonlinear_arith)
        requires
            ano == a * no,
            no == n * o,
            an == a * n,
    ;
    assert(an * 0x1f_ffff_ffff_fffe <= s * 0x20_0000_0000_0001 + n * 0x20_0000_0000_0002) by (nonlinear_arith)
        requires
            an * o * 0x1f_ffff_ffff_fffe <= s * o * 0x20_0000_0000_0001 + n * o * 0x20_0000_0000_0002,
            o > 0,
    ;
    let nb = n * b;
    assert(n * d * p == nb) by (nonlinear_arith)
        requires
            nb == n * b,
            b == d * p,
    ;
    assert(an * 0x1f_ffff_ffff_fffe * 0x20_0000_0000_0000 <= nb * 0x20_0000_0000_0001 + n * 0x20_0000_0000_0002 * 0x20_0000_0000_0000);
    assert(a * 0x1f_ffff_ffff_fffe * 0x20_0000_0000_0000 <= b * 0x20_0000_0000_0001 + 0x20_0000_0000_0002 * 0x20_0000_0000_0000) by (nonlinear_arith)
        requires
            an * 0x1f_ffff_ffff_fffe * 0x20_0000_0000_0000 <= nb * 0x20_0000_0000_0001 + n * 0x20_0000_0000_0002 * 0x20_0000_0000_0000,
            an == a * n,
            nb == n * b,
            n > 0,
    ;
    assert(b >= 0) by (nonlinear_arith)
        requires
            b == d * p,
            d >= 0,
            p > 0,
    ;
}

/// What a history says is in proportion: the largest jump is no larger than the range, the range
/// is no larger than one, and the quadratic mean of the changes is, up to rounding, no larger than
/// the largest jump.
///
/// Each addition to the sum of squares is rounded, so the quadratic mean may be larger by one part
/// in 2^53 for each point, and half of 1e-9. Up to 2^20 points that is less than 1e-9.
pub proof fn movement_is_in_proportion(points: Seq<HistoryPoint>, max_gap: i64)
    requires
        points.len() <= usize::MAX,
    ensures
        history_stats(points, max_gap) matches Some(stats) ==> {
            &&& number(ZERO).le(stats.max_jump)
            &&& stats.max_jump.le(stats.range)
            &&& stats.range.le(number(ONE))
            &&& number(ZERO).le(stats.rms_change)
            &&& stats.rms_change.is_finite()
            &&& 2 * (stats.rms_change.units() * 0x20_0000_0000_0000) <= 2 * (stats.max_jump.units() * (0x20_0000_0000_0000
                + points.len())) + number(EPSILON).units() * 0x20_0000_0000_0000
            &&& points.len() <= 0x10_0000 ==> stats.rms_change.le(
                stats.max_jump.plus(number(EPSILON)),
            )
        },
{
    if priced_count(points) >= 2 {
        let line = timeline(points);
        lemma_timeline(points);
        timeline_is_ordered(points);
        lemma_extremes(line);
        let low = lowest(line);
        let high = highest(line);
        assert(is_price(line[0].p));
        lemma_change(line[0].p, line[0].p, low, high);
        lemma_jumps(line, max_gap, low, high);
        lemma_quadratic_mean(line, max_gap, points.len());
    }
}

proof fn lemma_quadratic_mean(line: Seq<HistoryPoint>, max_gap: i64, limit: nat)
    requires
        line.len() <= limit <= 0x1_0000_0000_0000_0000,
        forall|i: int| 0 <= i < line.len() ==> is_price(#[trigger] line[i].p),
    ensures
        ({
            let moved = movement(line, max_gap);
            let mean = if moved.count > 0 {
                moved.squared.over(Binary64::spec_from_integer(moved.count as int)).sqrt()
            } else {
                number(ZERO)
            };
            &&& number(ZERO).le(mean)
            &&& mean.is_finite()
            &&& 2 * (mean.units() * 0x20_0000_0000_0000) <= 2 * (moved.max_jump.units() * (0x20_0000_0000_0000 + limit)) + number(
                EPSILON,
            ).units() * 0x20_0000_0000_0000
            &&& limit <= 0x10_0000 ==> mean.le(moved.max_jump.plus(number(EPSILON)))
        }),
{
    let moved = movement(line, max_gap);
    let jump = moved.max_jump;
    let j = jump.units();
    let e = number(EPSILON).units();
    let one = one_in_units();
    let mean = if moved.count > 0 {
        moved.squared.over(Binary64::spec_from_integer(moved.count as int)).sqrt()
    } else {
        number(ZERO)
    };
    lemma_change(number(ZERO), number(ZERO), number(ZERO), number(ONE));
    one_is_exact();
    zero_is_exact();
    one_is_large();
    nothing_is_taken_away(number(ONE));
    lemma_jumps(line, max_gap, number(ZERO), number(ONE));
    lemma_squares(line, max_gap, jump);
    numbers_are_ordered(number(ZERO), jump);
    numbers_are_ordered(jump, number(ONE));
    epsilon_is_small();
    assert(mean.is_finite() && !mean.negative() && 2 * (mean.units() * 0x20_0000_0000_0000) <= 2 * (j * (0x20_0000_0000_0000
        + limit)) + e * 0x20_0000_0000_0000) by {
        assert(j * (0x20_0000_0000_0000 + limit) >= 0) by (nonlinear_arith)
            requires
                j >= 0,
        ;
        if moved.count > 0 {
            lemma_mean(moved, limit);
        }
    }
    numbers_are_ordered(number(ZERO), mean);
    if limit <= 0x10_0000 {
        assert(j * (0x20_0000_0000_0000 + limit) <= j * 0x20_0000_0010_0000) by (nonlinear_arith)
            requires
                j >= 0,
                limit <= 0x10_0000,
        ;
        sum_is_above(mean, jump, number(EPSILON));
    }
}

#[verifier::rlimit(40)]
proof fn lemma_mean(moved: Movement, limit: nat)
    requires
        0 < moved.count <= limit <= 0x1_0000_0000_0000_0000,
        moved.max_jump.is_finite(),
        !moved.max_jump.negative(),
        moved.max_jump.units() <= one_in_units(),
        moved.max_jump.times(moved.max_jump).is_finite(),
        0 <= moved.max_jump.times(moved.max_jump).units(),
        moved.squared.is_finite(),
        !moved.squared.negative(),
        moved.squared.units() * 0x20_0000_0000_0000 <= moved.count * moved.max_jump.times(
            moved.max_jump,
        ).units() * (0x20_0000_0000_0000 + 2 * moved.count),
    ensures
        ({
            let mean = moved.squared.over(Binary64::spec_from_integer(moved.count as int)).sqrt();
            &&& mean.is_finite()
            &&& !mean.negative()
            &&& 2 * (mean.units() * 0x20_0000_0000_0000) <= 2 * (moved.max_jump.units() * (0x20_0000_0000_0000 + limit)) + number(
                EPSILON,
            ).units() * 0x20_0000_0000_0000
        }),
{
    let jump = moved.max_jump;
    let j = jump.units();
    let e = number(EPSILON).units();
    let n = moved.count;
    let one = one_in_units();
    let count = Binary64::spec_from_integer(n as int);
    one_is_large();
    zero_is_exact();
    one_is_exact();
    epsilon_is_small();
    assert(n * one >= one) by (nonlinear_arith)
        requires
            n > 0,
    ;
    assert(count.is_finite() && !count.negative() && count.units() >= one && count.units() * 0x20_0000_0000_0000
        <= n * one * 0x20_0000_0000_0001 + 0x20_0000_0000_0000 && count.units() * 0x20_0000_0000_0000 + 0x20_0000_0000_0000 >= n * one * 0x1f_ffff_ffff_ffff) by {
        reveal(Binary64::spec_from_integer);
        large_integers_are_finite(n);
        number_of_code(false, rounded(n * one, 1));
        rounding_is_near(n * one, 1);
        let m = magnitude(rounded(n * one, 1));
        assert(m * 1 == m);
        rounding_is_monotone(one, n * one, 1);
        rounding_is_exact(number(ONE).code());
        codes_are_ordered(number(ONE).code(), rounded(n * one, 1));
    }
    numbers_are_ordered(count, number(ZERO));
    numbers_are_ordered(number(ZERO), jump);
    small_quotients_are_finite(moved.squared, count);
    quotient_is_near(moved.squared, count);
    product_is_near(jump, jump);
    let average = moved.squared.over(count);
    numbers_are_ordered(number(ZERO), average);
    let s = moved.squared.units();
    let c = count.units();
    let a = average.units();
    let z = mean_bound(j, n as int, e);
    assert(j * (0x20_0000_0000_0000 + n) >= 0) by (nonlinear_arith)
        requires
            j >= 0,
    ;
    let four = 0x80_0000_0000_0000int;
    let y = z / four + 1;
    lemma_fundamental_div_mod(z, four);
    assert(0x80_0000_0000_0000 * y >= z && 0x80_0000_0000_0000 * y <= z + 0x80_0000_0000_0000);
    assert(a * c * 0x20_0000_0000_0000 <= s * one * 0x20_0000_0000_0001 + c * 0x20_0000_0000_0000);
    lemma_average(one as int, e, j, jump.times(jump).units(), s, n as int, c, a, y);
    assert(j * (0x20_0000_0000_0000 + n) <= one * 0x1_0020_0000_0000_0000) by (nonlinear_arith)
        requires
            0 <= j <= one,
            n <= 0x1_0000_0000_0000_0000,
    ;
    root_is_near(average, y as nat);
    assert(j * (0x20_0000_0000_0000 + n) <= j * (0x20_0000_0000_0000 + limit)) by (nonlinear_arith)
        requires
            j >= 0,
            n <= limit,
    ;
}

/// Putting a point in its place drops no point.
proof fn lemma_points_stay(points: Seq<HistoryPoint>, point: HistoryPoint)
    ensures
        forall|i: int|
            0 <= i < points.len() ==> with_point(points, point).contains(#[trigger] points[i]),
    decreases points.len(),
{
    let put = with_point(points, point);
    assert forall|i: int| 0 <= i < points.len() implies put.contains(#[trigger] points[i]) by {
        if point.t < points[0].t {
            assert(put[i + 1] == points[i]);
        } else if point.t == points[0].t {
            assert(put[i] == points[i]);
        } else if i == 0 {
            assert(put[0] == points[0]);
        } else {
            let rest = points.drop_first();
            lemma_points_stay(rest, point);
            assert(rest[i - 1] == points[i]);
            let k = choose|k: int|
                0 <= k < with_point(rest, point).len() && with_point(rest, point)[k] == rest[i - 1];
            assert(put[k + 1] == points[i]);
        }
    }
}

/// Of points with a price and the same time, the first one is in the timeline.
pub proof fn the_first_price_of_a_time_counts(points: Seq<HistoryPoint>, at: int)
    requires
        0 <= at < points.len(),
        is_price(points[at].p),
        forall|j: int| 0 <= j < at && is_price(#[trigger] points[j].p) ==> points[j].t != points[at].t,
    ensures
        timeline(points).contains(points[at]),
    decreases points.len(),
{
    let front = points.drop_last();
    let before = timeline(front);
    if at == points.len() - 1 {
        timeline_is_ordered(front);
        assert forall|i: int| 0 <= i < before.len() implies before[i].t != points[at].t by {
            assert(front.contains(before[i]));
            let j = choose|j: int| 0 <= j < front.len() && front[j] == before[i];
            assert(points[j] == front[j]);
        }
        lemma_new_point(before, points[at]);
    } else {
        assert forall|j: int| 0 <= j < at && is_price(#[trigger] front[j].p) implies front[j].t
            != front[at].t by {
            assert(front[j] == points[j]);
        }
        assert(front[at] == points[at]);
        the_first_price_of_a_time_counts(front, at);
        if is_price(points.last().p) {
            lemma_points_stay(before, points.last());
            let k = choose|k: int| 0 <= k < before.len() && before[k] == points[at];
            assert(timeline(points).contains(before[k]));
        }
    }
}

proof fn lemma_extremes_are_there(points: Seq<HistoryPoint>)
    requires
        points.len() > 0,
        forall|i: int| 0 <= i < points.len() ==> is_price(#[trigger] points[i].p),
    ensures
        exists|i: int| 0 <= i < points.len() && #[trigger] points[i].p == lowest(points),
        exists|i: int| 0 <= i < points.len() && #[trigger] points[i].p == highest(points),
    decreases points.len(),
{
    let front = points.drop_last();
    let last = points.len() - 1;
    assert(is_price(points[last].p));
    if front.len() > 0 {
        assert forall|i: int| 0 <= i < front.len() implies is_price(#[trigger] front[i].p) by {
            assert(front[i] == points[i]);
        }
        lemma_extremes_are_there(front);
        let l = choose|l: int| 0 <= l < front.len() && #[trigger] front[l].p == lowest(front);
        let h = choose|h: int| 0 <= h < front.len() && #[trigger] front[h].p == highest(front);
        assert(points[l].p == lowest(front));
        assert(points[h].p == highest(front));
        assert(points[last].p == points.last().p);
    } else {
        reveal_with_fuel(lowest, 2);
        reveal_with_fuel(highest, 2);
        assert(points[0].p == lowest(points));
        assert(points[0].p == highest(points));
    }
}

/// The range of a history is the largest difference of two of its prices: no two are further
/// apart, and two of them are as far apart.
pub proof fn the_range_is_the_largest_difference(points: Seq<HistoryPoint>, max_gap: i64)
    requires
        points.len() <= usize::MAX,
        history_stats(points, max_gap) is Some,
    ensures
        ({
            let line = timeline(points);
            let range = history_stats(points, max_gap)->0.range;
            &&& history_stats(points, max_gap)->0.point_count == line.len()
            &&& forall|i: int, j: int|
                0 <= i < line.len() && 0 <= j < line.len() ==> (#[trigger] line[i].p.minus(
                    line[j].p,
                )).le(range)
            &&& exists|i: int, j: int|
                0 <= i < line.len() && 0 <= j < line.len() && #[trigger] line[i].p.minus(line[j].p)
                    == range
        }),
{
    let line = timeline(points);
    lemma_timeline(points);
    timeline_is_ordered(points);
    assert forall|i: int| 0 <= i < line.len() implies is_price(#[trigger] line[i].p) by {}
    lemma_extremes(line);
    lemma_extremes_are_there(line);
    let low = lowest(line);
    let high = highest(line);
    assert forall|i: int, j: int| 0 <= i < line.len() && 0 <= j < line.len() implies (
    #[trigger] line[i].p.minus(line[j].p)).le(high.minus(low)) by {
        lemma_change(line[j].p, line[i].p, low, high);
        differences_are_opposite(line[i].p, line[j].p);
    }
    let l = choose|l: int| 0 <= l < line.len() && #[trigger] line[l].p == low;
    let h = choose|h: int| 0 <= h < line.len() && #[trigger] line[h].p == high;
    assert(line[h].p.minus(line[l].p) == high.minus(low));
}

/// Whether two neighbours in a timeline are near enough in time for their difference to count.
pub open spec fn are_near(line: Seq<HistoryPoint>, i: int, max_gap: i64) -> bool {
    0 <= i && i + 1 < line.len() && line[i + 1].t - line[i].t <= max_gap
}

#[verifier::rlimit(40)]
proof fn lemma_jump(line: Seq<HistoryPoint>, max_gap: i64)
    requires
        in_time_order(line),
        forall|i: int| 0 <= i < line.len() ==> is_price(#[trigger] line[i].p),
    ensures
        ({
            let jump = movement(line, max_gap).max_jump;
            &&& !jump.is_nan()
            &&& forall|i: int|
                #![trigger are_near(line, i, max_gap)]
                are_near(line, i, max_gap) ==> line[i + 1].p.minus(line[i].p).le(jump)
                    && line[i].p.minus(line[i + 1].p).le(jump)
            &&& jump.rank() == 0 || exists|i: int|
                #![trigger are_near(line, i, max_gap)]
                are_near(line, i, max_gap) && (line[i + 1].p.minus(line[i].p).rank() == jump.rank()
                    || line[i].p.minus(line[i + 1].p).rank() == jump.rank())
            &&& movement(line, max_gap).count > 0 <==> exists|i: int| are_near(line, i, max_gap)
        }),
    decreases line.len(),
{
    if line.len() >= 2 {
        let front = line.drop_last();
        let last = line.len() - 2;
        assert forall|i: int| 0 <= i < front.len() implies is_price(#[trigger] front[i].p) by {
            assert(front[i] == line[i]);
        }
        lemma_jump(front, max_gap);
        let before = movement(front, max_gap).max_jump;
        let jump = movement(line, max_gap).max_jump;
        let from = line[last].p;
        let to = line[last + 1].p;
        assert(is_price(line[last].p) && is_price(line[last + 1].p));
        differences_are_opposite(to, from);
        assert(line.last() == line[last + 1]);
        assert(line[last].t < line[last + 1].t);
        assert forall|i: int| #![trigger are_near(line, i, max_gap)] are_near(
            line,
            i,
            max_gap,
        ) implies line[i + 1].p.minus(line[i].p).le(jump) && line[i].p.minus(line[i + 1].p).le(
            jump,
        ) by {
            if i < last {
                assert(are_near(front, i, max_gap));
                assert(front[i] == line[i] && front[i + 1] == line[i + 1]);
            }
        }
        if exists|i: int| #![trigger are_near(front, i, max_gap)] are_near(front, i, max_gap) && (
        front[i + 1].p.minus(front[i].p).rank() == before.rank() || front[i].p.minus(
            front[i + 1].p,
        ).rank() == before.rank()) {
            let i = choose|i: int|
                #![trigger are_near(front, i, max_gap)]
                are_near(front, i, max_gap) && (front[i + 1].p.minus(front[i].p).rank()
                    == before.rank() || front[i].p.minus(front[i + 1].p).rank() == before.rank());
            assert(front[i] == line[i] && front[i + 1] == line[i + 1]);
            assert(are_near(line, i, max_gap));
        }
        if exists|i: int| are_near(front, i, max_gap) {
            let i = choose|i: int| are_near(front, i, max_gap);
            assert(front[i] == line[i] && front[i + 1] == line[i + 1]);
            assert(are_near(line, i, max_gap));
        }
        if are_near(line, last, max_gap) {
            assert(are_near(line, last, max_gap));
        }
        if exists|i: int| are_near(line, i, max_gap) {
            let i = choose|i: int| are_near(line, i, max_gap);
            if i < last {
                assert(front[i] == line[i] && front[i + 1] == line[i + 1]);
                assert(are_near(front, i, max_gap));
            }
        }
    }
}

/// The largest jump of a history is the largest difference of neighbours in time that are no more
/// than the gap apart, upwards or downwards: no such neighbours are further apart, and some are as
/// far apart, unless there are none. Where there are none, nothing moved at all.
pub proof fn the_jump_is_the_largest_near_difference(points: Seq<HistoryPoint>, max_gap: i64)
    requires
        points.len() <= usize::MAX,
        history_stats(points, max_gap) is Some,
    ensures
        ({
            let line = timeline(points);
            let stats = history_stats(points, max_gap)->0;
            &&& forall|i: int|
                #![trigger are_near(line, i, max_gap)]
                are_near(line, i, max_gap) ==> line[i + 1].p.minus(line[i].p).le(stats.max_jump)
                    && line[i].p.minus(line[i + 1].p).le(stats.max_jump)
            &&& stats.max_jump.rank() == 0 || exists|i: int|
                #![trigger are_near(line, i, max_gap)]
                are_near(line, i, max_gap) && (line[i + 1].p.minus(line[i].p).rank()
                    == stats.max_jump.rank() || line[i].p.minus(line[i + 1].p).rank()
                    == stats.max_jump.rank())
            &&& !(exists|i: int| are_near(line, i, max_gap)) ==> stats.max_jump.rank() == 0
                && stats.rms_change == number(ZERO)
        }),
{
    let line = timeline(points);
    timeline_is_ordered(points);
    assert forall|i: int| 0 <= i < line.len() implies is_price(#[trigger] line[i].p) by {}
    lemma_jump(line, max_gap);
}

proof fn lemma_nearest(points: Seq<HistoryPoint>, time: int) -> (at: int)
    requires
        points.len() > 0,
    ensures
        0 <= at < points.len(),
        nearest(points, time) == points[at],
        forall|i: int|
            0 <= i < points.len() ==> distance(points[at].t as int, time) <= distance(
                #[trigger] points[i].t as int,
                time,
            ),
        forall|i: int|
            0 <= i < at ==> distance(points[at].t as int, time) < distance(
                #[trigger] points[i].t as int,
                time,
            ),
    decreases points.len(),
{
    if points.len() == 1 {
        0
    } else {
        let front = points.drop_last();
        let before = lemma_nearest(front, time);
        let last = points.len() - 1;
        let at = if distance(points.last().t as int, time) < distance(
            front[before].t as int,
            time,
        ) {
            last
        } else {
            before
        };
        assert forall|i: int| 0 <= i < points.len() implies distance(points[at].t as int, time)
            <= distance(#[trigger] points[i].t as int, time) by {
            if i < last {
                assert(front[i] == points[i]);
            }
        }
        assert forall|i: int| 0 <= i < at implies distance(points[at].t as int, time) < distance(
            #[trigger] points[i].t as int,
            time,
        ) by {
            assert(front[i] == points[i]);
        }
        at
    }
}

/// The change in 24 hours is the latest price less the price nearest to a day before it in time,
/// the earlier of two that are as near; it is not known where that price is more than three hours
/// off.
pub proof fn the_day_change_is_since_a_day_before(points: Seq<HistoryPoint>, max_gap: i64) -> (at:
    int)
    requires
        points.len() <= usize::MAX,
        history_stats(points, max_gap) is Some,
    ensures
        ({
            let line = timeline(points);
            let latest = line[line.len() - 1];
            let change = history_stats(points, max_gap)->0.change_24h;
            let off = |i: int| line[i].t - (latest.t - 86_400);
            &&& 0 <= at < line.len()
            &&& forall|i: int| 0 <= i < line.len() ==> (#[trigger] line[i]).t <= latest.t
            &&& forall|i: int|
                0 <= i < line.len() ==> -distance(#[trigger] line[i].t as int, latest.t - 86_400)
                    <= off(at) <= distance(line[i].t as int, latest.t - 86_400)
            &&& forall|i: int|
                0 <= i < at ==> -distance(#[trigger] line[i].t as int, latest.t - 86_400) < off(at)
                    < distance(line[i].t as int, latest.t - 86_400)
            &&& change == if -10_800 <= off(at) <= 10_800 {
                Some(latest.p.minus(line[at].p))
            } else {
                None
            }
        }),
{
    let line = timeline(points);
    lemma_timeline(points);
    timeline_is_ordered(points);
    let latest = line[line.len() - 1];
    let at = lemma_nearest(line, latest.t - DAY_SECONDS);
    assert forall|i: int| 0 <= i < line.len() implies (#[trigger] line[i]).t <= latest.t by {
        if i < line.len() - 1 {
            assert(line[i].t < line[line.len() - 1].t);
        }
    }
    at
}

} // verus!
