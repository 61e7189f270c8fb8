//! What makes a reading an anomaly, told by the readings themselves.

use crate::anomaly::{
    anomalies_of, anomaly_of, deviation, four_mads, in_order, magnitude, median_of, series,
    twice_median, twice_middle, widened, AnomalyConfig,
};
use crate::health::MetricView;
use crate::history::SnapshotView;
use crate::rank::lemma_ranked;
use crate::text::number::rounded;
use crate::text::split::{lemma_filter_map_step, lemma_take_all};
use crate::textmap::lookup;
use vstd::prelude::*;

verus! {

/// How many of the values are less than `v`.
pub open spec fn below(s: Seq<i128>, v: int) -> int {
    s.filter(|x: i128| x < v).len() as int
}

/// How many of the values are no more than `v`.
pub open spec fn upto(s: Seq<i128>, v: int) -> int {
    s.filter(|x: i128| x <= v).len() as int
}

/// The value below which fewer than half of the values lie, while half of them are no greater.
pub open spec fn lower_middle(s: Seq<i128>, v: int) -> bool {
    2 * below(s, v) < s.len() && s.len() <= 2 * upto(s, v)
}

/// The value below which no more than half of the values lie, while more than half of them are
/// no greater.
pub open spec fn upper_middle(s: Seq<i128>, v: int) -> bool {
    2 * below(s, v) <= s.len() && s.len() < 2 * upto(s, v)
}

/// Twice the median: the sum of the lower and the upper middle.
pub open spec fn is_twice_median(s: Seq<i128>, t: int) -> bool {
    exists|lo: int, hi: int|
        #[trigger] lower_middle(s, lo) && #[trigger] upper_middle(s, hi) && t == lo + hi
}

/// How far each reading is from the middle of `t`, counted twice.
pub open spec fn spread(s: Seq<i64>, t: int) -> Seq<i128> {
    s.map_values(
        |x: i64|
            if 2 * x >= t {
                (2 * x - t) as i128
            } else {
                (t - 2 * x) as i128
            },
    )
}

proof fn lemma_below_bounds(o: Seq<i128>, v: int, k: int)
    requires
        0 <= k <= o.len(),
        forall|i: int| k <= i < o.len() ==> #[trigger] o[i] >= v,
    ensures
        below(o, v) <= k,
    decreases o.len(),
{
    reveal(Seq::filter);
    if o.len() > 0 {
        let t = o.drop_last();
        if k == o.len() {
            lemma_below_bounds(t, v, k - 1);
        } else {
            assert(o[o.len() - 1] >= v);
            lemma_below_bounds(t, v, k);
        }
    }
}

proof fn lemma_upto_bounds(o: Seq<i128>, v: int, k: int)
    requires
        0 <= k <= o.len(),
        forall|i: int| 0 <= i < k ==> #[trigger] o[i] <= v,
    ensures
        upto(o, v) >= k,
    decreases o.len(),
{
    reveal(Seq::filter);
    if o.len() > 0 {
        let t = o.drop_last();
        if k == o.len() {
            assert(o[o.len() - 1] <= v);
            lemma_upto_bounds(t, v, k - 1);
        } else {
            lemma_upto_bounds(t, v, k);
        }
    }
}

/// How many meet a condition does not depend on the order.
proof fn lemma_counted(a: Seq<i128>, b: Seq<i128>, p: spec_fn(i128) -> bool)
    requires
        a.to_multiset() == b.to_multiset(),
    ensures
        a.filter(p).len() == b.filter(p).len(),
    decreases a.len(),
{
    broadcast use vstd::seq_lib::group_to_multiset_ensures;

    reveal(Seq::filter);
    assert(a.to_multiset().len() == a.len());
    assert(b.to_multiset().len() == b.len());
    if a.len() > 0 {
        let x = a.last();
        assert(a.contains(x));
        assert(b.to_multiset().count(x) > 0);
        assert(b.contains(x));
        let i = b.index_of(x);
        assert(a.drop_last() == a.remove(a.len() - 1));
        assert(a.drop_last().to_multiset() == a.to_multiset().remove(x));
        assert(b.remove(i).to_multiset() == b.to_multiset().remove(x));
        lemma_counted(a.drop_last(), b.remove(i), p);
        lemma_counted_without(b, i, p);
    }
}

proof fn lemma_counted_without(b: Seq<i128>, i: int, p: spec_fn(i128) -> bool)
    requires
        0 <= i < b.len(),
    ensures
        b.filter(p).len() == b.remove(i).filter(p).len() + if p(b[i]) {
            1int
        } else {
            0
        },
    decreases b.len(),
{
    reveal(Seq::filter);
    if i == b.len() - 1 {
        assert(b.remove(i) == b.drop_last());
    } else {
        lemma_counted_without(b.drop_last(), i, p);
        assert(b.remove(i).drop_last() == b.drop_last().remove(i));
        assert(b.remove(i).last() == b.last());
    }
}

proof fn lemma_twice_middle(s: Seq<i128>)
    requires
        s.len() > 0,
    ensures
        is_twice_median(s, twice_middle(s)),
{
    let o = in_order(s);
    let n = s.len() as int;
    lemma_ranked(s, |x: i128| -(x as int));
    let a = (n - 1) / 2;
    let b = n / 2;
    let lo = o[a] as int;
    let hi = o[b] as int;
    assert forall|i: int, j: int| 0 <= i <= j < n implies o[i] <= o[j] by {
        if i < j {
            assert(-(o[i] as int) >= -(o[j] as int));
        }
    }
    assert(twice_middle(s) == lo + hi);
    lemma_below_bounds(o, lo, a);
    lemma_upto_bounds(o, lo, a + 1);
    lemma_below_bounds(o, hi, b);
    lemma_upto_bounds(o, hi, b + 1);
    lemma_counted(o, s, |x: i128| x < lo);
    lemma_counted(o, s, |x: i128| x <= lo);
    lemma_counted(o, s, |x: i128| x < hi);
    lemma_counted(o, s, |x: i128| x <= hi);
    assert(lower_middle(s, lo));
    assert(upper_middle(s, hi));
}

/// The baseline of readings: the median is the middle of the readings, and the median absolute
/// deviation the middle of their distances from it.
pub proof fn law_baseline_is_the_middle(s: Seq<i64>)
    requires
        s.len() > 0,
    ensures
        is_twice_median(widened(s), twice_median(s)),
        is_twice_median(spread(s, twice_median(s)), four_mads(s)),
        -1 <= 2 * median_of(s) - twice_median(s) <= 1,
{
    let t = twice_median(s);
    lemma_twice_middle(widened(s));
    let d = spread(s, t);
    assert(crate::anomaly::distances(s, t) =~= d);
    lemma_twice_middle(d);
}

/// There is one middle only.
pub proof fn law_middle_is_unique(s: Seq<i128>, t: int, u: int)
    requires
        is_twice_median(s, t),
        is_twice_median(s, u),
        s.len() > 0,
    ensures
        t == u,
{
    let (a, b) = choose|lo: int, hi: int|
        #[trigger] lower_middle(s, lo) && #[trigger] upper_middle(s, hi) && t == lo + hi;
    let (c, d) = choose|lo: int, hi: int|
        #[trigger] lower_middle(s, lo) && #[trigger] upper_middle(s, hi) && u == lo + hi;
    lemma_below_upto(s, a, c);
    lemma_below_upto(s, c, a);
    lemma_below_upto(s, b, d);
    lemma_below_upto(s, d, b);
}

proof fn lemma_below_upto(s: Seq<i128>, a: int, b: int)
    ensures
        a < b ==> upto(s, a) <= below(s, b),
    decreases s.len(),
{
    reveal(Seq::filter);
    if s.len() > 0 {
        lemma_below_upto(s.drop_last(), a, b);
    }
}

/// The readings of a metric: each snapshot that has one adds its own, in order.
pub proof fn law_series_gathers_readings(h: Seq<SnapshotView>, x: SnapshotView, id: Seq<char>)
    ensures
        series(Seq::<SnapshotView>::empty(), id).len() == 0,
        series(h.push(x), id) == match lookup(x.metrics, id) {
            Some(v) => series(h, id).push(v),
            None => series(h, id),
        },
{
    let f = |s: SnapshotView| lookup(s.metrics, id);
    let all = h.push(x);
    lemma_filter_map_step(all, f, h.len() as int);
    assert(all.take(h.len() as int) == h);
    lemma_take_all(all);
}

/// The size of a whole number.
pub open spec fn size(m: int) -> int {
    if m < 0 {
        -m
    } else {
        m
    }
}

/// A reading is an anomaly: given twice the median (`t`) and four times the median absolute
/// deviation (`q`) of `n` earlier readings, all in millionths, there are enough of these, the
/// distance from the median is at least `k` times 1.4826 median absolute deviations (over a flat
/// history, where there is no deviation, any distance is), and the distance is at least the
/// fraction `rel_floor` of the median.
pub open spec fn stands_out(x: int, t: int, q: int, n: int, cfg: AnomalyConfig) -> bool {
    &&& n >= cfg.min_samples
    &&& q > 0 ==> size(2 * x - t) * 2 * 10_000 * 1_000_000 >= cfg.k * 14_826 * q
    &&& q == 0 ==> 2 * x != t || cfg.k <= 0
    &&& size(2 * x - t) * 1_000_000_000 >= cfg.rel_floor * (size(t) * 1_000 + 2)
}

/// A metric is listed exactly if its reading stands out from the readings before it.
pub proof fn law_listed_if_it_stands_out(m: MetricView, h: Seq<SnapshotView>, cfg: AnomalyConfig)
    ensures
        m.numeric is None ==> anomaly_of(m, h, cfg) is None,
        m.numeric matches Some(x) ==> ({
            let s = series(h, m.id);
            anomaly_of(m, h, cfg) is Some <==> stands_out(
                x as int,
                twice_median(s),
                four_mads(s),
                s.len() as int,
                cfg,
            )
        }),
{
    match m.numeric {
        Some(x) => {
            let s = series(h, m.id);
            let (t, q) = (twice_median(s), four_mads(s));
            lemma_spread_nonneg(s);
            let d = size(2 * x - t);
            assert(d == deviation(x as int, t));
            assert(size(t) == magnitude(t));
            assert(d * 2 * 10_000 * 1_000_000 == d * 20_000_000_000) by (nonlinear_arith);
        },
        None => {},
    }
}

proof fn lemma_spread_nonneg(s: Seq<i64>)
    ensures
        four_mads(s) >= 0,
{
    let t = twice_median(s);
    let d = crate::anomaly::distances(s, t);
    if s.len() > 0 {
        lemma_ranked(d, |x: i128| -(x as int));
        let o = in_order(d);
        assert(crate::anomaly::within(d, 0, 0x7fff_ffff_ffff_ffff_ffff_ffff_ffff_ffff)) by {
            lemma_bounded_middle(s);
        }
        crate::anomaly::lemma_same_members(d, o, 0, 0x7fff_ffff_ffff_ffff_ffff_ffff_ffff_ffff);
        let n = s.len() as int;
        assert(o[n / 2] >= 0);
        if n % 2 == 0 {
            assert(o[n / 2 - 1] >= 0);
        }
    }
}

proof fn lemma_bounded_middle(s: Seq<i64>)
    ensures
        2 * i64::MIN <= twice_median(s) <= 2 * i64::MAX,
{
    crate::anomaly::lemma_middle_within(widened(s), i64::MIN as int, i64::MAX as int);
}

/// Whatever is listed says how far out it is: its z-score, to the nearest millionth and as far
/// as the field can hold it, is the distance in units of 1.4826 median absolute deviations, none
/// over a flat history, and never less than the limit; its change is the signed distance as a
/// share of the median in percent.
pub proof fn law_listed_tells_how_far(m: MetricView, h: Seq<SnapshotView>, cfg: AnomalyConfig)
    requires
        anomaly_of(m, h, cfg) is Some,
    ensures
        ({
            let a = anomaly_of(m, h, cfg)->0;
            let s = series(h, m.id);
            let (t, q) = (twice_median(s), four_mads(s));
            let d = size(2 * a.current - t);
            &&& a.metric_id == m.id
            &&& m.numeric == Some(a.current)
            &&& a.median == median_of(s)
            &&& q == 0 && d > 0 ==> a.z is None
            &&& q > 0 ==> (a.z matches Some(z) && z >= cfg.k && (z < i64::MAX ==> size(
                2 * (z * (14_826 * q) - d * 20_000_000_000),
            ) <= 14_826 * q))
            &&& 2 * a.current > t ==> a.pct_change >= 0
            &&& 2 * a.current < t ==> a.pct_change <= 0
            &&& size(a.pct_change as int) < i64::MAX ==> size(
                2 * (size(a.pct_change as int) * (size(t) * 1_000 + 2) - d * 100_000_000_000),
            ) <= size(t) * 1_000 + 2
        }),
{
    let x = m.numeric->0;
    let s = series(h, m.id);
    let (t, q) = (twice_median(s), four_mads(s));
    lemma_spread_nonneg(s);
    lemma_bounded_middle(s);
    let d = size(2 * x - t);
    assert(d == deviation(x as int, t));
    assert(size(t) == magnitude(t));
    lemma_median_fits(s);
    if q > 0 {
        lemma_nearest(d * 20_000_000_000, 14_826 * q);
        let k = cfg.k as int;
        assert(k * 14_826 * q == k * (14_826 * q)) by (nonlinear_arith);
        lemma_reaches(d * 20_000_000_000, 14_826 * q, k);
    }
    lemma_nearest(d * 100_000_000_000, size(t) * 1_000 + 2);
}

proof fn lemma_median_fits(s: Seq<i64>)
    ensures
        i64::MIN <= median_of(s) <= i64::MAX,
{
    lemma_bounded_middle(s);
}

/// A rounded quotient is no more than half away from the exact one.
proof fn lemma_nearest(a: int, d: int)
    requires
        a >= 0,
        d > 0,
    ensures
        rounded(a, d) >= 0,
        size(2 * (rounded(a, d) * d - a)) <= d,
{
    let q = a / d;
    let r = a % d;
    assert(a == d * q + r && 0 <= r < d && q >= 0) by (nonlinear_arith)
        requires
            a >= 0,
            d > 0,
            q == a / d,
            r == a % d,
    ;
    assert((q + 1) * d == d * q + d) by (nonlinear_arith);
    assert(q * d == d * q) by (nonlinear_arith);
}

/// A quotient that reaches a whole number still does when it is rounded.
proof fn lemma_reaches(a: int, d: int, k: int)
    requires
        a >= 0,
        d > 0,
        a >= k * d,
    ensures
        rounded(a, d) >= k,
{
    let q = a / d;
    assert(q >= k) by (nonlinear_arith)
        requires
            a >= k * d,
            d > 0,
            q == a / d,
    ;
}

/// The list of a report: where detection is on, a metric is in it exactly if it stands out, and
/// nothing else is; where it is off, the list is empty.
pub proof fn law_list_holds_what_stands_out(
    metrics: Seq<MetricView>,
    h: Seq<SnapshotView>,
    cfg: AnomalyConfig,
    i: int,
)
    requires
        0 <= i < metrics.len(),
    ensures
        !cfg.enabled ==> anomalies_of(metrics, h, cfg).len() == 0,
        cfg.enabled ==> (anomaly_of(metrics[i], h, cfg) matches Some(a) ==> anomalies_of(
            metrics,
            h,
            cfg,
        ).contains(a)),
        forall|k: int|
            0 <= k < anomalies_of(metrics, h, cfg).len() ==> exists|j: int|
                0 <= j < metrics.len() && anomaly_of(#[trigger] metrics[j], h, cfg) == Some(
                    #[trigger] anomalies_of(metrics, h, cfg)[k],
                ),
{
    let f = |m: MetricView| anomaly_of(m, h, cfg);
    if cfg.enabled {
        lemma_kept(metrics, f, i);
        assert forall|k: int| 0 <= k < anomalies_of(metrics, h, cfg).len() implies exists|j: int|
            0 <= j < metrics.len() && anomaly_of(#[trigger] metrics[j], h, cfg) == Some(
                #[trigger] anomalies_of(metrics, h, cfg)[k],
            ) by {
            let j = lemma_from(metrics, f, k);
            assert(anomaly_of(metrics[j], h, cfg) == Some(anomalies_of(metrics, h, cfg)[k]));
        }
    }
}

/// What is found of an item is kept.
pub proof fn lemma_kept<A, B>(s: Seq<A>, f: spec_fn(A) -> Option<B>, i: int)
    requires
        0 <= i < s.len(),
    ensures
        f(s[i]) matches Some(b) ==> s.filter_map(f).contains(b),
    decreases s.len(),
{
    let n = s.len() - 1;
    lemma_filter_map_step(s, f, n);
    lemma_take_all(s);
    let front = s.take(n).filter_map(f);
    let all = s.filter_map(f);
    match f(s[i]) {
        Some(b) => {
            if i == n {
                assert(all[front.len() as int] == b);
            } else {
                lemma_kept(s.take(n), f, i);
                let k = choose|k: int| 0 <= k < front.len() && front[k] == b;
                assert(all[k] == b);
            }
        },
        None => {},
    }
}

/// What is kept was found of some item.
pub proof fn lemma_from<A, B>(s: Seq<A>, f: spec_fn(A) -> Option<B>, k: int) -> (i: int)
    requires
        0 <= k < s.filter_map(f).len(),
    ensures
        0 <= i < s.len(),
        f(s[i]) == Some(s.filter_map(f)[k]),
    decreases s.len(),
{
    if s.len() == 0 {
        return 0;
    }
    let n = s.len() - 1;
    lemma_filter_map_step(s, f, n);
    lemma_take_all(s);
    let front = s.take(n).filter_map(f);
    if k < front.len() {
        lemma_from(s.take(n), f, k)
    } else {
        n
    }
}

} // verus!
