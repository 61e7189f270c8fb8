//! Per-host anomaly detection over stored health history.
//!
//! A real anomaly is a deviation from *this host's own* recent norm, not a
//! crossing of a global threshold. A **robust** baseline is built for each
//! metric (the median and the median absolute deviation (MAD) over the recent
//! history window), and the current reading is flagged when it is both statistically
//! far from the median *and* materially large. Robust statistics matter here:
//! one transient spike must not inflate the norm and mask later readings, which
//! is exactly what a mean/standard-deviation baseline would do.
//!
//! Deliberately informational: an anomaly signals an unusual workload, not a
//! hardening regression, so it never feeds the security score, the health
//! `overall` status, or the exit code. Readings are in millionths.

use crate::health::{Anomaly, AnomalyView, HealthReport, Metric, MetricView};
use crate::history::{Snapshot, SnapshotView};
use crate::quantity::capped_micros;
use crate::rank::{lemma_ranked, ranked, sort_descending};
use crate::text::chars::{deep, lemma_deep_empty, lemma_deep_push};
use crate::text::number::{round_div, rounded};
use crate::text::split::{lemma_filter_map_step, lemma_take_all};
use crate::textmap::lookup;
use vstd::prelude::*;

verus! {

/// Per-target anomaly-detection settings. Every field has a sensible default; a
/// target may override any subset via `[targets.x.anomaly]` (inherited from a
/// group the same way `health` thresholds are).
#[derive(Debug, Clone, Copy, PartialEq, Eq, Structural)]
pub struct AnomalyConfig {
    /// Master switch for this target.
    pub enabled: bool,
    /// Modified z-score threshold in millionths: flag when deviation ≥ `k` scaled-MADs.
    /// 3.5 is the Iglewicz-Hoaglin default.
    pub k: i64,
    /// Materiality floor: the change must also be at least this fraction of the
    /// baseline, in millionths (e.g. 150000 = 15%). Suppresses trivial deviations on very
    /// stable metrics, where MAD is ~0 and any wobble would otherwise look infinite.
    pub rel_floor: i64,
    /// Minimum history samples before a metric is judged (avoids false alarms on
    /// a young baseline).
    pub min_samples: usize,
    /// How many most-recent snapshots form the baseline window.
    pub window: usize,
}

impl View for AnomalyConfig {
    type V = AnomalyConfig;

    open spec fn view(&self) -> AnomalyConfig {
        *self
    }
}

pub open spec fn default_anomaly_config() -> AnomalyConfig {
    AnomalyConfig {
        enabled: true,
        k: 3_500_000,
        rel_floor: 150_000,
        min_samples: 8,
        window: 100,
    }
}

impl Default for AnomalyConfig {
    fn default() -> (r: Self)
        ensures
            r == default_anomaly_config(),
    {
        AnomalyConfig {
            enabled: true,
            k: 3_500_000,
            rel_floor: 150_000,
            min_samples: 8,
            window: 100,
        }
    }
}

/// A metric's robust baseline over a set of readings.
#[derive(Debug, Clone, Copy, PartialEq, Eq, Structural)]
pub struct Baseline {
    /// The median, rounded to millionths.
    pub median: i64,
    /// Median absolute deviation (raw, unscaled), rounded to millionths.
    pub mad: u64,
    pub n: usize,
    /// Twice the median, which is a whole number of millionths.
    pub twice_median: i128,
    /// Four times the median absolute deviation, which is a whole number of millionths.
    pub four_mads: i128,
}

/// The values in ascending order.
pub open spec fn in_order(s: Seq<i128>) -> Seq<i128> {
    ranked(s, |x: i128| -(x as int))
}

/// Twice the middle value; of an even number of values, the sum of the middle two. 0 where
/// there is none.
pub open spec fn twice_middle(s: Seq<i128>) -> int {
    let o = in_order(s);
    let n = s.len() as int;
    if n == 0 {
        0
    } else if n % 2 == 1 {
        2 * o[n / 2]
    } else {
        o[n / 2 - 1] + o[n / 2]
    }
}

/// The quotient, rounded to the nearest whole number; a tie goes to the even one.
pub open spec fn nearest(a: int, d: int) -> int {
    if a >= 0 {
        rounded(a, d)
    } else {
        -rounded(-a, d)
    }
}

pub open spec fn widened(s: Seq<i64>) -> Seq<i128> {
    s.map_values(|x: i64| x as i128)
}

/// Twice the distances of the values from half of `m`.
pub open spec fn distances(s: Seq<i64>, m: int) -> Seq<i128> {
    s.map_values(|x: i64| deviation(x as int, m) as i128)
}

/// Twice the median.
pub open spec fn twice_median(s: Seq<i64>) -> int {
    twice_middle(widened(s))
}

/// Four times the median absolute deviation.
pub open spec fn four_mads(s: Seq<i64>) -> int {
    twice_middle(distances(s, twice_median(s)))
}

/// The median in millionths.
pub open spec fn median_of(s: Seq<i64>) -> int {
    nearest(twice_median(s), 2)
}

/// The median absolute deviation in millionths.
pub open spec fn mad_of(s: Seq<i64>) -> int {
    nearest(four_mads(s), 4)
}

/// All values lie between two bounds.
pub open spec fn within(s: Seq<i128>, lo: int, hi: int) -> bool {
    forall|i: int| 0 <= i < s.len() ==> lo <= (#[trigger] s[i]) <= hi
}

pub proof fn lemma_same_members(a: Seq<i128>, b: Seq<i128>, lo: int, hi: int)
    requires
        a.to_multiset() == b.to_multiset(),
        within(a, lo, hi),
    ensures
        within(b, lo, hi),
{
    assert forall|i: int| 0 <= i < b.len() implies lo <= (#[trigger] b[i]) <= hi by {
        vstd::seq_lib::to_multiset_contains(b, b[i]);
        vstd::seq_lib::to_multiset_contains(a, b[i]);
        let k = choose|k: int| 0 <= k < a.len() && a[k] == b[i];
        assert(lo <= a[k] <= hi);
    }
}

/// Twice the middle of values lies where twice the values lie.
pub proof fn lemma_middle_within(s: Seq<i128>, lo: int, hi: int)
    requires
        within(s, lo, hi),
        lo <= 0 <= hi,
    ensures
        2 * lo <= twice_middle(s) <= 2 * hi,
        in_order(s).len() == s.len(),
        within(in_order(s), lo, hi),
{
    lemma_ranked(s, |x: i128| -(x as int));
    lemma_same_members(s, in_order(s), lo, hi);
}

fn is_smaller(a: &i128, b: &i128) -> (r: bool)
    ensures
        r == (-(a@ as int) > -(b@ as int)),
{
    *a < *b
}

fn find_middle(v: Vec<i128>) -> (r: i128)
    requires
        within(v@, -0x10_0000_0000_0000_0000, 0x10_0000_0000_0000_0000),
    ensures
        r == twice_middle(v@),
{
    let n: usize = v.len();
    let ghost s = v@;
    proof {
        assert(deep(s) == s);
        lemma_middle_within(s, -0x10_0000_0000_0000_0000, 0x10_0000_0000_0000_0000);
    }
    if n == 0 {
        return 0;
    }
    let o = sort_descending(v, is_smaller, Ghost(|x: i128| -(x as int)));
    proof {
        assert(deep(o@) == o@);
        assert(o@ == in_order(s));
    }
    if n % 2 == 1 {
        2 * o[n / 2]
    } else {
        o[n / 2 - 1] + o[n / 2]
    }
}

fn round_nearest(a: i128, d: u128) -> (r: i128)
    requires
        -0x100_0000_0000_0000_0000 <= a <= 0x100_0000_0000_0000_0000,
        2 <= d <= 4,
    ensures
        r == nearest(a as int, d as int),
        2 * a - d <= 2 * d * r <= 2 * a + d,
        a >= 0 ==> r >= 0,
        a <= 0 ==> r <= 0,
{
    let size: u128 = if a >= 0 {
        a as u128
    } else {
        (-a) as u128
    };
    let q = round_div(size, d);
    proof {
        let (x, y) = (size as int, d as int);
        assert(x == y * (x / y) + x % y) by (nonlinear_arith)
            requires
                y > 0,
        ;
        let k = x / y;
        assert(y * (k + 1) == y * k + y) by (nonlinear_arith);
        assert(2 * y * (q as int) <= 2 * x + y) by (nonlinear_arith)
            requires
                x == y * k + x % y,
                q == k && 0 <= x % y || q == k + 1 && 2 * (x % y) >= y,
                y > 0,
        ;
        assert(2 * y * (q as int) >= 2 * x - y) by (nonlinear_arith)
            requires
                x == y * k + x % y,
                q == k && 2 * (x % y) <= y || q == k + 1 && 0 <= x % y < y,
                y > 0,
        ;
        assert(2 * y * (-(q as int)) == -(2 * y * (q as int))) by (nonlinear_arith);
    }
    if a >= 0 {
        q as i128
    } else {
        -(q as i128)
    }
}

fn twice_median_of(values: &[i64]) -> (r: i128)
    ensures
        r == twice_median(values@),
        2 * i64::MIN <= r <= 2 * i64::MAX,
{
    let mut wide: Vec<i128> = Vec::new();
    let mut i: usize = 0;
    while i < values.len()
        invariant
            i <= values@.len(),
            wide@ == widened(values@).take(i as int),
        decreases values@.len() - i,
    {
        wide.push(values[i] as i128);
        proof {
            assert(widened(values@).take(i + 1) == widened(values@).take(i as int).push(
                widened(values@)[i as int],
            ));
        }
        i = i + 1;
    }
    proof {
        lemma_take_all(widened(values@));
        lemma_middle_within(wide@, i64::MIN as int, i64::MAX as int);
    }
    find_middle(wide)
}

/// Median of a slice (`0` for empty). Does not mutate the input.
pub fn median(values: &[i64]) -> (r: i64)
    ensures
        r == median_of(values@),
{
    round_nearest(twice_median_of(values), 2) as i64
}

/// Median + MAD for one metric's readings.
pub fn baseline_of(values: &[i64]) -> (r: Baseline)
    ensures
        r.median == median_of(values@),
        r.mad == mad_of(values@),
        r.n == values@.len(),
        r.twice_median == twice_median(values@),
        r.four_mads == four_mads(values@),
        2 * i64::MIN <= r.twice_median <= 2 * i64::MAX,
        0 <= r.four_mads <= 0x3_ffff_ffff_ffff_fffc,
{
    let med = twice_median_of(values);
    let ghost all = distances(values@, med as int);
    let mut devs: Vec<i128> = Vec::new();
    let mut i: usize = 0;
    while i < values.len()
        invariant
            i <= values@.len(),
            2 * i64::MIN <= med <= 2 * i64::MAX,
            all == distances(values@, med as int),
            devs@ == all.take(i as int),
        decreases values@.len() - i,
    {
        devs.push(distance(values[i], med) as i128);
        proof {
            assert(all.take(i + 1) == all.take(i as int).push(all[i as int]));
        }
        i = i + 1;
    }
    proof {
        lemma_take_all(all);
        lemma_middle_within(devs@, 0, 0x1_ffff_ffff_ffff_fffe);
    }
    let mads = find_middle(devs);
    Baseline {
        median: round_nearest(med, 2) as i64,
        mad: round_nearest(mads, 4) as u64,
        n: values.len(),
        twice_median: med,
        four_mads: mads,
    }
}

/// Twice the distance of a reading from the median, given twice the median.
pub open spec fn deviation(current: int, twice: int) -> int {
    if 2 * current >= twice {
        2 * current - twice
    } else {
        twice - 2 * current
    }
}

fn distance(current: i64, twice: i128) -> (r: u128)
    requires
        2 * i64::MIN <= twice <= 2 * i64::MAX,
    ensures
        r == deviation(current as int, twice as int),
        r <= 0x1_ffff_ffff_ffff_fffe,
{
    let x: i128 = 2 * (current as i128);
    if x >= twice {
        (x - twice) as u128
    } else {
        (twice - x) as u128
    }
}

pub open spec fn magnitude(m: int) -> int {
    if m >= 0 {
        m
    } else {
        -m
    }
}

/// The modified z-score `dev / (1.4826 * mad)` is at least `k` millionths, given twice the
/// deviation and four times the MAD. Over a flat history any deviation is infinitely far, and
/// none is no distance at all.
pub open spec fn is_far(dev: int, mads: int, k: int) -> bool {
    if mads > 0 {
        dev * 20_000_000_000 >= k * 14_826 * mads
    } else {
        dev > 0 || k <= 0
    }
}

/// The change is at least the fraction `floor` (in millionths) of the baseline, whose
/// magnitude counts as a thousandth of a millionth more, so that it is never zero; given twice
/// the deviation and twice the median.
pub open spec fn is_material(dev: int, twice: int, floor: int) -> bool {
    dev * 1_000_000_000 >= floor * (magnitude(twice) * 1_000 + 2)
}

/// The modified z-score in millionths, given twice the deviation and four times the MAD;
/// `None` where it is infinite.
pub open spec fn z_score(dev: int, mads: int) -> Option<i64> {
    if mads > 0 {
        Some(capped_micros(rounded(dev * 20_000_000_000, 14_826 * mads)))
    } else if dev > 0 {
        None
    } else {
        Some(0)
    }
}

/// The signed change against the baseline, in millionths of a percent, given twice the median.
pub open spec fn change_percent(current: int, twice: int) -> i64 {
    let size = capped_micros(
        rounded(deviation(current, twice) * 100_000_000_000, magnitude(twice) * 1_000 + 2),
    );
    if 2 * current >= twice {
        size
    } else {
        (-size) as i64
    }
}

/// A metric's readings across the window, in history order.
pub open spec fn series(history: Seq<SnapshotView>, id: Seq<char>) -> Seq<i64> {
    history.filter_map(|s: SnapshotView| lookup(s.metrics, id))
}

/// The anomaly that a metric is, if it is one.
pub open spec fn anomaly_of(
    m: MetricView,
    history: Seq<SnapshotView>,
    cfg: AnomalyConfig,
) -> Option<AnomalyView> {
    match m.numeric {
        None => None,
        Some(current) => {
            let s = series(history, m.id);
            let twice = twice_median(s);
            let mads = four_mads(s);
            let dev = deviation(current as int, twice);
            if s.len() >= cfg.min_samples && is_far(dev, mads, cfg.k as int) && is_material(
                dev,
                twice,
                cfg.rel_floor as int,
            ) {
                Some(
                    AnomalyView {
                        metric_id: m.id,
                        current,
                        median: median_of(s) as i64,
                        pct_change: change_percent(current as int, twice),
                        z: z_score(dev, mads),
                    },
                )
            } else {
                None
            }
        },
    }
}

/// The anomalies of a report.
pub open spec fn anomalies_of(
    metrics: Seq<MetricView>,
    history: Seq<SnapshotView>,
    cfg: AnomalyConfig,
) -> Seq<AnomalyView> {
    if cfg.enabled {
        metrics.filter_map(|m: MetricView| anomaly_of(m, history, cfg))
    } else {
        Seq::empty()
    }
}

fn collect_series(history: &[Snapshot], id: &str) -> (r: Vec<i64>)
    ensures
        r@ == series(deep(history@), id@),
{
    let ghost key = id@;
    let ghost f = |s: SnapshotView| lookup(s.metrics, key);
    let mut out: Vec<i64> = Vec::new();
    let mut i: usize = 0;
    while i < history.len()
        invariant
            i <= history@.len(),
            key == id@,
            f == |s: SnapshotView| lookup(s.metrics, key),
            out@ == deep(history@).take(i as int).filter_map(f),
        decreases history@.len() - i,
    {
        proof {
            lemma_filter_map_step(deep(history@), f, i as int);
        }
        match history[i].metrics.get(id) {
            Some(v) => {
                out.push(*v);
            },
            None => {},
        }
        i = i + 1;
    }
    proof {
        lemma_take_all(deep(history@));
    }
    out
}

fn check_far(dev: u128, mads: u128, k: i64) -> (r: bool)
    requires
        dev <= 0x1_ffff_ffff_ffff_fffe,
    ensures
        r == is_far(dev as int, mads as int, k as int),
{
    if mads == 0 {
        return dev > 0 || k <= 0;
    }
    let lhs: u128 = dev * 20_000_000_000;
    if k <= 0 {
        proof {
            let (a, b) = (k as int, mads as int);
            assert(a * 14_826 * b <= 0) by (nonlinear_arith)
                requires
                    a <= 0,
                    b > 0,
            ;
        }
        return true;
    }
    let scale: u128 = k as u128 * 14_826;
    proof {
        let (a, b) = (scale as int, mads as int);
        assert(a * b >= 0) by (nonlinear_arith)
            requires
                a >= 0,
                b >= 0,
        ;
    }
    match scale.checked_mul(mads) {
        Some(rhs) => lhs >= rhs,
        None => false,
    }
}

fn size_of(twice: i128) -> (r: u128)
    requires
        2 * i64::MIN <= twice <= 2 * i64::MAX,
    ensures
        r == magnitude(twice as int),
        r <= 0x1_0000_0000_0000_0000,
{
    if twice >= 0 {
        twice as u128
    } else {
        (-twice) as u128
    }
}

fn check_material(dev: u128, twice: i128, floor: i64) -> (r: bool)
    requires
        dev <= 0x1_ffff_ffff_ffff_fffe,
        2 * i64::MIN <= twice <= 2 * i64::MAX,
    ensures
        r == is_material(dev as int, twice as int, floor as int),
{
    let base: u128 = size_of(twice) * 1_000 + 2;
    let lhs: u128 = dev * 1_000_000_000;
    proof {
        let (a, b) = (floor as int, base as int);
        assert(a <= 0 ==> a * b <= 0) by (nonlinear_arith)
            requires
                b > 0,
        ;
        assert(a >= 0 ==> a * b >= 0) by (nonlinear_arith)
            requires
                b > 0,
        ;
    }
    if floor <= 0 {
        return true;
    }
    match (floor as u128).checked_mul(base) {
        Some(rhs) => lhs >= rhs,
        None => false,
    }
}

fn capped(q: u128) -> (r: i64)
    ensures
        r == capped_micros(q as int),
        r >= 0,
{
    if q <= i64::MAX as u128 {
        q as i64
    } else {
        i64::MAX
    }
}

fn score_z(dev: u128, mads: u128) -> (r: Option<i64>)
    requires
        dev <= 0x1_ffff_ffff_ffff_fffe,
        mads <= 0x3_ffff_ffff_ffff_fffc,
    ensures
        r == z_score(dev as int, mads as int),
{
    if mads > 0 {
        Some(capped(round_div(dev * 20_000_000_000, 14_826 * mads)))
    } else if dev > 0 {
        None
    } else {
        Some(0)
    }
}

fn score_change(current: i64, twice: i128) -> (r: i64)
    requires
        2 * i64::MIN <= twice <= 2 * i64::MAX,
    ensures
        r == change_percent(current as int, twice as int),
{
    let dev = distance(current, twice);
    let change = capped(round_div(dev * 100_000_000_000, size_of(twice) * 1_000 + 2));
    if 2 * (current as i128) >= twice {
        change
    } else {
        -change
    }
}

fn judge_metric(m: &Metric, history: &[Snapshot], cfg: &AnomalyConfig) -> (r: Option<Anomaly>)
    ensures
        crate::text::chars::deep_option(r) == anomaly_of(m@, deep(history@), *cfg),
{
    let current: i64 = match m.numeric {
        Some(v) => v,
        None => {
            return None;
        },
    };
    let s = collect_series(history, m.id);
    if s.len() < cfg.min_samples {
        return None;
    }
    let b = baseline_of(s.as_slice());
    let dev = distance(current, b.twice_median);
    let mads: u128 = b.four_mads as u128;
    if check_far(dev, mads, cfg.k) && check_material(dev, b.twice_median, cfg.rel_floor) {
        Some(
            Anomaly {
                metric_id: m.id.to_string(),
                current,
                median: b.median,
                pct_change: score_change(current, b.twice_median),
                z: score_z(dev, mads),
            },
        )
    } else {
        None
    }
}

/// Detects anomalies in `report` against `history` (the baseline window, newest
/// snapshots). The caller supplies the already-windowed history and the
/// resolved config. Returns one [`Anomaly`] per metric that clears both gates.
///
/// A metric is anomalous when:
///   1. it has at least `min_samples` historical readings,
///   2. its modified z-score `|x - median| / (1.4826 * MAD) ≥ k`, and
///   3. the change is material: `|x - median| ≥ rel_floor * (|median| + eps)`.
///
/// Gate 3 is what makes a flat history safe: when MAD is 0 the z-score is infinite,
/// so materiality alone decides, and a 21%→22% disk blip stays quiet.
pub fn detect(report: &HealthReport, history: &[Snapshot], cfg: &AnomalyConfig) -> (r: Vec<Anomaly>)
    ensures
        deep(r@) == anomalies_of(report@.metrics, deep(history@), *cfg),
{
    broadcast use lemma_deep_empty;

    let mut out: Vec<Anomaly> = Vec::new();
    if !cfg.enabled {
        return out;
    }
    let ghost h = deep(history@);
    let ghost c = *cfg;
    let ghost f = |m: MetricView| anomaly_of(m, h, c);
    let mut i: usize = 0;
    while i < report.metrics.len()
        invariant
            i <= report.metrics@.len(),
            h == deep(history@),
            c == *cfg,
            f == |m: MetricView| anomaly_of(m, h, c),
            deep(out@) == report@.metrics.take(i as int).filter_map(f),
        decreases report.metrics@.len() - i,
    {
        broadcast use lemma_deep_push;

        proof {
            lemma_filter_map_step(report@.metrics, f, i as int);
        }
        match judge_metric(&report.metrics[i], history, cfg) {
            Some(a) => {
                out.push(a);
            },
            None => {},
        }
        i = i + 1;
    }
    proof {
        lemma_take_all(report@.metrics);
    }
    out
}

/// A reading that sits on its median is never an anomaly, for every threshold above zero.
pub proof fn law_norm_is_no_anomaly(
    m: MetricView,
    history: Seq<SnapshotView>,
    cfg: AnomalyConfig,
)
    requires
        cfg.k > 0,
        m.numeric matches Some(v) && 2 * v == twice_median(series(history, m.id)),
    ensures
        anomaly_of(m, history, cfg).is_none(),
{
    let (k, mads) = (cfg.k as int, four_mads(series(history, m.id)));
    if mads > 0 {
        assert(k * 14_826 * mads > 0) by (nonlinear_arith)
            requires
                k > 0,
                mads > 0,
        ;
    }
}

/// A young baseline is never judged.
pub proof fn law_young_baseline_is_quiet(
    m: MetricView,
    history: Seq<SnapshotView>,
    cfg: AnomalyConfig,
)
    requires
        history.len() < cfg.min_samples,
    ensures
        anomaly_of(m, history, cfg).is_none(),
{
    lemma_series_len(history, m.id);
}

proof fn lemma_series_len(history: Seq<SnapshotView>, id: Seq<char>)
    ensures
        series(history, id).len() <= history.len(),
    decreases history.len(),
{
    if history.len() > 0 {
        lemma_series_len(history.drop_last(), id);
    }
}

/// An immaterial change is never an anomaly, however flat the history is.
pub proof fn law_immaterial_is_quiet(
    m: MetricView,
    history: Seq<SnapshotView>,
    cfg: AnomalyConfig,
)
    requires
        m.numeric matches Some(v) && !is_material(
            deviation(v as int, twice_median(series(history, m.id))),
            twice_median(series(history, m.id)),
            cfg.rel_floor as int,
        ),
    ensures
        anomaly_of(m, history, cfg).is_none(),
{
}

/// How many of the values are `c`.
pub open spec fn agreeing(s: Seq<i128>, c: i128) -> int
    decreases s.len(),
{
    if s.len() == 0 {
        0
    } else {
        agreeing(s.drop_last(), c) + if s.last() == c {
            1int
        } else {
            0
        }
    }
}

proof fn lemma_agreeing_counts(s: Seq<i128>, c: i128)
    ensures
        agreeing(s, c) == s.to_multiset().count(c),
    decreases s.len(),
{
    broadcast use vstd::seq_lib::group_to_multiset_ensures;

    if s.len() > 0 {
        lemma_agreeing_counts(s.drop_last(), c);
        assert(s == s.drop_last().push(s.last()));
    }
}

/// Where only the positions from `lo` to before `hi` may hold `c`, no more of them do.
proof fn lemma_agreeing_bound(s: Seq<i128>, c: i128, lo: int, hi: int)
    requires
        0 <= lo <= hi <= s.len(),
        forall|i: int| 0 <= i < lo ==> #[trigger] s[i] != c,
        forall|i: int| hi <= i < s.len() ==> #[trigger] s[i] != c,
    ensures
        agreeing(s, c) <= hi - lo,
    decreases s.len(),
{
    if s.len() > 0 {
        let t = s.drop_last();
        if hi == s.len() {
            if lo < hi {
                lemma_agreeing_bound(t, c, lo, hi - 1);
            } else {
                assert(s[s.len() - 1] != c);
                lemma_agreeing_bound(t, c, lo - 1, hi - 1);
            }
        } else {
            assert(s[s.len() - 1] != c);
            lemma_agreeing_bound(t, c, lo, hi);
        }
    }
}

proof fn lemma_majority_is_middle(s: Seq<i128>, c: i128)
    requires
        2 * agreeing(s, c) > s.len(),
    ensures
        twice_middle(s) == 2 * c,
{
    let o = in_order(s);
    let n = s.len() as int;
    lemma_ranked(s, |x: i128| -(x as int));
    lemma_agreeing_counts(s, c);
    lemma_agreeing_counts(o, c);
    assert forall|j: int| 0 <= j < n && (#[trigger] o[j]) < c implies agreeing(o, c) <= n - 1 - j by {
        assert forall|i: int| 0 <= i < j + 1 implies #[trigger] o[i] != c by {
            if i < j {
                assert(-(o[i] as int) >= -(o[j] as int));
            }
        }
        lemma_agreeing_bound(o, c, j + 1, n);
    }
    assert forall|j: int| 0 <= j < n && (#[trigger] o[j]) > c implies agreeing(o, c) <= j by {
        assert forall|i: int| j <= i < n implies #[trigger] o[i] != c by {
            if j < i {
                assert(-(o[j] as int) >= -(o[i] as int));
            }
        }
        lemma_agreeing_bound(o, c, 0, j);
    }
    if n == 0 {
        assert(agreeing(s, c) == 0);
    } else if n % 2 == 1 {
        assert(o[n / 2] == c);
    } else {
        assert(o[n / 2 - 1] == c);
        assert(o[n / 2] == c);
    }
}

proof fn lemma_agreeing_mapped(s: Seq<i64>, c: i64)
    ensures
        agreeing(distances(s, 2 * c), 0) == agreeing(widened(s), c as i128),
    decreases s.len(),
{
    if s.len() > 0 {
        let t = s.drop_last();
        lemma_agreeing_mapped(t, c);
        assert(distances(s, 2 * c).drop_last() =~= distances(t, 2 * c));
        assert(widened(s).drop_last() =~= widened(t));
    }
}

/// Spikes do not move the norm: as long as more than half of the readings agree on a value,
/// that value is the median and the history counts as flat, whatever the others are.
pub proof fn law_majority_is_the_norm(s: Seq<i64>, c: i64)
    requires
        2 * agreeing(widened(s), c as i128) > s.len(),
    ensures
        twice_median(s) == 2 * c,
        four_mads(s) == 0,
        median_of(s) == c,
        mad_of(s) == 0,
{
    lemma_majority_is_middle(widened(s), c as i128);
    lemma_agreeing_mapped(s, c);
    lemma_majority_is_middle(distances(s, 2 * c), 0);
}

} // verus!
