//! What the network metrics say of two samples, and the certificate metric of the dates that it
//! is given.

use super::{HealthStatus, MetricView, Thresholds};
use super::metric_laws::nearest_to;
use super::network::{
    busiest, cert_days, cert_reading, conntrack_drops_reading, deltas, errors_reading, fault_rank,
    faultiest, faults_of, listen_reading, nearest_cert, paired, tcp_errors_reading,
    throughput_reading, traffic_of, traffic_status, worst_traffic, FaultsView, TrafficView,
};
use super::parse::{
    cert_date, cert_notafter, clock_time, conntrack_drops, interface_row, interfaces,
    listen_counters, month_from, numbers, tcp_error_counters, NetCounters,
};
use crate::anomaly_laws::{lemma_from, lemma_kept};
use crate::calendar::{day_number, valid_date};
use crate::quantity::{mib_rate, rate};
use crate::rank::lemma_ranked;
use crate::text::number::{
    digits, lemma_digits_are_read, lemma_digits_shape, lemma_digits_value, rounded, strip_plus,
    u16_of, u64_of, u8_of,
};
use crate::text::split::{cut, fields, lemma_filter_map_step, lemma_take_all, trim, words};
use crate::textmap::lookup;
use vstd::prelude::*;

verus! {

/// How far a counter has come from `before` to `now`; nowhere if it was reset.
pub open spec fn came(before: int, now: int, d: int) -> bool {
    if now >= before {
        before + d == now
    } else {
        d == 0
    }
}

/// So many events in so many nanoseconds are at least `bound` millionths a second.
pub open spec fn frequent(d: int, nanos: u64, bound: int) -> bool {
    d * 1_000_000_000_000_000 >= bound * nanos
}

/// The metric tells how often something happened a second.
pub open spec fn tells_rate(m: MetricView, d: int, nanos: u64, warn: i64, crit: i64) -> bool {
    &&& m.status == if frequent(d, nanos, crit as int) {
        HealthStatus::Crit
    } else if frequent(d, nanos, warn as int) {
        HealthStatus::Warn
    } else {
        HealthStatus::Okay
    }
    &&& m.numeric matches Some(x) && (x < i64::MAX ==> nearest_to(
        x as int,
        d * 1_000_000_000_000_000,
        nanos as int,
    ))
}

proof fn lemma_rate(d: u64, nanos: u64, bound: int)
    requires
        nanos > 0,
    ensures
        rate(d, nanos).reaches(bound) <==> frequent(d as int, nanos, bound),
        rate(d, nanos).micros() < i64::MAX ==> nearest_to(
            rate(d, nanos).micros() as int,
            d * 1_000_000_000_000_000,
            nanos as int,
        ),
{
    let r = rate(d, nanos);
    assert(r.num == d * 1_000_000_000 && r.den == nanos);
    let a = d * 1_000_000_000_000_000;
    assert(r.num * 1_000_000 == a);
    let n = nanos as int;
    let q = a / n;
    let rest = a % n;
    assert(a == n * q + rest && 0 <= rest < n) by (nonlinear_arith)
        requires
            n > 0,
            q == a / n,
            rest == a % n,
    ;
    assert((q + 1) * n == n * q + n) by (nonlinear_arith);
    assert(q * n == n * q) by (nonlinear_arith);
    assert(rounded(a, n) >= 0) by {
        assert(q >= 0) by (nonlinear_arith)
            requires
                a >= 0,
                n > 0,
                q == a / n,
        ;
    }
}

/// Accept-queue overflows are told by how far their counter has come.
pub proof fn law_listen_overflows(
    s1: Seq<char>,
    s2: Seq<char>,
    nanos: u64,
    thr: Thresholds,
    a: (u64, u64),
    b: (u64, u64),
    d: u64,
)
    requires
        nanos > 0,
        listen_counters(s1) == Some(a),
        listen_counters(s2) == Some(b),
        came(a.0 as int, b.0 as int, d as int),
    ensures
        tells_rate(
            listen_reading(s1, s2, nanos, thr),
            d as int,
            nanos,
            thr.listen_overflow_warn_pps,
            thr.listen_overflow_crit_pps,
        ),
{
    reveal(listen_reading);
    lemma_rate(d, nanos, thr.listen_overflow_warn_pps as int);
    lemma_rate(d, nanos, thr.listen_overflow_crit_pps as int);
}

/// The sum, held at the greatest counter.
pub open spec fn held(n: int) -> int {
    if n > u64::MAX {
        u64::MAX as int
    } else {
        n
    }
}

/// Connections that the table lost are told by how far its early drops and failed insertions
/// have come together; plain drops do not count.
pub proof fn law_lost_connections(
    s1: Seq<char>,
    s2: Seq<char>,
    nanos: u64,
    thr: Thresholds,
    a: (u64, u64, u64),
    b: (u64, u64, u64),
    d: u64,
)
    requires
        nanos > 0,
        conntrack_drops(s1) == Some(a),
        conntrack_drops(s2) == Some(b),
        came(held(a.1 + a.2), held(b.1 + b.2), d as int),
    ensures
        tells_rate(
            conntrack_drops_reading(s1, s2, nanos, thr),
            d as int,
            nanos,
            thr.conntrack_drop_warn_pps,
            thr.conntrack_drop_crit_pps,
        ),
{
    reveal(conntrack_drops_reading);
    lemma_rate(d, nanos, thr.conntrack_drop_warn_pps as int);
    lemma_rate(d, nanos, thr.conntrack_drop_crit_pps as int);
}

/// Errors of the TCP stack are told by how far its three counters have come together.
pub proof fn law_tcp_errors(
    snmp1: Seq<char>,
    snmp2: Seq<char>,
    s1: Seq<char>,
    s2: Seq<char>,
    nanos: u64,
    thr: Thresholds,
    a: (u64, u64, u64),
    b: (u64, u64, u64),
    d: u64,
)
    requires
        nanos > 0,
        tcp_error_counters(s1) == Some(a),
        tcp_error_counters(s2) == Some(b),
        came(held(a.0 + a.1 + a.2), held(b.0 + b.1 + b.2), d as int),
    ensures
        tells_rate(
            tcp_errors_reading(snmp1, snmp2, s1, s2, nanos, thr),
            d as int,
            nanos,
            thr.tcp_err_warn_pps,
            thr.tcp_err_crit_pps,
        ),
{
    reveal(tcp_errors_reading);
    lemma_rate(d, nanos, thr.tcp_err_warn_pps as int);
    lemma_rate(d, nanos, thr.tcp_err_crit_pps as int);
}

/// Without a time between the samples, no rate is known.
pub proof fn law_no_interval(
    s1: Seq<char>,
    s2: Seq<char>,
    t1: Seq<char>,
    t2: Seq<char>,
    thr: Thresholds,
)
    ensures
        listen_reading(s1, s2, 0, thr).status == HealthStatus::Unknown,
        conntrack_drops_reading(s1, s2, 0, thr).status == HealthStatus::Unknown,
        tcp_errors_reading(s1, s2, t1, t2, 0, thr).status == HealthStatus::Unknown,
        throughput_reading(s1, s2, 0, thr).status == HealthStatus::Unknown,
        errors_reading(s1, s2, 0, thr).status == HealthStatus::Unknown,
{
    reveal(listen_reading);
    reveal(conntrack_drops_reading);
    reveal(tcp_errors_reading);
    reveal(throughput_reading);
    reveal(errors_reading);
}

/// Interface `e` of the second sample is in the first too, with the counters `before`.
pub open spec fn linked(s1: Seq<char>, s2: Seq<char>, e: int, before: NetCounters) -> bool {
    0 <= e < interfaces(s2).len() && lookup(interfaces(s1), interfaces(s2)[e].0) == Some(before)
}

/// How far a counter has come.
pub open spec fn distance(before: u64, now: u64) -> int {
    if now >= before {
        now - before
    } else {
        0
    }
}

/// So many bytes in so many nanoseconds are at least `bound` millionths of a mebibyte a second,
/// and there is a bound.
pub open spec fn heavy(bytes: int, nanos: u64, bound: i64) -> bool {
    bound > 0 && bytes * 1_000_000_000_000_000 >= bound * (1024 * 1024 * nanos)
}

/// Some interface that carries traffic received or sent at least so much.
pub open spec fn some_heavy(s1: Seq<char>, s2: Seq<char>, nanos: u64, rx: i64, tx: i64) -> bool {
    exists|e: int, before: NetCounters|
        {
            let now = interfaces(s2)[e].1;
            &&& #[trigger] linked(s1, s2, e, before)
            &&& heavy(distance(before.rx_bytes, now.rx_bytes), nanos, rx) || heavy(
                distance(before.tx_bytes, now.tx_bytes),
                nanos,
                tx,
            )
        }
}

proof fn lemma_heavy(bytes: u64, nanos: u64, bound: i64)
    ensures
        heavy(bytes as int, nanos, bound) <==> bound > 0 && mib_rate(bytes as int, nanos).reaches(
            bound as int,
        ),
{
    let r = mib_rate(bytes as int, nanos);
    assert(r.num == bytes * 1_000_000_000 && r.den == nanos * 1_048_576);
    let (b, n) = (bound as int, nanos as int);
    assert(1024 * 1024 * n == n * 1_048_576) by (nonlinear_arith);
    assert(b * (1024 * 1024 * n) == b * (n * 1_048_576));
}

proof fn lemma_worst_traffic(rows: Seq<TrafficView>, nanos: u64, thr: Thresholds)
    ensures
        worst_traffic(rows, nanos, thr) == HealthStatus::Crit <==> exists|i: int|
            0 <= i < rows.len() && traffic_status(#[trigger] rows[i], nanos, thr)
                == HealthStatus::Crit,
        worst_traffic(rows, nanos, thr) == HealthStatus::Crit || worst_traffic(rows, nanos, thr)
            == HealthStatus::Warn <==> exists|i: int|
            0 <= i < rows.len() && traffic_status(#[trigger] rows[i], nanos, thr)
                != HealthStatus::Okay,
        worst_traffic(rows, nanos, thr) != HealthStatus::Unknown,
    decreases rows.len(),
{
    if rows.len() > 0 {
        let front = rows.drop_last();
        let n = rows.len() - 1;
        lemma_worst_traffic(front, nanos, thr);
        assert forall|i: int| 0 <= i < front.len() implies #[trigger] front[i] == rows[i] by {}
        let st = traffic_status(rows[n], nanos, thr);
        if worst_traffic(front, nanos, thr) == HealthStatus::Crit {
            let i = choose|i: int|
                0 <= i < front.len() && traffic_status(#[trigger] front[i], nanos, thr)
                    == HealthStatus::Crit;
            assert(traffic_status(rows[i], nanos, thr) == HealthStatus::Crit);
        }
        if worst_traffic(front, nanos, thr) != HealthStatus::Okay {
            let i = choose|i: int|
                0 <= i < front.len() && traffic_status(#[trigger] front[i], nanos, thr)
                    != HealthStatus::Okay;
            assert(traffic_status(rows[i], nanos, thr) != HealthStatus::Okay);
        }
        if exists|i: int|
            0 <= i < rows.len() && traffic_status(#[trigger] rows[i], nanos, thr)
                == HealthStatus::Crit {
            let i = choose|i: int|
                0 <= i < rows.len() && traffic_status(#[trigger] rows[i], nanos, thr)
                    == HealthStatus::Crit;
            if i < n {
                assert(traffic_status(front[i], nanos, thr) == HealthStatus::Crit);
            }
        }
        if exists|i: int|
            0 <= i < rows.len() && traffic_status(#[trigger] rows[i], nanos, thr)
                != HealthStatus::Okay {
            let i = choose|i: int|
                0 <= i < rows.len() && traffic_status(#[trigger] rows[i], nanos, thr)
                    != HealthStatus::Okay;
            if i < n {
                assert(traffic_status(front[i], nanos, thr) != HealthStatus::Okay);
            }
        }
    }
}

/// What is ranked is what was there.
proof fn lemma_ranked_members<A>(s: Seq<A>, key: spec_fn(A) -> int, x: A)
    ensures
        s.contains(x) <==> crate::rank::ranked(s, key).contains(x),
{
    broadcast use vstd::seq_lib::group_to_multiset_ensures;

    lemma_ranked(s, key);
    let r = crate::rank::ranked(s, key);
    assert(s.contains(x) <==> s.to_multiset().count(x) > 0);
    assert(r.contains(x) <==> r.to_multiset().count(x) > 0);
}

proof fn lemma_delta(s1: Seq<char>, s2: Seq<char>, e: int, before: NetCounters)
    requires
        linked(s1, s2, e, before),
    ensures
        deltas(s1, s2).contains((interfaces(s2)[e].0, before, interfaces(s2)[e].1)),
{
    let f = |x: (Seq<char>, NetCounters)| paired(interfaces(s1), x);
    lemma_kept(interfaces(s2), f, e);
}

proof fn lemma_delta_from(s1: Seq<char>, s2: Seq<char>, k: int) -> (e: int)
    requires
        0 <= k < deltas(s1, s2).len(),
    ensures
        linked(s1, s2, e, deltas(s1, s2)[k].1),
        interfaces(s2)[e].1 == deltas(s1, s2)[k].2,
        interfaces(s2)[e].0 == deltas(s1, s2)[k].0,
{
    let f = |x: (Seq<char>, NetCounters)| paired(interfaces(s1), x);
    lemma_from(interfaces(s2), f, k)
}

proof fn lemma_traffic_status(t: TrafficView, nanos: u64, thr: Thresholds)
    ensures
        traffic_status(t, nanos, thr) == HealthStatus::Crit <==> heavy(
            t.rx as int,
            nanos,
            thr.net_rx_crit_mibps,
        ) || heavy(t.tx as int, nanos, thr.net_tx_crit_mibps),
        traffic_status(t, nanos, thr) == HealthStatus::Crit || heavy(
            t.rx as int,
            nanos,
            thr.net_rx_warn_mibps,
        ) || heavy(t.tx as int, nanos, thr.net_tx_warn_mibps) <==> traffic_status(t, nanos, thr)
            != HealthStatus::Okay,
{
    lemma_heavy(t.rx, nanos, thr.net_rx_crit_mibps);
    lemma_heavy(t.tx, nanos, thr.net_tx_crit_mibps);
    lemma_heavy(t.rx, nanos, thr.net_rx_warn_mibps);
    lemma_heavy(t.tx, nanos, thr.net_tx_warn_mibps);
}

/// Row `i` of the traffic comes from an interface of both samples.
proof fn lemma_row_from(s1: Seq<char>, s2: Seq<char>, i: int) -> (r: (int, NetCounters))
    requires
        0 <= i < busiest(s1, s2).len(),
    ensures
        linked(s1, s2, r.0, r.1),
        busiest(s1, s2)[i].rx == distance(r.1.rx_bytes, interfaces(s2)[r.0].1.rx_bytes),
        busiest(s1, s2)[i].tx == distance(r.1.tx_bytes, interfaces(s2)[r.0].1.tx_bytes),
{
    let f = |d: (Seq<char>, NetCounters, NetCounters)| traffic_of(d);
    let raw = deltas(s1, s2).filter_map(f);
    let x = busiest(s1, s2)[i];
    lemma_ranked_members(raw, |t: TrafficView| t.rx + t.tx, x);
    assert(busiest(s1, s2).contains(x));
    let k = choose|k: int| 0 <= k < raw.len() && raw[k] == x;
    let j = lemma_from(deltas(s1, s2), f, k);
    let e = lemma_delta_from(s1, s2, j);
    (e, deltas(s1, s2)[j].1)
}

/// Traffic is critical exactly if some interface of both samples has come so far, in one
/// direction, that it reaches a critical bound in mebibytes a second, else a warning exactly if
/// one reaches a warning bound. A bound that is not above zero is never reached.
pub proof fn law_throughput(s1: Seq<char>, s2: Seq<char>, nanos: u64, thr: Thresholds)
    requires
        nanos > 0,
        exists|e: int, before: NetCounters| #[trigger]
            linked(s1, s2, e, before) && (interfaces(s2)[e].1.rx_bytes > 0
                || interfaces(s2)[e].1.tx_bytes > 0),
    ensures
        throughput_reading(s1, s2, nanos, thr).status == if some_heavy(
            s1,
            s2,
            nanos,
            thr.net_rx_crit_mibps,
            thr.net_tx_crit_mibps,
        ) {
            HealthStatus::Crit
        } else if some_heavy(s1, s2, nanos, thr.net_rx_warn_mibps, thr.net_tx_warn_mibps) {
            HealthStatus::Warn
        } else {
            HealthStatus::Okay
        },
{
    reveal(throughput_reading);
    let rows = busiest(s1, s2);
    let (e, before) = choose|e: int, before: NetCounters| #[trigger]
        linked(s1, s2, e, before) && (interfaces(s2)[e].1.rx_bytes > 0
            || interfaces(s2)[e].1.tx_bytes > 0);
    let i = lemma_row_of(s1, s2, e, before);
    lemma_worst_traffic(rows, nanos, thr);
    lemma_some_heavy(s1, s2, nanos, thr.net_rx_crit_mibps, thr.net_tx_crit_mibps);
    lemma_some_heavy(s1, s2, nanos, thr.net_rx_warn_mibps, thr.net_tx_warn_mibps);
    assert forall|j: int| 0 <= j < rows.len() implies (traffic_status(
        #[trigger] rows[j],
        nanos,
        thr,
    ) == HealthStatus::Crit <==> row_heavy(
        rows[j],
        nanos,
        thr.net_rx_crit_mibps,
        thr.net_tx_crit_mibps,
    )) && (traffic_status(rows[j], nanos, thr) != HealthStatus::Okay <==> row_heavy(
        rows[j],
        nanos,
        thr.net_rx_crit_mibps,
        thr.net_tx_crit_mibps,
    ) || row_heavy(rows[j], nanos, thr.net_rx_warn_mibps, thr.net_tx_warn_mibps)) by {
        lemma_traffic_status(rows[j], nanos, thr);
    }
}

spec fn row_heavy(t: TrafficView, nanos: u64, rx: i64, tx: i64) -> bool {
    heavy(t.rx as int, nanos, rx) || heavy(t.tx as int, nanos, tx)
}

proof fn lemma_row_of(s1: Seq<char>, s2: Seq<char>, e: int, before: NetCounters) -> (i: int)
    requires
        linked(s1, s2, e, before),
        interfaces(s2)[e].1.rx_bytes > 0 || interfaces(s2)[e].1.tx_bytes > 0,
    ensures
        0 <= i < busiest(s1, s2).len(),
        deltas(s1, s2).len() > 0,
        busiest(s1, s2)[i].rx == distance(before.rx_bytes, interfaces(s2)[e].1.rx_bytes),
        busiest(s1, s2)[i].tx == distance(before.tx_bytes, interfaces(s2)[e].1.tx_bytes),
{
    lemma_delta(s1, s2, e, before);
    let ds = deltas(s1, s2);
    let d = (interfaces(s2)[e].0, before, interfaces(s2)[e].1);
    let k = choose|k: int| 0 <= k < ds.len() && ds[k] == d;
    let f = |d: (Seq<char>, NetCounters, NetCounters)| traffic_of(d);
    lemma_kept(ds, f, k);
    let x = f(d)->0;
    lemma_ranked_members(ds.filter_map(f), |t: TrafficView| t.rx + t.tx, x);
    choose|i: int| 0 <= i < busiest(s1, s2).len() && busiest(s1, s2)[i] == x
}

proof fn lemma_some_heavy(s1: Seq<char>, s2: Seq<char>, nanos: u64, rx: i64, tx: i64)
    requires
        nanos > 0,
    ensures
        some_heavy(s1, s2, nanos, rx, tx) <==> exists|i: int|
            0 <= i < busiest(s1, s2).len() && row_heavy(
                #[trigger] busiest(s1, s2)[i],
                nanos,
                rx,
                tx,
            ),
{
    let rows = busiest(s1, s2);
    if some_heavy(s1, s2, nanos, rx, tx) {
        let (e, before) = choose|e: int, before: NetCounters|
            {
                let now = interfaces(s2)[e].1;
                &&& #[trigger] linked(s1, s2, e, before)
                &&& heavy(distance(before.rx_bytes, now.rx_bytes), nanos, rx) || heavy(
                    distance(before.tx_bytes, now.tx_bytes),
                    nanos,
                    tx,
                )
            };
        let now = interfaces(s2)[e].1;
        if now.rx_bytes == 0 && now.tx_bytes == 0 {
            assert(!heavy(0, nanos, rx) && !heavy(0, nanos, tx)) by {
                lemma_nothing(nanos, rx);
                lemma_nothing(nanos, tx);
            }
            assert(distance(before.rx_bytes, 0) == 0 && distance(before.tx_bytes, 0) == 0);
        } else {
            let i = lemma_row_of(s1, s2, e, before);
            assert(row_heavy(rows[i], nanos, rx, tx));
        }
    }
    if exists|i: int| 0 <= i < rows.len() && row_heavy(#[trigger] rows[i], nanos, rx, tx) {
        let i = choose|i: int| 0 <= i < rows.len() && row_heavy(#[trigger] rows[i], nanos, rx, tx);
        let (e, before) = lemma_row_from(s1, s2, i);
        assert(linked(s1, s2, e, before));
    }
}

proof fn lemma_nothing(nanos: u64, bound: i64)
    requires
        nanos > 0,
    ensures
        !heavy(0, nanos, bound),
{
    let (b, n) = (bound as int, nanos as int);
    assert(b > 0 ==> b * (1024 * 1024 * n) > 0) by (nonlinear_arith)
        requires
            n > 0,
    ;
}

/// The interface that the traffic metric names has come at least as far, both directions taken
/// together, as any other.
pub proof fn law_busiest_comes_first(
    s1: Seq<char>,
    s2: Seq<char>,
    e: int,
    before: NetCounters,
)
    requires
        linked(s1, s2, e, before),
        interfaces(s2)[e].1.rx_bytes > 0 || interfaces(s2)[e].1.tx_bytes > 0,
    ensures
        busiest(s1, s2).len() > 0,
        busiest(s1, s2)[0].rx + busiest(s1, s2)[0].tx >= distance(
            before.rx_bytes,
            interfaces(s2)[e].1.rx_bytes,
        ) + distance(before.tx_bytes, interfaces(s2)[e].1.tx_bytes),
{
    let f = |d: (Seq<char>, NetCounters, NetCounters)| traffic_of(d);
    let key = |t: TrafficView| t.rx + t.tx;
    let i = lemma_row_of(s1, s2, e, before);
    lemma_ranked(deltas(s1, s2).filter_map(f), key);
    let rows = busiest(s1, s2);
    if i > 0 {
        assert(key(rows[0]) >= key(rows[i]));
    }
}

/// The errors that an interface has counted between the samples, both directions together.
pub open spec fn new_errors(before: NetCounters, now: NetCounters) -> int {
    held(distance(before.rx_errs, now.rx_errs) + distance(before.tx_errs, now.tx_errs))
}

/// Some interface of both samples counted errors at least so often.
pub open spec fn some_failing(s1: Seq<char>, s2: Seq<char>, nanos: u64, bound: i64) -> bool {
    exists|e: int, before: NetCounters| #[trigger]
        linked(s1, s2, e, before) && frequent(
            new_errors(before, interfaces(s2)[e].1),
            nanos,
            bound as int,
        )
}

/// Network errors are critical exactly if some interface of both samples counts them at least at
/// the critical rate, else a warning exactly if one does at the warning rate. Drops do not count.
pub proof fn law_interface_errors(s1: Seq<char>, s2: Seq<char>, nanos: u64, thr: Thresholds)
    requires
        nanos > 0,
        exists|e: int, before: NetCounters| #[trigger] linked(s1, s2, e, before),
    ensures
        errors_reading(s1, s2, nanos, thr).status == if some_failing(
            s1,
            s2,
            nanos,
            thr.net_err_crit_pps,
        ) {
            HealthStatus::Crit
        } else if some_failing(s1, s2, nanos, thr.net_err_warn_pps) {
            HealthStatus::Warn
        } else {
            HealthStatus::Okay
        },
{
    reveal(errors_reading);
    let (e, before) = choose|e: int, before: NetCounters| #[trigger] linked(s1, s2, e, before);
    lemma_delta(s1, s2, e, before);
    lemma_failing(s1, s2, nanos, thr.net_err_crit_pps);
    lemma_failing(s1, s2, nanos, thr.net_err_warn_pps);
}

proof fn lemma_failing(s1: Seq<char>, s2: Seq<char>, nanos: u64, bound: i64)
    requires
        nanos > 0,
        deltas(s1, s2).len() > 0,
    ensures
        some_failing(s1, s2, nanos, bound) <==> rate(faultiest(s1, s2)[0].errs, nanos).reaches(
            bound as int,
        ),
{
    let f = |d: (Seq<char>, NetCounters, NetCounters)| faults_of(d);
    let key = |x: FaultsView| fault_rank(x);
    let ds = deltas(s1, s2);
    let raw = ds.map_values(f);
    let rows = faultiest(s1, s2);
    lemma_ranked(raw, key);
    lemma_rate(rows[0].errs, nanos, bound as int);
    if frequent(rows[0].errs as int, nanos, bound as int) {
        lemma_ranked_members(raw, key, rows[0]);
        assert(rows.contains(rows[0]));
        let k = choose|k: int| 0 <= k < raw.len() && raw[k] == rows[0];
        assert(raw[k] == faults_of(ds[k]));
        let e = lemma_delta_from(s1, s2, k);
        assert(linked(s1, s2, e, ds[k].1));
    }
    if some_failing(s1, s2, nanos, bound) {
        let (e, before) = choose|e: int, before: NetCounters| #[trigger]
            linked(s1, s2, e, before) && frequent(
                new_errors(before, interfaces(s2)[e].1),
                nanos,
                bound as int,
            );
        lemma_delta(s1, s2, e, before);
        let d = (interfaces(s2)[e].0, before, interfaces(s2)[e].1);
        let k = choose|k: int| 0 <= k < ds.len() && ds[k] == d;
        assert(raw[k] == faults_of(d));
        assert(raw.contains(faults_of(d)));
        lemma_ranked_members(raw, key, faults_of(d));
        let i = choose|i: int| 0 <= i < rows.len() && rows[i] == faults_of(d);
        if i > 0 {
            assert(key(rows[0]) >= key(rows[i]));
        }
        assert(rows[0].errs >= faults_of(d).errs);
        assert(faults_of(d).errs == new_errors(before, interfaces(s2)[e].1));
    }
}

/// An interface line has sixteen columns: those of what was received, then of what was sent.
pub proof fn law_interface_is_read(l: Seq<char>, name: Seq<char>, rest: Seq<char>, ns: Seq<u64>)
    requires
        cut(l, ':') == Some((name, rest)),
        trim(name).len() > 0,
        ns.len() >= 12,
        words(rest).len() == ns.len(),
        forall|i: int| 0 <= i < ns.len() ==> #[trigger] words(rest)[i] == digits(ns[i] as int),
    ensures
        trim(name) == "lo"@ ==> interface_row(l) is None,
        trim(name) != "lo"@ ==> (interface_row(l) matches Some((n, c)) && n == trim(name)
            && c.rx_bytes == ns[0] && c.rx_packets == ns[1] && c.rx_errs == ns[2] && c.rx_drop
            == ns[3] && c.tx_bytes == ns[8] && c.tx_packets == ns[9] && c.tx_errs == ns[10]
            && c.tx_drop == ns[11]),
{
    lemma_numbers(words(rest), ns, ns.len() as int);
    lemma_take_all(words(rest));
    assert(ns.take(ns.len() as int) =~= ns);
}

pub proof fn lemma_numbers(ws: Seq<Seq<char>>, ns: Seq<u64>, n: int)
    requires
        0 <= n <= ns.len(),
        ws.len() == ns.len(),
        forall|i: int| 0 <= i < ns.len() ==> #[trigger] ws[i] == digits(ns[i] as int),
    ensures
        numbers(ws.take(n)) == ns.take(n),
    decreases n,
{
    let f = |w: Seq<char>| u64_of(w);
    if n > 0 {
        lemma_numbers(ws, ns, n - 1);
        lemma_filter_map_step(ws, f, n - 1);
        assert(ws[n - 1] == digits(ns[n - 1] as int));
        lemma_digits_value(ns[n - 1]);
        assert(ns.take(n) =~= ns.take(n - 1).push(ns[n - 1]));
    } else {
        assert(ws.take(0).filter_map(f) =~= Seq::<u64>::empty());
        assert(ns.take(0) =~= Seq::<u64>::empty());
    }
}

/// The certificate expires at the instant.
pub open spec fn expires(c: (Seq<char>, Option<Seq<char>>), t: int) -> bool {
    c.1 matches Some(text) && cert_notafter(text) == Some(t)
}

/// Some certificate has expired or does so within the days.
pub open spec fn some_expiring(
    certs: Seq<(Seq<char>, Option<Seq<char>>)>,
    now: int,
    days: int,
) -> bool {
    exists|i: int, t: int|
        0 <= i < certs.len() && #[trigger] expires(certs[i], t) && t < now + (days + 1) * 86_400
}

/// The number of days is the least that a certificate has left, and the path that of one that has
/// as many.
pub open spec fn is_nearest(
    certs: Seq<(Seq<char>, Option<Seq<char>>)>,
    now: int,
    days: int,
    path: Seq<char>,
) -> bool {
    &&& exists|i: int|
        0 <= i < certs.len() && cert_days(#[trigger] certs[i], now) == Some(days) && certs[i].0
            == path
    &&& forall|i: int|
        0 <= i < certs.len() ==> (cert_days(#[trigger] certs[i], now) matches Some(d) ==> days <= d)
}

#[verifier::spinoff_prover]
#[verifier::rlimit(40)]
pub proof fn lemma_nearest(certs: Seq<(Seq<char>, Option<Seq<char>>)>, now: int)
    ensures
        match nearest_cert(certs, now) {
            None => forall|i: int|
                0 <= i < certs.len() ==> cert_days(#[trigger] certs[i], now) is None,
            Some((days, path)) => is_nearest(certs, now, days, path),
        },
    decreases certs.len(),
{
    if certs.len() > 0 {
        let front = certs.drop_last();
        let n = certs.len() - 1;
        lemma_nearest(front, now);
        let rest = nearest_cert(front, now);
        let last = cert_days(certs[n], now);
        match nearest_cert(certs, now) {
            None => {
                assert forall|i: int| 0 <= i < certs.len() implies cert_days(
                    #[trigger] certs[i],
                    now,
                ) is None by {
                    if i < n {
                        assert(front[i] == certs[i]);
                    }
                }
            },
            Some((days, path)) => {
                if rest == Some((days, path)) {
                    let i = choose|i: int|
                        0 <= i < front.len() && cert_days(#[trigger] front[i], now) == Some(days)
                            && front[i].0 == path;
                    assert(certs[i] == front[i]);
                } else {
                    assert(last == Some(days) && certs[n].0 == path);
                }
                assert forall|i: int| 0 <= i < certs.len() implies (cert_days(
                    #[trigger] certs[i],
                    now,
                ) matches Some(d) ==> days <= d) by {
                    if i < n {
                        assert(front[i] == certs[i]);
                    }
                }
            },
        }
    }
}

proof fn lemma_expiring(certs: Seq<(Seq<char>, Option<Seq<char>>)>, now: int, days: int)
    ensures
        some_expiring(certs, now, days) <==> (nearest_cert(certs, now) matches Some((d, _)) && d
            <= days),
{
    lemma_nearest(certs, now);
    if some_expiring(certs, now, days) {
        let (i, t) = choose|i: int, t: int|
            0 <= i < certs.len() && #[trigger] expires(certs[i], t) && t < now + (days + 1)
                * 86_400;
        assert(cert_days(certs[i], now) == Some((t - now) / 86_400));
    }
    if nearest_cert(certs, now) is Some && (nearest_cert(certs, now)->0).0 <= days {
        let d = (nearest_cert(certs, now)->0).0;
        let i = choose|i: int|
            0 <= i < certs.len() && cert_days(#[trigger] certs[i], now) == Some(d);
        let t = cert_notafter(certs[i].1->0)->0;
        assert(expires(certs[i], t));
    }
}

/// Certificates are critical exactly if one has expired or does so within the critical number of
/// days, else a warning exactly if one does within the warning number; with none that can be
/// read, nothing is known.
pub proof fn law_certificates(
    certs: Seq<(Seq<char>, Option<Seq<char>>)>,
    thr: Thresholds,
    now: int,
)
    ensures
        cert_reading(certs, thr, now).status == if !(exists|i: int, t: int|
            0 <= i < certs.len() && #[trigger] expires(certs[i], t)) {
            HealthStatus::Unknown
        } else if some_expiring(certs, now, thr.cert_expiry_crit_days as int) || some_expiring(
            certs,
            now,
            -1,
        ) {
            HealthStatus::Crit
        } else if some_expiring(certs, now, thr.cert_expiry_warn_days as int) {
            HealthStatus::Warn
        } else {
            HealthStatus::Okay
        },
{
    reveal(cert_reading);
    lemma_nearest(certs, now);
    lemma_expiring(certs, now, thr.cert_expiry_crit_days as int);
    lemma_expiring(certs, now, thr.cert_expiry_warn_days as int);
    lemma_expiring(certs, now, -1);
    if exists|i: int, t: int| 0 <= i < certs.len() && #[trigger] expires(certs[i], t) {
        let (i, t) = choose|i: int, t: int| 0 <= i < certs.len() && #[trigger] expires(certs[i], t);
        assert(cert_days(certs[i], now) is Some);
    }
    if nearest_cert(certs, now) is Some {
        let d = (nearest_cert(certs, now)->0).0;
        let i = choose|i: int|
            0 <= i < certs.len() && cert_days(#[trigger] certs[i], now) == Some(d);
        let t = cert_notafter(certs[i].1->0)->0;
        assert(expires(certs[i], t));
    }
}

/// The name that certificates give a month.
pub open spec fn month_name(m: int) -> Seq<char> {
    if m == 1 {
        "Jan"@
    } else if m == 2 {
        "Feb"@
    } else if m == 3 {
        "Mar"@
    } else if m == 4 {
        "Apr"@
    } else if m == 5 {
        "May"@
    } else if m == 6 {
        "Jun"@
    } else if m == 7 {
        "Jul"@
    } else if m == 8 {
        "Aug"@
    } else if m == 9 {
        "Sep"@
    } else if m == 10 {
        "Oct"@
    } else if m == 11 {
        "Nov"@
    } else {
        "Dec"@
    }
}

proof fn lemma_months(m: int)
    requires
        1 <= m <= 12,
    ensures
        month_from(month_name(m), 0) == Some(m),
{
    reveal_strlit("Jan");
    reveal_strlit("Feb");
    reveal_strlit("Mar");
    reveal_strlit("Apr");
    reveal_strlit("May");
    reveal_strlit("Jun");
    reveal_strlit("Jul");
    reveal_strlit("Aug");
    reveal_strlit("Sep");
    reveal_strlit("Oct");
    reveal_strlit("Nov");
    reveal_strlit("Dec");
    reveal_with_fuel(month_from, 13);
    assert("Jan"@[0] == 'J' && "Jan"@[1] == 'a');
    assert("Feb"@[0] == 'F');
    assert("Mar"@[0] == 'M' && "Mar"@[2] == 'r');
    assert("Apr"@[0] == 'A' && "Apr"@[1] == 'p');
    assert("May"@[0] == 'M' && "May"@[2] == 'y');
    assert("Jun"@[0] == 'J' && "Jun"@[1] == 'u' && "Jun"@[2] == 'n');
    assert("Jul"@[0] == 'J' && "Jul"@[1] == 'u' && "Jul"@[2] == 'l');
    assert("Aug"@[0] == 'A' && "Aug"@[1] == 'u');
    assert("Sep"@[0] == 'S');
    assert("Oct"@[0] == 'O');
    assert("Nov"@[0] == 'N');
    assert("Dec"@[0] == 'D');
}

proof fn lemma_small_number(n: u16)
    ensures
        u16_of(digits(n as int)) == Some(n),
        n < 256 ==> u8_of(digits(n as int)) == Some(n as u8),
{
    lemma_digits_are_read(n as int);
    lemma_digits_shape(n as int);
    assert(strip_plus(digits(n as int)) == digits(n as int));
}

/// A date of a certificate is read as the seconds since the start of 1970 up to it.
pub proof fn law_cert_date_is_read(
    text: Seq<char>,
    y: u16,
    m: int,
    d: u8,
    h: Seq<char>,
    min: Seq<char>,
    s: Seq<char>,
    hv: u8,
    mv: u8,
    sv: u8,
)
    requires
        words(text).len() >= 4,
        1 <= m <= 12,
        words(text)[0] == month_name(m),
        words(text)[1] == digits(d as int),
        fields(words(text)[2], ':') == seq![h, min, s],
        words(text)[3] == digits(y as int),
        u8_of(h) == Some(hv),
        u8_of(min) == Some(mv),
        u8_of(s) == Some(sv),
    ensures
        cert_date(text) == if hv < 24 && mv < 60 && sv < 60 && valid_date(y as int, m, d as int) {
            Some(
                ((day_number(y as int, m, d as int) * 24 + hv) * 60 + mv) * 60 + sv,
            )
        } else {
            None
        },
{
    lemma_months(m);
    lemma_small_number(d as u16);
    lemma_small_number(y);
    assert(clock_time(words(text)[2]) is Some <==> hv < 24 && mv < 60 && sv < 60);
}

} // verus!
