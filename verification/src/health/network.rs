//! The metrics that two timed samples of the network counters give, and the expiry of
//! certificates.

use super::parse::{
    cert_notafter, conntrack_drops, interfaces, listen_counters, parse_cert_notafter,
    parse_conntrack_drops, parse_net_dev, parse_netstat_listen, parse_netstat_tcp_errors,
    parse_snmp_tcp, retransmits, sum_capped, tcp_error_counters, NetCounters,
};
use super::{
    bound_status, bounded, graded_ratio, ratio_status, unknown, unknown_metric, HealthStatus,
    Metric, MetricView, Thresholds,
};
use crate::quantity::{format_ratio, mib_per_second, mib_rate, per_second, rate, to_micros};
use crate::rank::{lemma_ranked, ranked, sort_descending};
use crate::text::chars::{deep, deep_option, lemma_deep_empty, lemma_deep_push};
use crate::text::compose::{join_texts, joined, map_texts};
use crate::text::number::{digits, fixed, format_fixed, format_u64, format_usize};
use crate::text::split::{lemma_filter_map_step, lemma_take_all};
use crate::textmap::lookup;
use vstd::prelude::*;
use vstd::string::StringExecFns;

verus! {

/// How far a counter has grown; nothing after a reset.
pub open spec fn growth(now: u64, before: u64) -> u64 {
    if now >= before {
        (now - before) as u64
    } else {
        0
    }
}

/// A counter that was reset between two samples (reboot or wrap) shows no growth rather
/// than a spike.
pub proof fn law_reset_is_no_spike(now: u64, before: u64)
    requires
        now <= before,
    ensures
        growth(now, before) == 0,
{
}

/// A span of nanoseconds in seconds, with one place after the point.
pub open spec fn span_text(nanos: u64) -> Seq<char> {
    fixed(nanos as int, 1_000_000_000, 1) + "s"@
}

fn format_span(nanos: u64) -> (r: String)
    ensures
        r@ == span_text(nanos),
{
    let mut s = format_fixed(nanos as u128, 1_000_000_000, 1);
    s.append("s");
    s
}

/// An interface of the second sample with its counters in both, if the first has it too.
pub open spec fn paired(before: Seq<(Seq<char>, NetCounters)>, e: (Seq<char>, NetCounters)) -> Option<
    (Seq<char>, NetCounters, NetCounters),
> {
    match lookup(before, e.0) {
        Some(prev) => Some((e.0, prev, e.1)),
        None => None,
    }
}

/// The interfaces that both samples hold.
pub open spec fn deltas(s1: Seq<char>, s2: Seq<char>) -> Seq<
    (Seq<char>, NetCounters, NetCounters),
> {
    interfaces(s2).filter_map(|e: (Seq<char>, NetCounters)| paired(interfaces(s1), e))
}

/// Interfaces present in both `/proc/net/dev` samples, paired as
/// `(name, before, after)`. Shared by the throughput and error metrics, which
/// derive different per-second rates from the same counter deltas.
pub fn net_deltas(s1: &str, s2: &str) -> (r: Vec<(String, NetCounters, NetCounters)>)
    ensures
        deep(r@) == deltas(s1@, s2@),
{
    broadcast use lemma_deep_empty;

    let before = parse_net_dev(s1);
    let after = parse_net_dev(s2);
    let ghost m = before@;
    let ghost f = |e: (Seq<char>, NetCounters)| paired(m, e);
    let mut out: Vec<(String, NetCounters, NetCounters)> = Vec::new();
    let mut i: usize = 0;
    while i < after.entries.len()
        invariant
            i <= after.entries@.len(),
            m == before@,
            f == |e: (Seq<char>, NetCounters)| paired(m, e),
            deep(out@) == after@.take(i as int).filter_map(f),
        decreases after.entries@.len() - i,
    {
        broadcast use lemma_deep_push;

        proof {
            lemma_filter_map_step(after@, f, i as int);
        }
        let name = &after.entries[i].0;
        match before.get(name.as_str()) {
            Some(prev) => {
                out.push((name.clone(), *prev, after.entries[i].1));
            },
            None => {},
        }
        i = i + 1;
    }
    proof {
        lemma_take_all(after@);
    }
    out
}

/// What an interface received and sent between two samples, in bytes.
#[derive(Debug, Clone)]
pub struct Traffic {
    pub name: String,
    pub rx: u64,
    pub tx: u64,
}

/// The model of [`Traffic`].
pub ghost struct TrafficView {
    pub name: Seq<char>,
    pub rx: u64,
    pub tx: u64,
}

impl View for Traffic {
    type V = TrafficView;

    open spec fn view(&self) -> TrafficView {
        TrafficView { name: self.name@, rx: self.rx, tx: self.tx }
    }
}

/// The traffic of an interface that is in use.
pub open spec fn traffic_of(d: (Seq<char>, NetCounters, NetCounters)) -> Option<TrafficView> {
    if d.2.rx_bytes == 0 && d.2.tx_bytes == 0 {
        None
    } else {
        Some(
            TrafficView {
                name: d.0,
                rx: growth(d.2.rx_bytes, d.1.rx_bytes),
                tx: growth(d.2.tx_bytes, d.1.tx_bytes),
            },
        )
    }
}

/// The interfaces in use, the busiest first.
pub open spec fn busiest(s1: Seq<char>, s2: Seq<char>) -> Seq<TrafficView> {
    ranked(
        deltas(s1, s2).filter_map(|d: (Seq<char>, NetCounters, NetCounters)| traffic_of(d)),
        |t: TrafficView| t.rx + t.tx,
    )
}

/// The worse verdict of the two directions.
pub open spec fn traffic_status(t: TrafficView, nanos: u64, thr: Thresholds) -> HealthStatus {
    bounded(
        mib_rate(t.rx as int, nanos),
        thr.net_rx_warn_mibps,
        thr.net_rx_crit_mibps,
    ).worse(
        bounded(mib_rate(t.tx as int, nanos), thr.net_tx_warn_mibps, thr.net_tx_crit_mibps),
    )
}

/// The worst verdict over the interfaces.
pub open spec fn worst_traffic(rows: Seq<TrafficView>, nanos: u64, thr: Thresholds) -> HealthStatus
    decreases rows.len(),
{
    if rows.len() == 0 {
        HealthStatus::Okay
    } else {
        worst_traffic(rows.drop_last(), nanos, thr).worse(traffic_status(rows.last(), nanos, thr))
    }
}

pub open spec fn traffic_label(t: TrafficView, nanos: u64) -> Seq<char> {
    t.name + " rx "@ + mib_rate(t.rx as int, nanos).text(2) + " tx "@ + mib_rate(
        t.tx as int,
        nanos,
    ).text(2)
}

#[verifier::opaque]
pub open spec fn throughput_reading(
    s1: Seq<char>,
    s2: Seq<char>,
    nanos: u64,
    thr: Thresholds,
) -> MetricView {
    let id = "health-net-throughput"@;
    let title = "Network throughput"@;
    let rows = busiest(s1, s2);
    if nanos == 0 {
        unknown_metric(id, title, "no measurable interval between samples"@)
    } else if deltas(s1, s2).len() == 0 {
        unknown_metric(id, title, "no interfaces seen in both samples"@)
    } else if rows.len() == 0 {
        unknown_metric(id, title, "no active interfaces"@)
    } else {
        MetricView {
            id,
            title,
            status: worst_traffic(rows, nanos, thr),
            value: rows[0].name + " rx "@ + mib_rate(rows[0].rx as int, nanos).text(2) + " / tx "@
                + mib_rate(rows[0].tx as int, nanos).text(2) + " MiB/s"@,
            detail: "MiB/s over "@ + span_text(nanos) + ": "@ + joined(
                rows.map_values(|t: TrafficView| traffic_label(t, nanos)),
                ", "@,
            ),
            numeric: Some(mib_rate(rows[0].rx + rows[0].tx, nanos).micros()),
        }
    }
}

fn collect_traffic(ds: &Vec<(String, NetCounters, NetCounters)>) -> (r: Vec<Traffic>)
    ensures
        deep(r@) == deep(ds@).filter_map(
            |d: (Seq<char>, NetCounters, NetCounters)| traffic_of(d),
        ),
{
    broadcast use lemma_deep_empty;

    let ghost f = |d: (Seq<char>, NetCounters, NetCounters)| traffic_of(d);
    let mut out: Vec<Traffic> = Vec::new();
    let mut i: usize = 0;
    while i < ds.len()
        invariant
            i <= ds@.len(),
            f == |d: (Seq<char>, NetCounters, NetCounters)| traffic_of(d),
            deep(out@) == deep(ds@).take(i as int).filter_map(f),
        decreases ds@.len() - i,
    {
        broadcast use lemma_deep_push;

        proof {
            lemma_filter_map_step(deep(ds@), f, i as int);
        }
        let prev = ds[i].1;
        let now = ds[i].2;
        if !(now.rx_bytes == 0 && now.tx_bytes == 0) {
            out.push(
                Traffic {
                    name: ds[i].0.clone(),
                    rx: now.rx_bytes.saturating_sub(prev.rx_bytes),
                    tx: now.tx_bytes.saturating_sub(prev.tx_bytes),
                },
            );
        }
        i = i + 1;
    }
    proof {
        lemma_take_all(deep(ds@));
    }
    out
}

fn is_busier(a: &Traffic, b: &Traffic) -> (r: bool)
    ensures
        r == (a@.rx + a@.tx > b@.rx + b@.tx),
{
    a.rx as u128 + a.tx as u128 > b.rx as u128 + b.tx as u128
}

fn judge_traffic(rows: &Vec<Traffic>, nanos: u64, thr: &Thresholds) -> (r: HealthStatus)
    requires
        nanos > 0,
    ensures
        r == worst_traffic(deep(rows@), nanos, *thr),
{
    let mut w = HealthStatus::Okay;
    let mut i: usize = 0;
    while i < rows.len()
        invariant
            nanos > 0,
            i <= rows@.len(),
            w == worst_traffic(deep(rows@).take(i as int), nanos, *thr),
        decreases rows@.len() - i,
    {
        proof {
            assert(deep(rows@).take(i + 1).drop_last() == deep(rows@).take(i as int));
        }
        let rx = mib_per_second(rows[i].rx as u128, nanos);
        let tx = mib_per_second(rows[i].tx as u128, nanos);
        let a = bound_status(rx, thr.net_rx_warn_mibps, thr.net_rx_crit_mibps);
        let b = bound_status(tx, thr.net_tx_warn_mibps, thr.net_tx_crit_mibps);
        w = w.or_worse(a.or_worse(b));
        i = i + 1;
    }
    proof {
        lemma_take_all(deep(rows@));
    }
    w
}

fn format_traffic(t: &Traffic, nanos: u64) -> (r: String)
    requires
        nanos > 0,
    ensures
        r@ == traffic_label(t@, nanos),
{
    let mut s = t.name.clone();
    s.append(" rx ");
    s.append(format_ratio(mib_per_second(t.rx as u128, nanos), 2).as_str());
    s.append(" tx ");
    s.append(format_ratio(mib_per_second(t.tx as u128, nanos), 2).as_str());
    s
}

/// Per-interface RX/TX throughput from two `/proc/net/dev` samples `nanos` nanoseconds
/// apart. Informational unless the per-direction MiB/s thresholds are set. Interfaces
/// without any traffic since boot are left out; the busiest by combined throughput leads the
/// value line, and its combined MiB/s is the number kept for history.
pub fn net_throughput_metric(s1: &str, s2: &str, nanos: u64, thr: &Thresholds) -> (r: Metric)
    ensures
        r@ == throughput_reading(s1@, s2@, nanos, *thr),
{
    proof {
        reveal(throughput_reading);
    }
    let id: &'static str = "health-net-throughput";
    let title: &'static str = "Network throughput";
    if nanos == 0 {
        return unknown(id, title, "no measurable interval between samples".to_string());
    }
    let ds = net_deltas(s1, s2);
    if ds.len() == 0 {
        return unknown(id, title, "no interfaces seen in both samples".to_string());
    }
    let rows = sort_descending(
        collect_traffic(&ds),
        is_busier,
        Ghost(|t: TrafficView| t.rx + t.tx),
    );
    if rows.len() == 0 {
        return unknown(id, title, "no active interfaces".to_string());
    }
    let status = judge_traffic(&rows, nanos, thr);
    let label = |t: &Traffic| -> (s: String)
        ensures
            s@ == traffic_label(t@, nanos),
        { format_traffic(t, nanos) };
    let labels = map_texts(&rows, label, Ghost(|t: TrafficView| traffic_label(t, nanos)));
    let mut value = rows[0].name.clone();
    value.append(" rx ");
    value.append(format_ratio(mib_per_second(rows[0].rx as u128, nanos), 2).as_str());
    value.append(" / tx ");
    value.append(format_ratio(mib_per_second(rows[0].tx as u128, nanos), 2).as_str());
    value.append(" MiB/s");
    let mut detail = "MiB/s over ".to_string();
    detail.append(format_span(nanos).as_str());
    detail.append(": ");
    detail.append(join_texts(&labels, ", ").as_str());
    let combined: u128 = rows[0].rx as u128 + rows[0].tx as u128;
    Metric {
        id,
        title,
        status,
        value,
        detail,
        numeric: Some(to_micros(mib_per_second(combined, nanos))),
    }
}

/// The errors and drops of an interface: between two samples, and since boot.
#[derive(Debug, Clone)]
pub struct Faults {
    pub name: String,
    pub errs: u64,
    pub drops: u64,
    pub total_errs: u64,
    pub total_drops: u64,
}

/// The model of [`Faults`].
pub ghost struct FaultsView {
    pub name: Seq<char>,
    pub errs: u64,
    pub drops: u64,
    pub total_errs: u64,
    pub total_drops: u64,
}

impl View for Faults {
    type V = FaultsView;

    open spec fn view(&self) -> FaultsView {
        FaultsView {
            name: self.name@,
            errs: self.errs,
            drops: self.drops,
            total_errs: self.total_errs,
            total_drops: self.total_drops,
        }
    }
}

/// Both directions together, held to what a `u64` can take.
pub open spec fn both_ways(rx: u64, tx: u64) -> u64 {
    sum_capped(rx as int, tx as int) as u64
}

pub open spec fn faults_of(d: (Seq<char>, NetCounters, NetCounters)) -> FaultsView {
    FaultsView {
        name: d.0,
        errs: both_ways(growth(d.2.rx_errs, d.1.rx_errs), growth(d.2.tx_errs, d.1.tx_errs)),
        drops: both_ways(growth(d.2.rx_drop, d.1.rx_drop), growth(d.2.tx_drop, d.1.tx_drop)),
        total_errs: both_ways(d.2.rx_errs, d.2.tx_errs),
        total_drops: both_ways(d.2.rx_drop, d.2.tx_drop),
    }
}

/// Errors count first; drops break ties.
pub open spec fn fault_rank(f: FaultsView) -> int {
    f.errs * 0x1_0000_0000_0000_0000 + f.drops
}

/// The interfaces, the one with the most errors first. Idle ones are among them: a quiet
/// link can still err.
pub open spec fn faultiest(s1: Seq<char>, s2: Seq<char>) -> Seq<FaultsView> {
    ranked(
        deltas(s1, s2).map_values(|d: (Seq<char>, NetCounters, NetCounters)| faults_of(d)),
        |f: FaultsView| fault_rank(f),
    )
}

/// The sum of a counter over the interfaces, held to what a `u64` can take.
pub open spec fn fault_sum(rows: Seq<FaultsView>, count: spec_fn(FaultsView) -> u64) -> int
    decreases rows.len(),
{
    if rows.len() == 0 {
        0
    } else {
        sum_capped(fault_sum(rows.drop_last(), count), count(rows.last()) as int)
    }
}

pub open spec fn fault_label(f: FaultsView, nanos: u64) -> Seq<char> {
    f.name + " err "@ + rate(f.errs, nanos).text(1) + "/s drop "@ + rate(f.drops, nanos).text(1)
        + "/s (since boot: err "@ + digits(f.total_errs as int) + ", drop "@ + digits(
        f.total_drops as int,
    ) + ")"@
}

#[verifier::opaque]
pub open spec fn errors_reading(
    s1: Seq<char>,
    s2: Seq<char>,
    nanos: u64,
    thr: Thresholds,
) -> MetricView {
    let id = "health-net-errors"@;
    let title = "Network errors"@;
    let rows = faultiest(s1, s2);
    if nanos == 0 {
        unknown_metric(id, title, "no measurable interval between samples"@)
    } else if deltas(s1, s2).len() == 0 {
        unknown_metric(id, title, "no interfaces seen in both samples"@)
    } else {
        MetricView {
            id,
            title,
            status: graded_ratio(
                rate(rows[0].errs, nanos),
                thr.net_err_warn_pps as int,
                thr.net_err_crit_pps as int,
            ),
            value: if rows[0].errs > 0 {
                rows[0].name + " err "@ + rate(rows[0].errs, nanos).text(1) + "/s (drop "@ + rate(
                    rows[0].drops,
                    nanos,
                ).text(1) + "/s)"@
            } else {
                "no interface errors (since boot: err "@ + digits(
                    fault_sum(rows, |f: FaultsView| f.total_errs),
                ) + ", drop "@ + digits(fault_sum(rows, |f: FaultsView| f.total_drops)) + ")"@
            },
            detail: "per-interface over "@ + span_text(nanos) + ": "@ + joined(
                rows.map_values(|f: FaultsView| fault_label(f, nanos)),
                ", "@,
            ),
            numeric: Some(
                rate(fault_sum(rows, |f: FaultsView| f.errs) as u64, nanos).micros(),
            ),
        }
    }
}

fn collect_faults(ds: &Vec<(String, NetCounters, NetCounters)>) -> (r: Vec<Faults>)
    ensures
        deep(r@) == deep(ds@).map_values(
            |d: (Seq<char>, NetCounters, NetCounters)| faults_of(d),
        ),
{
    broadcast use lemma_deep_empty;

    let ghost all = deep(ds@).map_values(|d: (Seq<char>, NetCounters, NetCounters)| faults_of(d));
    let mut out: Vec<Faults> = Vec::new();
    let mut i: usize = 0;
    while i < ds.len()
        invariant
            i <= ds@.len(),
            all == deep(ds@).map_values(
                |d: (Seq<char>, NetCounters, NetCounters)| faults_of(d),
            ),
            deep(out@) == all.take(i as int),
        decreases ds@.len() - i,
    {
        broadcast use lemma_deep_push;

        let prev = ds[i].1;
        let now = ds[i].2;
        let rx_errs: u64 = now.rx_errs.saturating_sub(prev.rx_errs);
        let tx_errs: u64 = now.tx_errs.saturating_sub(prev.tx_errs);
        let rx_drop: u64 = now.rx_drop.saturating_sub(prev.rx_drop);
        let tx_drop: u64 = now.tx_drop.saturating_sub(prev.tx_drop);
        out.push(
            Faults {
                name: ds[i].0.clone(),
                errs: rx_errs.saturating_add(tx_errs),
                drops: rx_drop.saturating_add(tx_drop),
                total_errs: now.rx_errs.saturating_add(now.tx_errs),
                total_drops: now.rx_drop.saturating_add(now.tx_drop),
            },
        );
        proof {
            assert(all.take(i + 1) == all.take(i as int).push(all[i as int]));
        }
        i = i + 1;
    }
    proof {
        lemma_take_all(all);
    }
    out
}

fn is_faultier(a: &Faults, b: &Faults) -> (r: bool)
    ensures
        r == (fault_rank(a@) > fault_rank(b@)),
{
    a.errs > b.errs || (a.errs == b.errs && a.drops > b.drops)
}

fn sum_faults<F: Fn(&Faults) -> u64>(
    rows: &Vec<Faults>,
    f: F,
    Ghost(count): Ghost<spec_fn(FaultsView) -> u64>,
) -> (r: u64)
    requires
        forall|x: &Faults| call_requires(f, (x,)),
        forall|x: &Faults, n: u64| call_ensures(f, (x,), n) ==> n == count(x@),
    ensures
        r == fault_sum(deep(rows@), count),
{
    let mut n: u64 = 0;
    let mut i: usize = 0;
    while i < rows.len()
        invariant
            i <= rows@.len(),
            n == fault_sum(deep(rows@).take(i as int), count),
            forall|x: &Faults| call_requires(f, (x,)),
            forall|x: &Faults, n: u64| call_ensures(f, (x,), n) ==> n == count(x@),
        decreases rows@.len() - i,
    {
        proof {
            assert(deep(rows@).take(i + 1).drop_last() == deep(rows@).take(i as int));
        }
        n = n.saturating_add(f(&rows[i]));
        i = i + 1;
    }
    proof {
        lemma_take_all(deep(rows@));
    }
    n
}

fn format_faults(f: &Faults, nanos: u64) -> (r: String)
    requires
        nanos > 0,
    ensures
        r@ == fault_label(f@, nanos),
{
    let mut s = f.name.clone();
    s.append(" err ");
    s.append(format_ratio(per_second(f.errs, nanos), 1).as_str());
    s.append("/s drop ");
    s.append(format_ratio(per_second(f.drops, nanos), 1).as_str());
    s.append("/s (since boot: err ");
    s.append(format_u64(f.total_errs).as_str());
    s.append(", drop ");
    s.append(format_u64(f.total_drops).as_str());
    s.append(")");
    s
}

/// Per-interface RX/TX error and drop rate from two `/proc/net/dev` samples
/// `nanos` nanoseconds apart. A healthy link produces ~0 errors, so a sustained nonzero
/// rate flags a bad NIC/driver or a saturated queue. Status is driven by the
/// *error* rate (drops can be benign under load, so they are shown as context
/// only). The total error rate over the interfaces is the number kept for history.
pub fn net_errors_metric(s1: &str, s2: &str, nanos: u64, thr: &Thresholds) -> (r: Metric)
    ensures
        r@ == errors_reading(s1@, s2@, nanos, *thr),
{
    proof {
        reveal(errors_reading);
    }
    let id: &'static str = "health-net-errors";
    let title: &'static str = "Network errors";
    if nanos == 0 {
        return unknown(id, title, "no measurable interval between samples".to_string());
    }
    let ds = net_deltas(s1, s2);
    if ds.len() == 0 {
        return unknown(id, title, "no interfaces seen in both samples".to_string());
    }
    let rows = sort_descending(
        collect_faults(&ds),
        is_faultier,
        Ghost(|f: FaultsView| fault_rank(f)),
    );
    proof {
        lemma_ranked(
            deltas(s1@, s2@).map_values(|d: (Seq<char>, NetCounters, NetCounters)| faults_of(d)),
            |f: FaultsView| fault_rank(f),
        );
        assert(rows@.len() == deep(rows@).len());
    }
    let errs: u64 = rows[0].errs;
    let drops: u64 = rows[0].drops;
    let status = ratio_status(
        per_second(errs, nanos),
        thr.net_err_warn_pps,
        thr.net_err_crit_pps,
    );
    let take_errs = |f: &Faults| -> (n: u64)
        ensures
            n == f@.errs,
        { f.errs };
    let take_total_errs = |f: &Faults| -> (n: u64)
        ensures
            n == f@.total_errs,
        { f.total_errs };
    let take_total_drops = |f: &Faults| -> (n: u64)
        ensures
            n == f@.total_drops,
        { f.total_drops };
    let all_errs = sum_faults(&rows, take_errs, Ghost(|f: FaultsView| f.errs));
    let cum_err = sum_faults(&rows, take_total_errs, Ghost(|f: FaultsView| f.total_errs));
    let cum_drop = sum_faults(&rows, take_total_drops, Ghost(|f: FaultsView| f.total_drops));
    let label = |f: &Faults| -> (s: String)
        ensures
            s@ == fault_label(f@, nanos),
        { format_faults(f, nanos) };
    let labels = map_texts(&rows, label, Ghost(|f: FaultsView| fault_label(f, nanos)));
    let value = if errs > 0 {
        let mut s = rows[0].name.clone();
        s.append(" err ");
        s.append(format_ratio(per_second(errs, nanos), 1).as_str());
        s.append("/s (drop ");
        s.append(format_ratio(per_second(drops, nanos), 1).as_str());
        s.append("/s)");
        s
    } else {
        let mut s = "no interface errors (since boot: err ".to_string();
        s.append(format_u64(cum_err).as_str());
        s.append(", drop ");
        s.append(format_u64(cum_drop).as_str());
        s.append(")");
        s
    };
    let mut detail = "per-interface over ".to_string();
    detail.append(format_span(nanos).as_str());
    detail.append(": ");
    detail.append(join_texts(&labels, ", ").as_str());
    Metric {
        id,
        title,
        status,
        value,
        detail,
        numeric: Some(to_micros(per_second(all_errs, nanos))),
    }
}

#[verifier::opaque]
pub open spec fn listen_reading(
    s1: Seq<char>,
    s2: Seq<char>,
    nanos: u64,
    thr: Thresholds,
) -> MetricView {
    let id = "health-listen-overflows"@;
    let title = "TCP accept-queue overflows"@;
    if nanos == 0 {
        unknown_metric(id, title, "no measurable interval between samples"@)
    } else {
        match (listen_counters(s1), listen_counters(s2)) {
            (Some((ovf1, drop1)), Some((ovf2, drop2))) => {
                let overflows = growth(ovf2, ovf1);
                MetricView {
                    id,
                    title,
                    status: graded_ratio(
                        rate(overflows, nanos),
                        thr.listen_overflow_warn_pps as int,
                        thr.listen_overflow_crit_pps as int,
                    ),
                    value: if overflows > 0 {
                        rate(overflows, nanos).text(1) + " overflow/s (drop "@ + rate(
                            growth(drop2, drop1),
                            nanos,
                        ).text(1) + "/s)"@
                    } else {
                        "no accept-queue overflows (since boot: "@ + digits(ovf2 as int) + ")"@
                    },
                    detail: "over "@ + span_text(nanos) + "; since boot: overflows "@ + digits(
                        ovf2 as int,
                    ) + ", drops "@ + digits(drop2 as int),
                    numeric: Some(rate(overflows, nanos).micros()),
                }
            },
            _ => unknown_metric(id, title, "netstat ListenOverflows unavailable"@),
        }
    }
}

/// TCP accept-queue overflow rate from two `/proc/net/netstat` samples `nanos`
/// nanoseconds apart. `ListenOverflows` counts times a completed connection couldn't be
/// queued because the listen backlog was full: the server not accepting fast enough (a
/// proxy/web outage that CPU and memory metrics miss). A healthy server holds this
/// at 0, so any sustained rate is meaningful; `ListenDrops` is shown as context.
/// Missing/unparseable netstat reports `Unknown`.
pub fn net_listen_metric(s1: &str, s2: &str, nanos: u64, thr: &Thresholds) -> (r: Metric)
    ensures
        r@ == listen_reading(s1@, s2@, nanos, *thr),
{
    proof {
        reveal(listen_reading);
    }
    let id: &'static str = "health-listen-overflows";
    let title: &'static str = "TCP accept-queue overflows";
    if nanos == 0 {
        return unknown(id, title, "no measurable interval between samples".to_string());
    }
    match (parse_netstat_listen(s1), parse_netstat_listen(s2)) {
        (Some((ovf1, drop1)), Some((ovf2, drop2))) => {
            let overflows: u64 = ovf2.saturating_sub(ovf1);
            let ovf_rate = per_second(overflows, nanos);
            let drop_rate = per_second(drop2.saturating_sub(drop1), nanos);
            let value = if overflows > 0 {
                let mut s = format_ratio(ovf_rate, 1);
                s.append(" overflow/s (drop ");
                s.append(format_ratio(drop_rate, 1).as_str());
                s.append("/s)");
                s
            } else {
                let mut s = "no accept-queue overflows (since boot: ".to_string();
                s.append(format_u64(ovf2).as_str());
                s.append(")");
                s
            };
            let mut detail = "over ".to_string();
            detail.append(format_span(nanos).as_str());
            detail.append("; since boot: overflows ");
            detail.append(format_u64(ovf2).as_str());
            detail.append(", drops ");
            detail.append(format_u64(drop2).as_str());
            Metric {
                id,
                title,
                status: ratio_status(
                    ovf_rate,
                    thr.listen_overflow_warn_pps,
                    thr.listen_overflow_crit_pps,
                ),
                value,
                detail,
                numeric: Some(to_micros(ovf_rate)),
            }
        },
        _ => unknown(id, title, "netstat ListenOverflows unavailable".to_string()),
    }
}

pub open spec fn conntrack_boot_text(c: (u64, u64, u64)) -> Seq<char> {
    "since boot: early_drop "@ + digits(c.1 as int) + ", insert_failed "@ + digits(c.2 as int)
        + ", drop "@ + digits(c.0 as int)
}

#[verifier::opaque]
pub open spec fn conntrack_drops_reading(
    s1: Seq<char>,
    s2: Seq<char>,
    nanos: u64,
    thr: Thresholds,
) -> MetricView {
    let id = "health-conntrack-drops"@;
    let title = "Conntrack drops"@;
    if nanos == 0 {
        unknown_metric(id, title, "no measurable interval between samples"@)
    } else {
        match (conntrack_drops(s1), conntrack_drops(s2)) {
            (Some(c1), Some(c2)) => {
                let events = growth(both_ways(c2.1, c2.2), both_ways(c1.1, c1.2));
                MetricView {
                    id,
                    title,
                    status: graded_ratio(
                        rate(events, nanos),
                        thr.conntrack_drop_warn_pps as int,
                        thr.conntrack_drop_crit_pps as int,
                    ),
                    value: if events > 0 {
                        rate(events, nanos).text(1) + " conn-drop/s ("@ + conntrack_boot_text(c2)
                            + ")"@
                    } else {
                        "no conntrack table pressure ("@ + conntrack_boot_text(c2) + ")"@
                    },
                    detail: "over "@ + span_text(nanos) + "; "@ + conntrack_boot_text(c2),
                    numeric: Some(rate(events, nanos).micros()),
                }
            },
            _ => unknown_metric(
                id,
                title,
                "nf_conntrack stats unavailable (module not loaded?)"@,
            ),
        }
    }
}

/// Rate of conntrack table-pressure events over the sample window, from
/// `/proc/net/stat/nf_conntrack`. When the table fills, the kernel evicts entries
/// early (`early_drop`) and fails to insert new ones (`insert_failed`): a
/// NAT/firewall/proxy dropping connections that the count-vs-max gauge only warns
/// is *near* full. The rate gates on `early_drop + insert_failed`; the generic
/// `drop` counter ticks routinely on high-churn hosts even when the table is far
/// from full, so it's shown as context but never gates. A healthy host holds the gated
/// rate at 0; the since-boot totals answer "were there drops already this boot?".
/// Missing/unparseable stat (or module not loaded) reports `Unknown`.
pub fn net_conntrack_drops_metric(s1: &str, s2: &str, nanos: u64, thr: &Thresholds) -> (r: Metric)
    ensures
        r@ == conntrack_drops_reading(s1@, s2@, nanos, *thr),
{
    proof {
        reveal(conntrack_drops_reading);
    }
    let id: &'static str = "health-conntrack-drops";
    let title: &'static str = "Conntrack drops";
    if nanos == 0 {
        return unknown(id, title, "no measurable interval between samples".to_string());
    }
    match (parse_conntrack_drops(s1), parse_conntrack_drops(s2)) {
        (Some((_, e1, i1)), Some((d2, e2, i2))) => {
            let before: u64 = e1.saturating_add(i1);
            let now: u64 = e2.saturating_add(i2);
            let events: u64 = now.saturating_sub(before);
            let pace = per_second(events, nanos);
            let mut since_boot = "since boot: early_drop ".to_string();
            since_boot.append(format_u64(e2).as_str());
            since_boot.append(", insert_failed ");
            since_boot.append(format_u64(i2).as_str());
            since_boot.append(", drop ");
            since_boot.append(format_u64(d2).as_str());
            let mut value = if events > 0 {
                let mut s = format_ratio(pace, 1);
                s.append(" conn-drop/s (");
                s
            } else {
                "no conntrack table pressure (".to_string()
            };
            value.append(since_boot.as_str());
            value.append(")");
            let mut detail = "over ".to_string();
            detail.append(format_span(nanos).as_str());
            detail.append("; ");
            detail.append(since_boot.as_str());
            Metric {
                id,
                title,
                status: ratio_status(
                    pace,
                    thr.conntrack_drop_warn_pps,
                    thr.conntrack_drop_crit_pps,
                ),
                value,
                detail,
                numeric: Some(to_micros(pace)),
            }
        },
        _ => unknown(
            id,
            title,
            "nf_conntrack stats unavailable (module not loaded?)".to_string(),
        ),
    }
}

/// The three pressure counters together, held to what a `u64` can take.
pub open spec fn tcp_pressure(c: (u64, u64, u64)) -> u64 {
    sum_capped(sum_capped(c.0 as int, c.1 as int), c.2 as int) as u64
}

pub open spec fn tcp_boot_text(c: (u64, u64, u64)) -> Seq<char> {
    "since boot: abort-on-mem "@ + digits(c.0 as int) + ", prune "@ + digits(c.1 as int)
        + ", rcvq-drop "@ + digits(c.2 as int)
}

/// Retransmits are context; an absent counter leaves the note out.
pub open spec fn retransmit_note(snmp1: Seq<char>, snmp2: Seq<char>, nanos: u64) -> Seq<char> {
    match (retransmits(snmp1), retransmits(snmp2)) {
        (Some(r1), Some(r2)) => ", retrans "@ + rate(growth(r2, r1), nanos).text(1) + "/s"@,
        _ => ""@,
    }
}

#[verifier::opaque]
pub open spec fn tcp_errors_reading(
    snmp1: Seq<char>,
    snmp2: Seq<char>,
    stat1: Seq<char>,
    stat2: Seq<char>,
    nanos: u64,
    thr: Thresholds,
) -> MetricView {
    let id = "health-tcp-errors"@;
    let title = "TCP stack errors"@;
    if nanos == 0 {
        unknown_metric(id, title, "no measurable interval between samples"@)
    } else {
        match (tcp_error_counters(stat1), tcp_error_counters(stat2)) {
            (Some(c1), Some(c2)) => {
                let events = growth(tcp_pressure(c2), tcp_pressure(c1));
                MetricView {
                    id,
                    title,
                    status: graded_ratio(
                        rate(events, nanos),
                        thr.tcp_err_warn_pps as int,
                        thr.tcp_err_crit_pps as int,
                    ),
                    value: if events > 0 {
                        rate(events, nanos).text(1) + " tcp-err/s ("@ + tcp_boot_text(c2) + ")"@
                    } else {
                        "no TCP stack errors ("@ + tcp_boot_text(c2) + ")"@
                    },
                    detail: "over "@ + span_text(nanos) + "; "@ + tcp_boot_text(c2)
                        + retransmit_note(snmp1, snmp2, nanos),
                    numeric: Some(rate(events, nanos).micros()),
                }
            },
            _ => unknown_metric(id, title, "netstat TcpExt counters unavailable"@),
        }
    }
}

/// Rate of TCP stack pressure events over the sample window. `TcpExt`
/// (`/proc/net/netstat`) exposes `TCPAbortOnMemory` (connection aborted, no
/// memory), `PruneCalled` (receive queue pruned under pressure) and `TCPRcvQDrop`
/// (segment dropped from a full receive queue): the stack shedding connections,
/// the failure this metric watches for. It gates on their sum; retransmits
/// (`Tcp: RetransSegs` from `/proc/net/snmp`) tick routinely on any internet-facing
/// host (packet loss, not host pressure), so they are shown as context but never gate. A
/// healthy host holds the gated rate at 0; the since-boot totals answer "did the stack
/// shed connections this boot?". Missing/unparseable `TcpExt` reports `Unknown`.
pub fn net_tcp_errors_metric(
    snmp1: &str,
    snmp2: &str,
    stat1: &str,
    stat2: &str,
    nanos: u64,
    thr: &Thresholds,
) -> (r: Metric)
    ensures
        r@ == tcp_errors_reading(snmp1@, snmp2@, stat1@, stat2@, nanos, *thr),
{
    proof {
        reveal(tcp_errors_reading);
    }
    let id: &'static str = "health-tcp-errors";
    let title: &'static str = "TCP stack errors";
    if nanos == 0 {
        return unknown(id, title, "no measurable interval between samples".to_string());
    }
    match (parse_netstat_tcp_errors(stat1), parse_netstat_tcp_errors(stat2)) {
        (Some((a1, p1, q1)), Some((a2, p2, q2))) => {
            let before: u64 = a1.saturating_add(p1).saturating_add(q1);
            let now: u64 = a2.saturating_add(p2).saturating_add(q2);
            let events: u64 = now.saturating_sub(before);
            let pace = per_second(events, nanos);
            let note = match (parse_snmp_tcp(snmp1), parse_snmp_tcp(snmp2)) {
                (Some(r1), Some(r2)) => {
                    let mut s = ", retrans ".to_string();
                    s.append(format_ratio(per_second(r2.saturating_sub(r1), nanos), 1).as_str());
                    s.append("/s");
                    s
                },
                _ => "".to_string(),
            };
            let mut since_boot = "since boot: abort-on-mem ".to_string();
            since_boot.append(format_u64(a2).as_str());
            since_boot.append(", prune ");
            since_boot.append(format_u64(p2).as_str());
            since_boot.append(", rcvq-drop ");
            since_boot.append(format_u64(q2).as_str());
            let mut value = if events > 0 {
                let mut s = format_ratio(pace, 1);
                s.append(" tcp-err/s (");
                s
            } else {
                "no TCP stack errors (".to_string()
            };
            value.append(since_boot.as_str());
            value.append(")");
            let mut detail = "over ".to_string();
            detail.append(format_span(nanos).as_str());
            detail.append("; ");
            detail.append(since_boot.as_str());
            detail.append(note.as_str());
            Metric {
                id,
                title,
                status: ratio_status(pace, thr.tcp_err_warn_pps, thr.tcp_err_crit_pps),
                value,
                detail,
                numeric: Some(to_micros(pace)),
            }
        },
        _ => unknown(id, title, "netstat TcpExt counters unavailable".to_string()),
    }
}

/// A configured certificate path with what reading it gave.
pub open spec fn cert_view(c: (String, Option<String>)) -> (Seq<char>, Option<Seq<char>>) {
    (c.0@, deep_option(c.1))
}

pub open spec fn certs_view(certs: Seq<(String, Option<String>)>) -> Seq<
    (Seq<char>, Option<Seq<char>>),
> {
    certs.map_values(|c: (String, Option<String>)| cert_view(c))
}

/// The whole days from `now` to the end of a certificate; less than zero after it.
pub open spec fn cert_days(c: (Seq<char>, Option<Seq<char>>), now: int) -> Option<int> {
    match c.1 {
        Some(output) => match cert_notafter(output) {
            Some(t) => Some((t - now) / 86_400),
            None => None,
        },
        None => None,
    }
}

/// The certificate that ends first: its days and its path; of equals the first.
pub open spec fn nearest_cert(certs: Seq<(Seq<char>, Option<Seq<char>>)>, now: int) -> Option<
    (int, Seq<char>),
>
    decreases certs.len(),
{
    if certs.len() == 0 {
        None
    } else {
        let rest = nearest_cert(certs.drop_last(), now);
        match cert_days(certs.last(), now) {
            None => rest,
            Some(days) => match rest {
                Some((least, path)) => if days < least {
                    Some((days, certs.last().0))
                } else {
                    rest
                },
                None => Some((days, certs.last().0)),
            },
        }
    }
}

pub open spec fn unreadable_certs(certs: Seq<(Seq<char>, Option<Seq<char>>)>, now: int) -> int
    decreases certs.len(),
{
    if certs.len() == 0 {
        0
    } else {
        unreadable_certs(certs.drop_last(), now) + if cert_days(certs.last(), now).is_none() {
            1int
        } else {
            0
        }
    }
}

/// A number of days in millionths, held to what an `i64` can take.
pub open spec fn day_micros(days: int) -> i64 {
    if days * 1_000_000 > i64::MAX {
        i64::MAX
    } else if days * 1_000_000 < i64::MIN {
        i64::MIN
    } else {
        (days * 1_000_000) as i64
    }
}

#[verifier::opaque]
pub open spec fn cert_reading(
    certs: Seq<(Seq<char>, Option<Seq<char>>)>,
    thr: Thresholds,
    now: int,
) -> MetricView {
    let id = "health-cert-expiry"@;
    let title = "TLS certificate expiry"@;
    let unreadable = unreadable_certs(certs, now);
    if certs.len() == 0 {
        unknown_metric(id, title, "no cert_paths configured"@)
    } else {
        match nearest_cert(certs, now) {
            None => unknown_metric(
                id,
                title,
                "no readable certificate ("@ + digits(unreadable) + " unreadable)"@,
            ),
            Some((days, path)) => MetricView {
                id,
                title,
                status: if days < 0 || days <= thr.cert_expiry_crit_days {
                    HealthStatus::Crit
                } else if days <= thr.cert_expiry_warn_days {
                    HealthStatus::Warn
                } else {
                    HealthStatus::Okay
                },
                value: if days < 0 {
                    "EXPIRED "@ + digits(-days) + " day(s) ago ("@ + path + ")"@
                } else {
                    digits(days) + " day(s) until expiry ("@ + path + ")"@
                },
                detail: "nearest of "@ + digits(certs.len() as int) + " configured cert(s)"@
                    + if unreadable > 0 {
                    ", "@ + digits(unreadable) + " unreadable"@
                } else {
                    ""@
                },
                numeric: Some(day_micros(days)),
            },
        }
    }
}

fn days_left(output: &Option<String>, now: i64) -> (r: Option<i64>)
    ensures
        match r {
            Some(d) => (output matches Some(text) && cert_notafter(text@) matches Some(t) && d == (t
                - now) / 86_400) && -0x4000_0000_0000_0000 < d < 0x4000_0000_0000_0000,
            None => output matches Some(text) ==> cert_notafter(text@).is_none(),
        },
{
    match output {
        Some(text) => match parse_cert_notafter(text.as_str()) {
            Some(t) => {
                // Division rounds down also before the epoch: the span is shifted by a whole
                // number of days until it is positive.
                let shift: i128 = 0x1_0000_0000_0000_0000;
                let span: i128 = t as i128 - now as i128 + shift * 86_400;
                let days: i128 = (span as u128 / 86_400) as i128 - shift;
                Some(days as i64)
            },
            None => None,
        },
        None => None,
    }
}

/// Days until the nearest configured TLS certificate expires. `certs` pairs each
/// configured path with its `openssl x509 -noout -enddate` output (or `None` if the
/// read failed). Reports the minimum days-remaining across all readable certs; at or
/// below `cert_expiry_crit_days` (or already expired) gives `Crit`, at or below
/// `cert_expiry_warn_days` gives `Warn`. Unreadable/unparseable certs are noted but don't
/// gate as long as at least one cert parsed. No configured paths gives `Unknown`.
pub fn cert_expiry_metric(
    certs: &[(String, Option<String>)],
    thr: &Thresholds,
    now: i64,
) -> (r: Metric)
    ensures
        r@ == cert_reading(certs_view(certs@), *thr, now as int),
{
    proof {
        reveal(cert_reading);
    }
    let id: &'static str = "health-cert-expiry";
    let title: &'static str = "TLS certificate expiry";
    if certs.len() == 0 {
        return unknown(id, title, "no cert_paths configured".to_string());
    }
    let ghost all = certs_view(certs@);
    let mut least: i64 = 0;
    let mut at: Option<usize> = None;
    let mut unreadable: usize = 0;
    let mut i: usize = 0;
    while i < certs.len()
        invariant
            all == certs_view(certs@),
            unreadable <= i <= certs@.len(),
            unreadable == unreadable_certs(all.take(i as int), now as int),
            nearest_cert(all.take(i as int), now as int) == match at {
                Some(k) => Some((least as int, certs@[k as int].0@)),
                None => None,
            },
            at matches Some(k) ==> k < i && -0x4000_0000_0000_0000 < least < 0x4000_0000_0000_0000,
        decreases certs@.len() - i,
    {
        proof {
            assert(all.take(i + 1).drop_last() == all.take(i as int));
            assert(all.take(i + 1).last() == cert_view(certs@[i as int]));
        }
        match days_left(&certs[i].1, now) {
            Some(days) => {
                let nearer = match at {
                    Some(_) => days < least,
                    None => true,
                };
                if nearer {
                    least = days;
                    at = Some(i);
                }
            },
            None => {
                unreadable = unreadable + 1;
            },
        }
        i = i + 1;
    }
    proof {
        lemma_take_all(all);
    }
    match at {
        None => {
            let mut why = "no readable certificate (".to_string();
            why.append(format_usize(unreadable).as_str());
            why.append(" unreadable)");
            unknown(id, title, why)
        },
        Some(k) => {
            let days: i64 = least;
            let status = if days < 0 || days <= thr.cert_expiry_crit_days {
                HealthStatus::Crit
            } else if days <= thr.cert_expiry_warn_days {
                HealthStatus::Warn
            } else {
                HealthStatus::Okay
            };
            let value = if days < 0 {
                let mut s = "EXPIRED ".to_string();
                s.append(format_u64((-days) as u64).as_str());
                s.append(" day(s) ago (");
                s.append(certs[k].0.as_str());
                s.append(")");
                s
            } else {
                let mut s = format_u64(days as u64);
                s.append(" day(s) until expiry (");
                s.append(certs[k].0.as_str());
                s.append(")");
                s
            };
            let note = if unreadable > 0 {
                let mut s = ", ".to_string();
                s.append(format_usize(unreadable).as_str());
                s.append(" unreadable");
                s
            } else {
                "".to_string()
            };
            let mut detail = "nearest of ".to_string();
            detail.append(format_usize(certs.len()).as_str());
            detail.append(" configured cert(s)");
            detail.append(note.as_str());
            let wide: i128 = days as i128 * 1_000_000;
            let numeric: i64 = if wide > i64::MAX as i128 {
                i64::MAX
            } else if wide < i64::MIN as i128 {
                i64::MIN
            } else {
                wide as i64
            };
            Metric { id, title, status, value, detail, numeric: Some(numeric) }
        },
    }
}

} // verus!
