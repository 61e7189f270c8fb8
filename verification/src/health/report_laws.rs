//! What a health report holds, and how the replies of a host come into it.

use super::{
    default_thresholds, law_overall_is_worst, HealthReportView, HealthStatus, MetricView,
    Thresholds,
};
use super::collect::{
    absorbed, action_at, consistent, resumed, started, ActionView, CollectorView, Stage,
};
use super::metrics::{
    clock_reading, connections_reading, conntrack_reading, containers_reading, disk_reading,
    failed_units_reading, fd_reading, inodes_reading, iowait_reading, kernel_events_reading,
    load_reading, memory_readings, oom_reading, pids_reading, readonly_reading, reboot_reading,
    tcp_mem_reading, zombie_reading,
};
use super::network::{
    cert_reading, conntrack_drops_reading, errors_reading, listen_reading, tcp_errors_reading,
    throughput_reading,
};
use super::network_laws::held;
use super::parse::{conntrack_drops, container_uptimes, failed_units, process_rows, ProcInfoView};
use super::snapshot::{
    probe, probe_effect, put_all, report_of, snapshot_of, uptimes, with_pressure, NetSamplesView,
    ProbeEffect, SINGLE_SHOT,
};
use crate::audit::{collected, CmdOutputView, OutputsView};
use crate::rank::lemma_ranked;
use crate::ssh::{SshError, SshErrorView, SshOutput};
use crate::textmap::{lemma_lookup_put, lookup};
use vstd::prelude::*;

verus! {

/// The metrics of a report, in their order.
pub open spec fn metric_names() -> Seq<Seq<char>> {
    seq![
        "health-load"@,
        "health-memory"@,
        "health-swap"@,
        "health-disk"@,
        "health-inodes"@,
        "health-fd"@,
        "health-conntrack"@,
        "health-pids"@,
        "health-tcp-mem"@,
        "health-iowait"@,
        "health-connections"@,
        "health-failed-units"@,
        "health-zombies"@,
        "health-oom"@,
        "health-kernel-events"@,
        "health-clock-sync"@,
        "health-reboot-required"@,
        "health-fs-readonly"@,
        "health-containers"@,
        "health-net-throughput"@,
        "health-net-errors"@,
        "health-listen-overflows"@,
        "health-conntrack-drops"@,
        "health-tcp-errors"@,
        "health-cert-expiry"@,
    ]
}

proof fn lemma_load_ids(o: OutputsView, thr: Thresholds)
    ensures
        load_reading(o, thr).id == "health-load"@,
        disk_reading(o, thr).id == "health-disk"@,
        inodes_reading(o, thr).id == "health-inodes"@,
        iowait_reading(o, thr).id == "health-iowait"@,
{
    reveal(load_reading);
    reveal(disk_reading);
    reveal(inodes_reading);
    reveal(iowait_reading);
}

proof fn lemma_fill_ids(o: OutputsView, thr: Thresholds)
    ensures
        fd_reading(o, thr).id == "health-fd"@,
        conntrack_reading(o, thr).id == "health-conntrack"@,
        pids_reading(o, thr).id == "health-pids"@,
        tcp_mem_reading(o, thr).id == "health-tcp-mem"@,
{
    reveal(fd_reading);
    reveal(conntrack_reading);
    reveal(pids_reading);
    reveal(tcp_mem_reading);
}

proof fn lemma_count_ids(o: OutputsView, thr: Thresholds)
    ensures
        connections_reading(o).id == "health-connections"@,
        failed_units_reading(o, thr).id == "health-failed-units"@,
        zombie_reading(o, thr).id == "health-zombies"@,
        oom_reading(o).id == "health-oom"@,
        kernel_events_reading(o).id == "health-kernel-events"@,
{
    reveal(connections_reading);
    reveal(failed_units_reading);
    reveal(zombie_reading);
    reveal(oom_reading);
    reveal(kernel_events_reading);
}

proof fn lemma_state_ids(o: OutputsView, thr: Thresholds)
    ensures
        clock_reading(o).id == "health-clock-sync"@,
        reboot_reading(o).id == "health-reboot-required"@,
        readonly_reading(o).id == "health-fs-readonly"@,
        containers_reading(o).id == "health-containers"@,
{
    reveal(clock_reading);
    reveal(reboot_reading);
    reveal(readonly_reading);
    reveal(containers_reading);
}

proof fn lemma_network_ids(samples: Option<NetSamplesView>, thr: Thresholds)
    ensures
        ({
            let net = super::snapshot::sampled_readings(samples, thr);
            &&& net.len() == 5
            &&& net[0].id == "health-net-throughput"@
            &&& net[1].id == "health-net-errors"@
            &&& net[2].id == "health-listen-overflows"@
            &&& net[3].id == "health-conntrack-drops"@
            &&& net[4].id == "health-tcp-errors"@
        }),
{
    reveal(throughput_reading);
    reveal(errors_reading);
    reveal(listen_reading);
    reveal(conntrack_drops_reading);
    reveal(tcp_errors_reading);
}

proof fn lemma_single_ids(o: OutputsView, thr: Thresholds)
    ensures
        super::snapshot::readings(o, thr).map_values(|m: MetricView| m.id) == metric_names().take(
            19,
        ),
{
    lemma_load_ids(o, thr);
    lemma_fill_ids(o, thr);
    lemma_count_ids(o, thr);
    lemma_state_ids(o, thr);
    assert(memory_readings(o, thr).len() == 2 && memory_readings(o, thr)[0].id == "health-memory"@
        && memory_readings(o, thr)[1].id == "health-swap"@) by {
        reveal(memory_readings);
    }
    assert(super::snapshot::readings(o, thr).map_values(|m: MetricView| m.id)
        =~= metric_names().take(19));
}

/// Every report holds every metric once, in the same order, whatever could be collected.
pub proof fn law_report_holds_every_metric(
    o: OutputsView,
    samples: Option<NetSamplesView>,
    certs: Seq<(Seq<char>, Option<Seq<char>>)>,
    thr: Thresholds,
    now: int,
)
    ensures
        snapshot_of(o, samples, certs, thr, now).metrics.map_values(|m: MetricView| m.id)
            == metric_names(),
{
    lemma_single_ids(o, thr);
    lemma_network_ids(samples, thr);
    let single = super::snapshot::readings(o, thr);
    let net = super::snapshot::sampled_readings(samples, thr);
    let cert = cert_reading(certs, thr, now);
    assert(cert.id == "health-cert-expiry"@) by {
        reveal(cert_reading);
    }
    let f = |m: MetricView| m.id;
    let names = metric_names();
    assert(single.map_values(f).len() == 19);
    let all = single + net + seq![cert];
    assert forall|i: int| 0 <= i < 25 implies f(#[trigger] all[i]) == names[i] by {
        if i < 19 {
            assert(single.map_values(f)[i] == names.take(19)[i]);
        }
    }
    assert(all.map_values(f) =~= names);
}

/// Each metric of a report is measured from what the host printed, the network ones from two
/// samples of the same file each.
pub proof fn law_metrics_are_measured(
    o: OutputsView,
    s: NetSamplesView,
    certs: Seq<(Seq<char>, Option<Seq<char>>)>,
    thr: Thresholds,
    now: int,
)
    ensures
        ({
            let m = snapshot_of(o, Some(s), certs, thr, now).metrics;
            &&& m.len() == 25
            &&& m[0] == load_reading(o, thr)
            &&& m[1] == memory_readings(o, thr)[0]
            &&& m[2] == memory_readings(o, thr)[1]
            &&& m[3] == disk_reading(o, thr)
            &&& m[4] == inodes_reading(o, thr)
            &&& m[5] == fd_reading(o, thr)
            &&& m[6] == conntrack_reading(o, thr)
            &&& m[7] == pids_reading(o, thr)
            &&& m[8] == tcp_mem_reading(o, thr)
            &&& m[9] == iowait_reading(o, thr)
            &&& m[10] == connections_reading(o)
            &&& m[11] == failed_units_reading(o, thr)
            &&& m[12] == zombie_reading(o, thr)
            &&& m[13] == oom_reading(o)
            &&& m[14] == kernel_events_reading(o)
            &&& m[15] == clock_reading(o)
            &&& m[16] == reboot_reading(o)
            &&& m[17] == readonly_reading(o)
            &&& m[18] == containers_reading(o)
            &&& m[19] == throughput_reading(s.dev1, s.dev2, s.nanos, thr)
            &&& m[20] == errors_reading(s.dev1, s.dev2, s.nanos, thr)
            &&& m[21] == listen_reading(s.stat1, s.stat2, s.nanos, thr)
            &&& m[22] == conntrack_drops_reading(s.ct1, s.ct2, s.nanos, thr)
            &&& m[23] == tcp_errors_reading(s.snmp1, s.snmp2, s.stat1, s.stat2, s.nanos, thr)
            &&& m[24] == cert_reading(certs, thr, now)
        }),
{
    reveal(memory_readings);
}

/// Some metric of the report has the status.
pub open spec fn some_metric(r: HealthReportView, s: HealthStatus) -> bool {
    exists|i: int| 0 <= i < r.metrics.len() && (#[trigger] r.metrics[i]).status == s
}

/// A report is critical exactly if some metric is, else a warning exactly if some metric is,
/// else fine exactly if some metric is; with nothing known it is unknown.
pub proof fn law_report_is_as_bad_as_its_metrics(
    o: OutputsView,
    samples: Option<NetSamplesView>,
    certs: Seq<(Seq<char>, Option<Seq<char>>)>,
    thr: Thresholds,
    now: int,
)
    ensures
        ({
            let r = snapshot_of(o, samples, certs, thr, now);
            r.overall == if some_metric(r, HealthStatus::Crit) {
                HealthStatus::Crit
            } else if some_metric(r, HealthStatus::Warn) {
                HealthStatus::Warn
            } else if some_metric(r, HealthStatus::Okay) {
                HealthStatus::Okay
            } else {
                HealthStatus::Unknown
            }
        }),
{
    let r = snapshot_of(o, samples, certs, thr, now);
    law_overall_is_worst(r.metrics);
    if r.metrics.len() > 0 {
        let k = choose|k: int|
            0 <= k < r.metrics.len() && (#[trigger] r.metrics[k]).status == r.overall;
        assert(r.metrics[k].status == r.overall);
    }
}

/// The processes by memory: as many as are wanted, none with less before one with more, and none
/// left out that has more than one that is listed.
pub proof fn law_top_by_memory(
    o: OutputsView,
    thr: Thresholds,
    text: Seq<char>,
    i: int,
    j: int,
    x: ProcInfoView,
)
    requires
        collected(o, "ps -eo pid,comm,pcpu,pmem --sort=-pcpu"@) == Some(text),
    ensures
        ({
            let top = report_of(o, thr).top_mem;
            let rows = process_rows(text);
            &&& top.len() == if rows.len() < thr.top_n {
                rows.len() as int
            } else {
                thr.top_n as int
            }
            &&& 0 <= i < j < top.len() ==> top[i].mem >= top[j].mem
            &&& top.contains(x) ==> rows.contains(x)
            &&& rows.contains(x) && !top.contains(x) && 0 <= i < top.len() ==> top[i].mem >= x.mem
        }),
{
    broadcast use vstd::seq_lib::group_to_multiset_ensures;

    let rows = process_rows(text);
    let key = |p: ProcInfoView| p.mem as int;
    let all = crate::rank::ranked(rows, key);
    lemma_ranked(rows, key);
    let top = report_of(o, thr).top_mem;
    assert forall|k: int| 0 <= k < top.len() implies #[trigger] top[k] == all[k] by {}
    if 0 <= i < j < top.len() {
        assert(key(all[i]) >= key(all[j]));
    }
    assert(rows.contains(x) <==> rows.to_multiset().count(x) > 0);
    assert(all.contains(x) <==> all.to_multiset().count(x) > 0);
    if top.contains(x) {
        let k = top.index_of(x);
        assert(all[k] == x);
    }
    if rows.contains(x) && !top.contains(x) && 0 <= i < top.len() {
        let k = all.index_of(x);
        if k < top.len() {
            assert(top[k] == x);
        }
        assert(key(all[i]) >= key(all[k]));
    }
}

/// The processes by processor time are the first rows, as the host sorted them.
pub proof fn law_top_by_cpu(o: OutputsView, thr: Thresholds, text: Seq<char>, i: int)
    requires
        collected(o, "ps -eo pid,comm,pcpu,pmem --sort=-pcpu"@) == Some(text),
    ensures
        ({
            let top = report_of(o, thr).top_cpu;
            let rows = process_rows(text);
            &&& top.len() == if rows.len() < thr.top_n {
                rows.len() as int
            } else {
                thr.top_n as int
            }
            &&& 0 <= i < top.len() ==> top[i] == rows[i]
        }),
{
}

/// The pair at `i` is the last one with the key.
pub open spec fn last_of(pairs: Seq<(Seq<char>, u64)>, k: Seq<char>, i: int) -> bool {
    &&& 0 <= i < pairs.len()
    &&& pairs[i].0 == k
    &&& forall|j: int| i < j < pairs.len() ==> (#[trigger] pairs[j]).0 != k
}

/// No pair has the key.
pub open spec fn none_of(pairs: Seq<(Seq<char>, u64)>, k: Seq<char>) -> bool {
    forall|j: int| 0 <= j < pairs.len() ==> (#[trigger] pairs[j]).0 != k
}

pub proof fn lemma_put_all(
    m: Seq<(Seq<char>, u64)>,
    pairs: Seq<(Seq<char>, u64)>,
    k: Seq<char>,
    i: int,
)
    ensures
        last_of(pairs, k, i) ==> lookup(put_all(m, pairs), k) == Some(pairs[i].1),
        none_of(pairs, k) ==> lookup(put_all(m, pairs), k) == lookup(m, k),
    decreases pairs.len(),
{
    let f = |m: Seq<(Seq<char>, u64)>, p: (Seq<char>, u64)| crate::textmap::put(m, p.0, p.1);
    if pairs.len() > 0 {
        let n = pairs.len() - 1;
        let front = pairs.drop_last();
        lemma_put_all(m, front, k, i);
        assert(put_all(m, pairs) == f(put_all(m, front), pairs.last()));
        lemma_lookup_put(put_all(m, front), pairs[n].0, pairs[n].1, k);
        assert forall|j: int| 0 <= j < n implies #[trigger] front[j] == pairs[j] by {}
        if last_of(pairs, k, i) && i < n {
            assert(pairs[n].0 != k);
            assert(last_of(front, k, i));
        }
        if none_of(pairs, k) {
            assert(pairs[n].0 != k);
            assert(none_of(front, k));
        }
    } else {
        assert(put_all(m, pairs) == m);
    }
}

/// The uptime of a container is that of the last line with its name that podman lists, else of
/// the last that docker lists.
pub proof fn law_uptimes_are_by_name(
    o: OutputsView,
    docker: Seq<char>,
    podman: Seq<char>,
    name: Seq<char>,
    i: int,
)
    requires
        collected(o, "docker ps -a"@) == Some(docker),
        collected(o, "podman ps -a"@) == Some(podman),
    ensures
        last_of(container_uptimes(podman), name, i) ==> lookup(uptimes(o), name) == Some(
            container_uptimes(podman)[i].1,
        ),
        none_of(container_uptimes(podman), name) && last_of(container_uptimes(docker), name, i)
            ==> lookup(uptimes(o), name) == Some(container_uptimes(docker)[i].1),
        none_of(container_uptimes(podman), name) && none_of(container_uptimes(docker), name)
            ==> lookup(uptimes(o), name) is None,
{
    let first = put_all(Seq::empty(), container_uptimes(docker));
    lemma_put_all(Seq::empty(), container_uptimes(docker), name, i);
    lemma_put_all(first, container_uptimes(podman), name, i);
}

/// The connections that the table refused since boot are counted under a name of their own,
/// beside the other counters.
pub proof fn law_pressure_is_counted(
    counters: Seq<(Seq<char>, u64)>,
    s: NetSamplesView,
    c: (u64, u64, u64),
    name: Seq<char>,
)
    requires
        conntrack_drops(s.ct2) == Some(c),
    ensures
        lookup(with_pressure(counters, Some(s)), "conntrack table pressure"@) == Some(
            held(c.1 + c.2) as u64,
        ),
        name != "conntrack table pressure"@ ==> lookup(with_pressure(counters, Some(s)), name)
            == lookup(counters, name),
{
    let v = held(c.1 + c.2) as u64;
    lemma_lookup_put(counters, "conntrack table pressure"@, v, name);
    lemma_lookup_put(counters, "conntrack table pressure"@, v, "conntrack table pressure"@);
}

/// A report carries the failed units that the host lists.
pub proof fn law_failed_units_are_carried(o: OutputsView, thr: Thresholds, text: Seq<char>)
    requires
        collected(
            o,
            "systemctl list-units --type=service --state=failed --no-legend --no-pager"@,
        ) == Some(text),
    ensures
        report_of(o, thr).failed_units == failed_units(text),
{
}

/// Containers are listed through `sudo` with the opt-in, and without it where that fails; the
/// kernel log is read only with the opt-in; any other command is run as it is.
pub proof fn law_probes_as_they_are_run(cmd: Seq<char>)
    ensures
        probe("docker ps -a"@, false) == Some(("docker ps -a"@, None::<Seq<char>>)),
        probe("docker ps -a"@, true) == Some(("sudo -n docker ps -a"@, Some("docker ps -a"@))),
        probe("podman ps -a"@, false) == Some(("podman ps -a"@, None::<Seq<char>>)),
        probe("podman ps -a"@, true) == Some(("sudo -n podman ps -a"@, Some("podman ps -a"@))),
        probe("sudo -n dmesg"@, false) is None,
        cmd != "docker ps -a"@ && cmd != "podman ps -a"@ ==> probe(cmd, true) == Some(
            (cmd, None::<Seq<char>>),
        ),
        cmd != "docker ps -a"@ && cmd != "podman ps -a"@ && cmd != "sudo -n dmesg"@ ==> probe(
            cmd,
            false,
        ) == Some((cmd, None::<Seq<char>>)),
{
    reveal_strlit("docker ps -a");
    reveal_strlit("podman ps -a");
    reveal_strlit("sudo -n dmesg");
    assert("docker ps -a"@[0] == 'd' && "podman ps -a"@[0] == 'p' && "sudo -n dmesg"@[0] == 's');
}

/// The output of a command that succeeded is stored. A command that failed is run without `sudo`
/// if it can be, and stored as failed otherwise; a failure of the connection ends the snapshot.
pub proof fn law_probe_replies(
    cmd: Seq<char>,
    fallback: Option<Seq<char>>,
    reply: Result<SshOutput, SshError>,
)
    ensures
        reply matches Ok(out) ==> probe_effect(cmd, fallback, reply) == ProbeEffect::Store(
            CmdOutputView::Done(out.stdout@),
        ),
        reply matches Err(e) ==> (e@ is RemoteCommand ==> (match fallback {
            Some(plain) => probe_effect(cmd, fallback, reply) == ProbeEffect::Retry(plain),
            None => probe_effect(cmd, fallback, reply) matches ProbeEffect::Store(
                CmdOutputView::Failed(x),
            ) && !x.not_found,
        })),
        reply matches Err(e) ==> (!(e@ is RemoteCommand) ==> probe_effect(cmd, fallback, reply)
            == ProbeEffect::Abort(e@)),
{
}

/// A snapshot starts with nothing collected, and asks for the uptime first.
pub proof fn law_snapshot_starts_empty(thr: Thresholds, privileged: bool, certs: Seq<Seq<char>>)
    ensures
        action_at(started(thr, privileged, certs)) == ActionView::Run("uptime"@),
        started(thr, privileged, certs).outputs.len() == 0,
        started(thr, privileged, certs).samples is None,
        started(thr, privileged, certs).certs.len() == 0,
        started(thr, privileged, certs).thr == thr,
        started(thr, privileged, certs).privileged == privileged,
        started(thr, privileged, certs).cert_paths == certs,
{
    reveal_strlit("uptime");
    reveal_strlit("sudo -n dmesg");
    reveal_strlit("docker ps -a");
    reveal_strlit("podman ps -a");
    assert("uptime"@.len() == 6 && "sudo -n dmesg"@.len() == 13 && "docker ps -a"@.len() == 12
        && "podman ps -a"@.len() == 12);
    assert(SINGLE_SHOT@[0]@ == "uptime"@);
}

/// What a single command printed is collected under its name, and what was collected before
/// stays.
pub proof fn law_reply_is_collected(
    st: CollectorView,
    out: SshOutput,
    nanos: u64,
    place: usize,
    retry: bool,
    other: Seq<char>,
)
    requires
        consistent(st),
        st.stage == (Stage::Single { place, retry }),
        other != SINGLE_SHOT@[place as int]@,
    ensures
        absorbed(st, Ok(out), nanos) matches Ok(next) && collected(
            next.outputs,
            SINGLE_SHOT@[place as int]@,
        ) == Some(out.stdout@) && lookup(next.outputs, other) == lookup(st.outputs, other),
{
    let v = CmdOutputView::Done(out.stdout@);
    let cmd = SINGLE_SHOT@[place as int]@;
    lemma_lookup_put(st.outputs, cmd, v, cmd);
    lemma_lookup_put(st.outputs, cmd, v, other);
}

/// What is read twice, with a pause of at least a second and of the set time between.
pub proof fn law_samples_are_of_four_files(st: CollectorView, place: usize)
    requires
        consistent(st),
    ensures
        st.stage == (Stage::First { place }) || st.stage == (Stage::Second { place }) ==> (
        action_at(st) == ActionView::Run(
            if place == 0 {
                "cat /proc/net/dev"@
            } else if place == 1 {
                "cat /proc/net/netstat"@
            } else if place == 2 {
                "cat /proc/net/stat/nf_conntrack"@
            } else {
                "cat /proc/net/snmp"@
            },
        )),
        st.stage is Pause ==> (action_at(st) matches ActionView::Wait(s) && s >= 1 && s
            >= st.thr.net_sample_secs && (s == 1 || s == st.thr.net_sample_secs)),
        st.stage is Pause ==> resumed(st).stage == (Stage::Second { place: 0 }),
{
}

/// The last file of the second sample completes the samples: each file beside its earlier
/// reading, and the time that passed between them.
pub proof fn law_samples_are_paired(st: CollectorView, out: SshOutput, nanos: u64)
    requires
        consistent(st),
        st.stage == (Stage::Second { place: 3 }),
    ensures
        absorbed(st, Ok(out), nanos) matches Ok(next) && (next.samples matches Some(s) && s.dev1
            == st.first[0] && s.dev2 == st.second[0] && s.stat1 == st.first[1] && s.stat2
            == st.second[1] && s.ct1 == st.first[2] && s.ct2 == st.second[2] && s.snmp1
            == st.first[3] && s.snmp2 == out.stdout@ && s.nanos == nanos),
{
}

/// A sampled file is kept behind those before it; one that could not be read is kept as empty,
/// unless it is that of the interfaces, without which nothing is sampled.
pub proof fn law_sampled_file_is_kept(
    st: CollectorView,
    reply: Result<SshOutput, SshError>,
    nanos: u64,
    place: usize,
)
    requires
        consistent(st),
        st.stage == (Stage::First { place }),
    ensures
        reply matches Ok(out) ==> (absorbed(st, reply, nanos) matches Ok(next) && next.first
            == st.first.push(out.stdout@)),
        reply matches Err(e) ==> (e@ is RemoteCommand && place > 0 ==> (absorbed(
            st,
            reply,
            nanos,
        ) matches Ok(next) && next.first == st.first.push(Seq::empty()))),
        reply matches Err(e) ==> (e@ is RemoteCommand && place == 0 ==> (absorbed(
            st,
            reply,
            nanos,
        ) matches Ok(next) && next.samples == st.samples && (next.stage is Certificate || next.stage
            is Done))),
        reply matches Err(e) ==> (!(e@ is RemoteCommand) ==> absorbed(st, reply, nanos)
            == Err::<CollectorView, SshErrorView>(e@)),
{
}

/// A certificate is read by its path, and kept with what was printed of it, or with nothing if it
/// could not be read.
pub proof fn law_certificate_is_kept(
    st: CollectorView,
    reply: Result<SshOutput, SshError>,
    nanos: u64,
    place: usize,
)
    requires
        consistent(st),
        st.stage == (Stage::Certificate { place }),
    ensures
        action_at(st) == ActionView::Run(
            "openssl x509 -in "@ + st.cert_paths[place as int] + " -noout -enddate"@,
        ),
        reply matches Ok(out) ==> (absorbed(st, reply, nanos) matches Ok(next) && next.certs
            == st.certs.push((st.cert_paths[place as int], Some(out.stdout@)))),
        reply matches Err(e) ==> (e@ is RemoteCommand ==> (absorbed(
            st,
            reply,
            nanos,
        ) matches Ok(next) && next.certs == st.certs.push(
            (st.cert_paths[place as int], None::<Seq<char>>),
        ))),
{
}

/// The thresholds of a host that sets none: a warning comes before it is critical, and no traffic
/// is too much.
pub proof fn law_default_thresholds()
    ensures
        ({
            let t = default_thresholds();
            &&& t.la_per_core_warn == 1_000_000 && t.la_per_core_crit == 2_000_000
            &&& t.mem_used_warn_pct == 85 && t.mem_used_crit_pct == 95
            &&& t.swap_used_warn_pct == 50 && t.swap_used_crit_pct == 90
            &&& t.disk_warn_pct == 85 && t.disk_crit_pct == 95
            &&& t.fd_warn_pct == 80 && t.fd_crit_pct == 95
            &&& t.conntrack_warn_pct == 80 && t.conntrack_crit_pct == 90
            &&& t.pid_warn_pct == 80 && t.pid_crit_pct == 90
            &&& t.tcp_warn_pct == 80 && t.tcp_crit_pct == 90
            &&& t.iowait_warn_pct == 20_000_000 && t.iowait_crit_pct == 50_000_000
            &&& t.net_rx_warn_mibps == 0 && t.net_rx_crit_mibps == 0
            &&& t.net_tx_warn_mibps == 0 && t.net_tx_crit_mibps == 0
            &&& t.net_err_warn_pps == 1_000_000 && t.net_err_crit_pps == 10_000_000
            &&& t.listen_overflow_warn_pps == 1_000_000 && t.listen_overflow_crit_pps == 10_000_000
            &&& t.conntrack_drop_warn_pps == 1_000_000 && t.conntrack_drop_crit_pps == 10_000_000
            &&& t.tcp_err_warn_pps == 1_000_000 && t.tcp_err_crit_pps == 10_000_000
            &&& t.cert_expiry_warn_days == 21 && t.cert_expiry_crit_days == 7
            &&& t.net_sample_secs == 1 && t.failed_units_crit == 0 && t.zombie_crit == 0
            &&& t.top_n == 5
        }),
{
}

} // verus!
