//! Which commands a health snapshot runs, and the report that their outputs give.

use super::metrics::{
    clock_reading, clock_sync_metric, connections_reading, conntrack_metric, conntrack_reading,
    containers_metric, containers_reading, disk_metric, disk_reading, failed_units_metric,
    failed_units_reading, fd_metric, fd_reading, fs_readonly_metric, inodes_metric, inodes_reading,
    iowait_metric, iowait_reading, kernel_events_metric, kernel_events_reading, load_metric,
    load_reading, memory_metrics, memory_readings, network_metric, oom_metric, oom_reading,
    pids_metric, pids_reading, readonly_reading, reboot_reading, reboot_required_metric,
    tcp_mem_metric, tcp_mem_reading, zombie_metric, zombie_reading,
};
use super::network::{
    both_ways, cert_expiry_metric, cert_reading, certs_view, conntrack_drops_reading,
    errors_reading, listen_reading, net_conntrack_drops_metric, net_errors_metric,
    net_listen_metric, net_tcp_errors_metric, net_throughput_metric, tcp_errors_reading,
    throughput_reading,
};
use super::parse::{
    conntrack_drops, container_uptimes, failed_units, kernel_events, parse_conntrack_drops,
    parse_container_uptimes, parse_failed_units, parse_kernel_events, parse_ps, process_rows,
    KernelEventCategoryView, ProcInfo, ProcInfoView,
};
use super::{
    unknown, unknown_metric, worst, worst_status, HealthReport, HealthReportView, HealthStatus,
    Metric, MetricView, Thresholds, CONNTRACK, CONNTRACK_STAT, DF, DF_INODES, DOCKER_PS, FILE_NR,
    FREE, LS_RUN, NETDEV, NETSTAT, NPROC, OOM_DMESG, PIDS, PODMAN_PS, PROC_MOUNTS, PS, PS_STAT,
    SNMP, SOCKSTAT, SS, SUDO_DOCKER_PS, SUDO_PODMAN_PS, SYSTEMCTL_FAILED, TIMEDATECTL, UPTIME,
    VMSTAT,
};
use crate::audit::{
    collected, CmdError, CmdErrorView, CmdOutputView, Outputs, OutputsView,
};
use crate::catalog::{
    law_catalog_accepted, listed, refusal, CERT_READ_PREFIX, CERT_READ_SUFFIX, READONLY_COMMANDS,
};
use crate::rank::{ranked, sort_descending};
use crate::ssh::{remote_failure, remote_failure_text, SshError, SshErrorView, SshOutput};
use crate::text::chars::{deep, deep_option, lemma_deep_empty, lemma_deep_push};
use crate::text::search::{eq_text, starts_with};
use crate::text::split::{lemma_fold_step, lemma_take_all};
use crate::textmap::{put, TextMap};
use vstd::prelude::*;
use vstd::string::StringExecFns;

verus! {

/// Commands snapped exactly once per snapshot.
pub const SINGLE_SHOT: [&'static str; 20] = [
    UPTIME,
    NPROC,
    FREE,
    DF,
    DF_INODES,
    FILE_NR,
    CONNTRACK,
    PIDS,
    SOCKSTAT,
    PS,
    PS_STAT,
    SS,
    VMSTAT,
    SYSTEMCTL_FAILED,
    OOM_DMESG,
    DOCKER_PS,
    PODMAN_PS,
    TIMEDATECTL,
    LS_RUN,
    PROC_MOUNTS,
];

/// Every read-only command the health snapshot may issue, besides certificate reads.
pub const HEALTH_COMMANDS: [&'static str; 26] = [
    UPTIME,
    NPROC,
    FREE,
    DF,
    DF_INODES,
    FILE_NR,
    CONNTRACK,
    PIDS,
    SOCKSTAT,
    PS,
    PS_STAT,
    SS,
    VMSTAT,
    SYSTEMCTL_FAILED,
    OOM_DMESG,
    DOCKER_PS,
    PODMAN_PS,
    SUDO_DOCKER_PS,
    SUDO_PODMAN_PS,
    NETDEV,
    NETSTAT,
    CONNTRACK_STAT,
    SNMP,
    TIMEDATECTL,
    LS_RUN,
    PROC_MOUNTS,
];

/// The command to try for a container probe, and the one to fall back to.
pub open spec fn container_variant(cmd: Seq<char>, privileged: bool) -> (
    Seq<char>,
    Option<Seq<char>>,
) {
    if cmd == PODMAN_PS@ {
        if privileged {
            (SUDO_PODMAN_PS@, Some(PODMAN_PS@))
        } else {
            (PODMAN_PS@, None)
        }
    } else if cmd == DOCKER_PS@ && privileged {
        (SUDO_DOCKER_PS@, Some(DOCKER_PS@))
    } else {
        (DOCKER_PS@, None)
    }
}

/// The wire command for a container probe: on a `privileged` target the `sudo -n`
/// variant is authoritative (many hosts need root/docker-group to run the CLI);
/// otherwise the plain command. Returns `(preferred, fallback)`: the fallback is
/// the plain command, tried if the privileged read fails (a missing sudo grant
/// must not regress a host where the plain command already worked). A non-privileged
/// target has no fallback.
pub fn container_command(cmd: &str, privileged: bool) -> (r: (&'static str, Option<&'static str>))
    ensures
        (r.0@, deep_option(r.1)) == container_variant(cmd@, privileged),
{
    if eq_text(cmd, PODMAN_PS) {
        if privileged {
            (SUDO_PODMAN_PS, Some(PODMAN_PS))
        } else {
            (PODMAN_PS, None)
        }
    } else if eq_text(cmd, DOCKER_PS) && privileged {
        (SUDO_DOCKER_PS, Some(DOCKER_PS))
    } else {
        (DOCKER_PS, None)
    }
}

pub open spec fn is_container_probe(cmd: Seq<char>) -> bool {
    cmd == DOCKER_PS@ || cmd == PODMAN_PS@
}

/// What to run for a single-shot command, and what to fall back to; nothing where the
/// command needs an opt-in that the target lacks.
pub open spec fn probe(cmd: Seq<char>, privileged: bool) -> Option<(Seq<char>, Option<Seq<char>>)> {
    if cmd == OOM_DMESG@ && !privileged {
        None
    } else if is_container_probe(cmd) {
        Some(container_variant(cmd, privileged))
    } else {
        Some((cmd, None))
    }
}

/// What to run for a single-shot command. The kernel log is only read on an opted-in
/// target; elsewhere it is left uncollected, so the metrics that need it report `Unknown`.
/// Container probes may need privilege; their result is stored under the plain command, so
/// that the readers stay unaware of which variant ran.
pub fn probe_for(cmd: &'static str, privileged: bool) -> (r: Option<
    (&'static str, Option<&'static str>),
>)
    ensures
        match r {
            Some((wire, fallback)) => probe(cmd@, privileged) == Some(
                (wire@, deep_option(fallback)),
            ),
            None => probe(cmd@, privileged).is_none(),
        },
{
    if eq_text(cmd, OOM_DMESG) && !privileged {
        None
    } else if eq_text(cmd, DOCKER_PS) || eq_text(cmd, PODMAN_PS) {
        Some(container_command(cmd, privileged))
    } else {
        Some((cmd, None))
    }
}

/// What a probe's reply leads to.
pub enum ProbeEffect {
    /// The output is stored under the command.
    Store(CmdOutputView),
    /// The fallback is run next.
    Retry(Seq<char>),
    /// The whole snapshot is given up.
    Abort(SshErrorView),
}

/// A reply is stored. A remote failure is retried where there is a fallback, and stored as
/// a failure otherwise. A host-level failure aborts.
pub open spec fn probe_effect(
    cmd: Seq<char>,
    fallback: Option<Seq<char>>,
    reply: Result<SshOutput, SshError>,
) -> ProbeEffect {
    match reply {
        Ok(out) => ProbeEffect::Store(CmdOutputView::Done(out.stdout@)),
        Err(e) => match e@ {
            SshErrorView::RemoteCommand { code, stdout, stderr } => match fallback {
                Some(plain) => ProbeEffect::Retry(plain),
                None => ProbeEffect::Store(
                    CmdOutputView::Failed(
                        CmdErrorView {
                            message: if is_container_probe(cmd) {
                                "container runtime unavailable"@
                            } else {
                                remote_failure_text(code, stderr)
                            },
                            not_found: false,
                        },
                    ),
                ),
            },
            _ => ProbeEffect::Abort(e@),
        },
    }
}

/// Takes in the reply to a probe. `Ok(Some(plain))` asks for a run of the fallback; `Err`
/// is a host-level failure (auth, connection, timeout) that aborts the snapshot. A
/// per-command remote failure becomes an `Unknown` metric for whatever needed it.
pub fn absorb_probe(
    outputs: &mut Outputs,
    cmd: &'static str,
    fallback: Option<&'static str>,
    reply: Result<SshOutput, SshError>,
) -> (r: Result<Option<&'static str>, SshError>)
    ensures
        match probe_effect(cmd@, deep_option(fallback), reply) {
            ProbeEffect::Store(v) => final(outputs)@ == put(old(outputs)@, cmd@, v) && r == Ok::<
                Option<&'static str>,
                SshError,
            >(None),
            ProbeEffect::Retry(plain) => final(outputs)@ == old(outputs)@ && r == Ok::<
                Option<&'static str>,
                SshError,
            >(fallback) && deep_option(fallback) == Some(plain),
            ProbeEffect::Abort(e) => final(outputs)@ == old(outputs)@ && (r matches Err(e2) && e2@
                == e),
        },
{
    match reply {
        Ok(out) => {
            outputs.insert(cmd, Ok(out.stdout));
            Ok(None)
        },
        Err(e) => match e {
            SshError::RemoteCommand { code, stdout: _, stderr } => {
                if fallback.is_some() {
                    return Ok(fallback);
                }
                let message = if eq_text(cmd, DOCKER_PS) || eq_text(cmd, PODMAN_PS) {
                    "container runtime unavailable".to_string()
                } else {
                    remote_failure(code, stderr.as_str())
                };
                outputs.insert(cmd, Err(CmdError::other(message)));
                Ok(None)
            },
            other => Err(other),
        },
    }
}

/// The stdout of a reply; a remote failure gives nothing, and a host-level failure is
/// handed on.
pub open spec fn optional_stdout(reply: Result<SshOutput, SshError>) -> Result<
    Option<Seq<char>>,
    SshErrorView,
> {
    match reply {
        Ok(out) => Ok(Some(out.stdout@)),
        Err(e) => match e@ {
            SshErrorView::RemoteCommand { .. } => Ok(None),
            _ => Err(e@),
        },
    }
}

/// The stdout of a reply: `Ok(None)` if the command failed remotely (absent binary,
/// permission denied) so the caller can go on without it, and `Err` only for a host-level
/// failure (auth/connection/timeout) that must abort.
pub fn run_single(reply: Result<SshOutput, SshError>) -> (r: Result<Option<String>, SshError>)
    ensures
        match r {
            Ok(o) => optional_stdout(reply) == Ok::<Option<Seq<char>>, SshErrorView>(
                deep_option(o),
            ),
            Err(e) => optional_stdout(reply) == Err::<Option<Seq<char>>, SshErrorView>(e@),
        },
{
    match reply {
        Ok(out) => Ok(Some(out.stdout)),
        Err(e) => match e {
            SshError::RemoteCommand { code: _, stdout: _, stderr: _ } => Ok(None),
            other => Err(other),
        },
    }
}

/// The command that reads the end date of a certificate.
pub fn cert_command(path: &str) -> (r: String)
    ensures
        r@ == CERT_READ_PREFIX@ + path@ + CERT_READ_SUFFIX@,
{
    let mut s = CERT_READ_PREFIX.to_string();
    s.append(path);
    s.append(CERT_READ_SUFFIX);
    s
}

/// The readings of the single-shot commands, in the order of the report.
pub open spec fn readings(o: OutputsView, thr: Thresholds) -> Seq<MetricView> {
    seq![load_reading(o, thr)] + memory_readings(o, thr) + seq![
        disk_reading(o, thr),
        inodes_reading(o, thr),
        fd_reading(o, thr),
        conntrack_reading(o, thr),
        pids_reading(o, thr),
        tcp_mem_reading(o, thr),
        iowait_reading(o, thr),
        connections_reading(o),
        failed_units_reading(o, thr),
        zombie_reading(o, thr),
        oom_reading(o),
        kernel_events_reading(o),
        clock_reading(o),
        reboot_reading(o),
        readonly_reading(o),
        containers_reading(o),
    ]
}

fn read_metrics(outputs: &Outputs, thr: &Thresholds) -> (r: Vec<Metric>)
    ensures
        deep(r@) == readings(outputs@, *thr),
{
    broadcast use lemma_deep_push, lemma_deep_empty;

    let mut metrics: Vec<Metric> = Vec::new();
    metrics.push(load_metric(outputs, thr));
    let mut memory = memory_metrics(outputs, thr);
    let ghost a = metrics@;
    let ghost b = memory@;
    metrics.append(&mut memory);
    proof {
        assert(deep(a + b) =~= deep(a) + deep(b));
    }
    metrics.push(disk_metric(outputs, thr));
    metrics.push(inodes_metric(outputs, thr));
    metrics.push(fd_metric(outputs, thr));
    metrics.push(conntrack_metric(outputs, thr));
    metrics.push(pids_metric(outputs, thr));
    metrics.push(tcp_mem_metric(outputs, thr));
    metrics.push(iowait_metric(outputs, thr));
    metrics.push(network_metric(outputs));
    metrics.push(failed_units_metric(outputs, thr));
    metrics.push(zombie_metric(outputs, thr));
    metrics.push(oom_metric(outputs));
    metrics.push(kernel_events_metric(outputs));
    metrics.push(clock_sync_metric(outputs));
    metrics.push(reboot_required_metric(outputs));
    metrics.push(fs_readonly_metric(outputs));
    metrics.push(containers_metric(outputs));
    proof {
        assert(deep(metrics@) =~= readings(outputs@, *thr));
    }
    metrics
}

/// The first `n` items, or all where there are fewer.
pub open spec fn first_n<A>(s: Seq<A>, n: int) -> Seq<A> {
    if n < s.len() {
        s.take(n)
    } else {
        s
    }
}

fn first_processes(procs: &Vec<ProcInfo>, n: usize) -> (r: Vec<ProcInfo>)
    ensures
        deep(r@) == first_n(deep(procs@), n as int),
{
    broadcast use lemma_deep_empty;

    let mut out: Vec<ProcInfo> = Vec::new();
    let mut i: usize = 0;
    while i < procs.len() && i < n
        invariant
            i <= procs@.len(),
            i <= n,
            deep(out@) == deep(procs@).take(i as int),
        decreases procs@.len() - i,
    {
        broadcast use lemma_deep_push;

        out.push(procs[i].copy());
        proof {
            assert(deep(procs@).take(i + 1) == deep(procs@).take(i as int).push(
                deep(procs@)[i as int],
            ));
        }
        i = i + 1;
    }
    proof {
        if i == procs@.len() {
            lemma_take_all(deep(procs@));
        }
    }
    out
}

fn uses_more_memory(a: &ProcInfo, b: &ProcInfo) -> (r: bool)
    ensures
        r == (a@.mem > b@.mem),
{
    a.mem > b.mem
}

/// The processes that `ps` lists.
pub open spec fn processes(o: OutputsView) -> Seq<ProcInfoView> {
    match collected(o, PS@) {
        Some(text) => process_rows(text),
        None => Seq::empty(),
    }
}

/// Takes in name and value pairs one after the other.
pub open spec fn put_all(m: Seq<(Seq<char>, u64)>, pairs: Seq<(Seq<char>, u64)>) -> Seq<
    (Seq<char>, u64),
> {
    pairs.fold_left(
        m,
        |m: Seq<(Seq<char>, u64)>, p: (Seq<char>, u64)| put(m, p.0, p.1),
    )
}

fn insert_all(m: TextMap<u64>, pairs: Vec<(String, u64)>) -> (r: TextMap<u64>)
    ensures
        r@ == put_all(m@, deep(pairs@)),
{
    let mut out = m;
    let ghost start = out@;
    let ghost step = |m: Seq<(Seq<char>, u64)>, p: (Seq<char>, u64)| put(m, p.0, p.1);
    let mut i: usize = 0;
    while i < pairs.len()
        invariant
            i <= pairs@.len(),
            step == |m: Seq<(Seq<char>, u64)>, p: (Seq<char>, u64)| put(m, p.0, p.1),
            out@ == deep(pairs@).take(i as int).fold_left(start, step),
        decreases pairs@.len() - i,
    {
        proof {
            lemma_fold_step(deep(pairs@), start, step, i as int);
        }
        out.insert(pairs[i].0.clone(), pairs[i].1);
        i = i + 1;
    }
    proof {
        lemma_take_all(deep(pairs@));
    }
    out
}

/// The uptimes of the running containers of both runtimes.
pub open spec fn uptimes(o: OutputsView) -> Seq<(Seq<char>, u64)> {
    let docker = match collected(o, DOCKER_PS@) {
        Some(text) => put_all(Seq::empty(), container_uptimes(text)),
        None => Seq::empty(),
    };
    match collected(o, PODMAN_PS@) {
        Some(text) => put_all(docker, container_uptimes(text)),
        None => docker,
    }
}

fn read_uptimes(outputs: &Outputs) -> (r: TextMap<u64>)
    ensures
        r@ == uptimes(outputs@),
{
    let mut m: TextMap<u64> = TextMap::new();
    match outputs.stdout(DOCKER_PS) {
        Some(text) => {
            m = insert_all(m, parse_container_uptimes(text));
        },
        None => {},
    }
    match outputs.stdout(PODMAN_PS) {
        Some(text) => {
            m = insert_all(m, parse_container_uptimes(text));
        },
        None => {},
    }
    m
}

/// The counter of a kernel-log category.
pub open spec fn event_counter(c: KernelEventCategoryView) -> (Seq<char>, u64) {
    ("kernel: "@ + c.label, c.count as u64)
}

/// The kernel-log counters; none where the log was not read.
pub open spec fn event_counters(o: OutputsView) -> Seq<(Seq<char>, u64)> {
    match collected(o, OOM_DMESG@) {
        Some(text) => put_all(
            Seq::empty(),
            kernel_events(text).map_values(|c: KernelEventCategoryView| event_counter(c)),
        ),
        None => Seq::empty(),
    }
}

fn read_event_counters(outputs: &Outputs) -> (r: TextMap<u64>)
    ensures
        r@ == event_counters(outputs@),
{
    broadcast use lemma_deep_empty;

    let text = match outputs.stdout(OOM_DMESG) {
        Some(t) => t,
        None => {
            return TextMap::new();
        },
    };
    let cats = parse_kernel_events(text).categories;
    let ghost all = deep(cats@).map_values(|c: KernelEventCategoryView| event_counter(c));
    let mut pairs: Vec<(String, u64)> = Vec::new();
    let mut i: usize = 0;
    while i < cats.len()
        invariant
            i <= cats@.len(),
            all == deep(cats@).map_values(|c: KernelEventCategoryView| event_counter(c)),
            deep(pairs@) == all.take(i as int),
        decreases cats@.len() - i,
    {
        broadcast use lemma_deep_push;

        let mut key = "kernel: ".to_string();
        key.append(cats[i].label);
        pairs.push((key, cats[i].count as u64));
        proof {
            assert(all.take(i + 1) == all.take(i as int).push(all[i as int]));
        }
        i = i + 1;
    }
    proof {
        lemma_take_all(all);
    }
    insert_all(TextMap::new(), pairs)
}

/// The report of the single-shot commands.
pub open spec fn report_of(o: OutputsView, thr: Thresholds) -> HealthReportView {
    HealthReportView {
        metrics: readings(o, thr),
        top_cpu: first_n(processes(o), thr.top_n as int),
        top_mem: first_n(
            ranked(processes(o), |p: ProcInfoView| p.mem as int),
            thr.top_n as int,
        ),
        overall: worst_status(readings(o, thr)),
        anomalies: Seq::empty(),
        anomaly_note: None,
        changes: Seq::empty(),
        container_uptimes: uptimes(o),
        failed_units: match collected(o, SYSTEMCTL_FAILED@) {
            Some(text) => failed_units(text),
            None => Seq::empty(),
        },
        event_counters: event_counters(o),
    }
}

/// Builds a health report from pre-collected command outputs. It does not hold the network
/// throughput or error metrics, which need two timed samples (see [`complete`]), nor
/// anomalies and between-run changes, which need the stored history.
pub fn evaluate(outputs: &Outputs, thr: &Thresholds) -> (r: HealthReport)
    ensures
        r@ == report_of(outputs@, *thr),
{
    broadcast use lemma_deep_empty;

    let metrics = read_metrics(outputs, thr);
    let procs: Vec<ProcInfo> = match outputs.stdout(PS) {
        Some(text) => parse_ps(text),
        None => Vec::new(),
    };
    let top_cpu = first_processes(&procs, thr.top_n);
    let by_mem = sort_descending(
        procs,
        uses_more_memory,
        Ghost(|p: ProcInfoView| p.mem as int),
    );
    let top_mem = first_processes(&by_mem, thr.top_n);
    let overall = worst(&metrics);
    let failed_units: Vec<String> = match outputs.stdout(SYSTEMCTL_FAILED) {
        Some(text) => parse_failed_units(text),
        None => Vec::new(),
    };
    let container_uptimes = read_uptimes(outputs);
    let event_counters = read_event_counters(outputs);
    HealthReport {
        metrics,
        top_cpu,
        top_mem,
        overall,
        anomalies: Vec::new(),
        anomaly_note: None,
        changes: Vec::new(),
        container_uptimes,
        failed_units,
        event_counters,
    }
}

/// Two timed samples of the network counter files.
#[derive(Debug, Clone)]
pub struct NetSamples {
    pub dev1: String,
    pub dev2: String,
    /// `/proc/net/netstat` at each point; empty if that read failed remotely
    /// (the throughput/error metrics need only the `dev` pair).
    pub stat1: String,
    pub stat2: String,
    /// `/proc/net/stat/nf_conntrack` at each point; empty if that read failed
    /// remotely (the conntrack-drops metric then reports `Unknown`).
    pub ct1: String,
    pub ct2: String,
    /// `/proc/net/snmp` at each point; empty if that read failed remotely. Only
    /// feeds the tcp-errors metric's retransmit *context* (it gates on `TcpExt`
    /// from `netstat`), so an empty read just drops that note.
    pub snmp1: String,
    pub snmp2: String,
    /// The time between the two points, in nanoseconds.
    pub nanos: u64,
}

/// The model of [`NetSamples`].
pub ghost struct NetSamplesView {
    pub dev1: Seq<char>,
    pub dev2: Seq<char>,
    pub stat1: Seq<char>,
    pub stat2: Seq<char>,
    pub ct1: Seq<char>,
    pub ct2: Seq<char>,
    pub snmp1: Seq<char>,
    pub snmp2: Seq<char>,
    pub nanos: u64,
}

impl View for NetSamples {
    type V = NetSamplesView;

    open spec fn view(&self) -> NetSamplesView {
        NetSamplesView {
            dev1: self.dev1@,
            dev2: self.dev2@,
            stat1: self.stat1@,
            stat2: self.stat2@,
            ct1: self.ct1@,
            ct2: self.ct2@,
            snmp1: self.snmp1@,
            snmp2: self.snmp2@,
            nanos: self.nanos,
        }
    }
}

/// The readings of the two samples; all unknown where the interface counters could not be
/// read.
pub open spec fn sampled_readings(
    samples: Option<NetSamplesView>,
    thr: Thresholds,
) -> Seq<MetricView> {
    match samples {
        Some(s) => seq![
            throughput_reading(s.dev1, s.dev2, s.nanos, thr),
            errors_reading(s.dev1, s.dev2, s.nanos, thr),
            listen_reading(s.stat1, s.stat2, s.nanos, thr),
            conntrack_drops_reading(s.ct1, s.ct2, s.nanos, thr),
            tcp_errors_reading(s.snmp1, s.snmp2, s.stat1, s.stat2, s.nanos, thr),
        ],
        None => seq![
            unknown_metric(
                "health-net-throughput"@,
                "Network throughput"@,
                "/proc/net/dev unavailable"@,
            ),
            unknown_metric(
                "health-net-errors"@,
                "Network errors"@,
                "/proc/net/dev unavailable"@,
            ),
            unknown_metric(
                "health-listen-overflows"@,
                "TCP accept-queue overflows"@,
                "/proc/net/dev unavailable"@,
            ),
            unknown_metric(
                "health-conntrack-drops"@,
                "Conntrack drops"@,
                "/proc/net/dev unavailable"@,
            ),
            unknown_metric(
                "health-tcp-errors"@,
                "TCP stack errors"@,
                "/proc/net/dev unavailable"@,
            ),
        ],
    }
}

/// The counters with the conntrack table-pressure total of the second sample.
pub open spec fn with_pressure(
    counters: Seq<(Seq<char>, u64)>,
    samples: Option<NetSamplesView>,
) -> Seq<(Seq<char>, u64)> {
    match samples {
        Some(s) => match conntrack_drops(s.ct2) {
            Some(c) => put(counters, "conntrack table pressure"@, both_ways(c.1, c.2)),
            None => counters,
        },
        None => counters,
    }
}

/// The whole snapshot: the single-shot commands, the two samples and the certificates.
pub open spec fn snapshot_of(
    o: OutputsView,
    samples: Option<NetSamplesView>,
    certs: Seq<(Seq<char>, Option<Seq<char>>)>,
    thr: Thresholds,
    now: int,
) -> HealthReportView {
    let first = report_of(o, thr);
    let metrics = first.metrics + sampled_readings(samples, thr) + seq![
        cert_reading(certs, thr, now),
    ];
    HealthReportView {
        metrics,
        overall: worst_status(metrics),
        event_counters: with_pressure(first.event_counters, samples),
        ..first
    }
}

fn sampled_metrics(samples: &Option<NetSamples>, thr: &Thresholds) -> (r: Vec<Metric>)
    ensures
        deep(r@) == sampled_readings(deep_option(*samples), *thr),
{
    broadcast use lemma_deep_push, lemma_deep_empty;

    let mut out: Vec<Metric> = Vec::new();
    match samples {
        Some(s) => {
            out.push(net_throughput_metric(s.dev1.as_str(), s.dev2.as_str(), s.nanos, thr));
            out.push(net_errors_metric(s.dev1.as_str(), s.dev2.as_str(), s.nanos, thr));
            out.push(net_listen_metric(s.stat1.as_str(), s.stat2.as_str(), s.nanos, thr));
            out.push(net_conntrack_drops_metric(s.ct1.as_str(), s.ct2.as_str(), s.nanos, thr));
            out.push(
                net_tcp_errors_metric(
                    s.snmp1.as_str(),
                    s.snmp2.as_str(),
                    s.stat1.as_str(),
                    s.stat2.as_str(),
                    s.nanos,
                    thr,
                ),
            );
        },
        None => {
            out.push(
                unknown(
                    "health-net-throughput",
                    "Network throughput",
                    "/proc/net/dev unavailable".to_string(),
                ),
            );
            out.push(
                unknown(
                    "health-net-errors",
                    "Network errors",
                    "/proc/net/dev unavailable".to_string(),
                ),
            );
            out.push(
                unknown(
                    "health-listen-overflows",
                    "TCP accept-queue overflows",
                    "/proc/net/dev unavailable".to_string(),
                ),
            );
            out.push(
                unknown(
                    "health-conntrack-drops",
                    "Conntrack drops",
                    "/proc/net/dev unavailable".to_string(),
                ),
            );
            out.push(
                unknown(
                    "health-tcp-errors",
                    "TCP stack errors",
                    "/proc/net/dev unavailable".to_string(),
                ),
            );
        },
    }
    proof {
        assert(deep(out@) =~= sampled_readings(deep_option(*samples), *thr));
    }
    out
}

/// Puts a whole snapshot together from what was collected: the single-shot outputs, the two
/// timed samples of the counter files (`None` if the interface counters could not be read),
/// and the certificate reads. The conntrack table-pressure total is kept for the
/// between-run event delta; the rate metric only carries the intra-run rate.
pub fn complete(
    outputs: &Outputs,
    samples: &Option<NetSamples>,
    certs: &[(String, Option<String>)],
    thr: &Thresholds,
    now: i64,
) -> (r: HealthReport)
    ensures
        r@ == snapshot_of(outputs@, deep_option(*samples), certs_view(certs@), *thr, now as int),
{
    broadcast use lemma_deep_push;

    let first = evaluate(outputs, thr);
    let mut metrics = first.metrics;
    let mut sampled = sampled_metrics(samples, thr);
    let ghost a = metrics@;
    let ghost b = sampled@;
    metrics.append(&mut sampled);
    proof {
        assert(deep(a + b) =~= deep(a) + deep(b));
    }
    metrics.push(cert_expiry_metric(certs, thr, now));
    let mut event_counters = first.event_counters;
    match samples {
        Some(s) => match parse_conntrack_drops(s.ct2.as_str()) {
            Some((_, early, failed)) => {
                event_counters.insert(
                    "conntrack table pressure".to_string(),
                    early.saturating_add(failed),
                );
            },
            None => {},
        },
        None => {},
    }
    let ghost whole = snapshot_of(outputs@, deep_option(*samples), certs_view(certs@), *thr, now as int);
    proof {
        assert(deep(metrics@) =~= whole.metrics);
    }
    let overall = worst(&metrics);
    HealthReport {
        metrics,
        top_cpu: first.top_cpu,
        top_mem: first.top_mem,
        overall,
        anomalies: first.anomalies,
        anomaly_note: first.anomaly_note,
        changes: first.changes,
        container_uptimes: first.container_uptimes,
        failed_units: first.failed_units,
        event_counters,
    }
}

/// Every command of the health snapshot is in the read-only catalog, character for character.
pub proof fn law_health_commands_in_catalog(i: int)
    requires
        0 <= i < HEALTH_COMMANDS@.len(),
    ensures
        refusal(HEALTH_COMMANDS@[i]@).is_none(),
        listed(HEALTH_COMMANDS@[i]@),
{
    law_catalog_accepted(11);
    assert(READONLY_COMMANDS@[11]@ == UPTIME@);
    law_catalog_accepted(12);
    assert(READONLY_COMMANDS@[12]@ == NPROC@);
    law_catalog_accepted(13);
    assert(READONLY_COMMANDS@[13]@ == FREE@);
    law_catalog_accepted(14);
    assert(READONLY_COMMANDS@[14]@ == DF@);
    law_catalog_accepted(15);
    assert(READONLY_COMMANDS@[15]@ == DF_INODES@);
    law_catalog_accepted(19);
    assert(READONLY_COMMANDS@[19]@ == FILE_NR@);
    law_catalog_accepted(20);
    assert(READONLY_COMMANDS@[20]@ == CONNTRACK@);
    law_catalog_accepted(22);
    assert(READONLY_COMMANDS@[22]@ == PIDS@);
    law_catalog_accepted(21);
    assert(READONLY_COMMANDS@[21]@ == SOCKSTAT@);
    law_catalog_accepted(16);
    assert(READONLY_COMMANDS@[16]@ == PS@);
    law_catalog_accepted(17);
    assert(READONLY_COMMANDS@[17]@ == PS_STAT@);
    law_catalog_accepted(18);
    assert(READONLY_COMMANDS@[18]@ == SS@);
    law_catalog_accepted(29);
    assert(READONLY_COMMANDS@[29]@ == VMSTAT@);
    law_catalog_accepted(30);
    assert(READONLY_COMMANDS@[30]@ == SYSTEMCTL_FAILED@);
    law_catalog_accepted(34);
    assert(READONLY_COMMANDS@[34]@ == OOM_DMESG@);
    law_catalog_accepted(31);
    assert(READONLY_COMMANDS@[31]@ == DOCKER_PS@);
    law_catalog_accepted(32);
    assert(READONLY_COMMANDS@[32]@ == PODMAN_PS@);
    law_catalog_accepted(41);
    assert(READONLY_COMMANDS@[41]@ == SUDO_DOCKER_PS@);
    law_catalog_accepted(42);
    assert(READONLY_COMMANDS@[42]@ == SUDO_PODMAN_PS@);
    law_catalog_accepted(23);
    assert(READONLY_COMMANDS@[23]@ == NETDEV@);
    law_catalog_accepted(24);
    assert(READONLY_COMMANDS@[24]@ == NETSTAT@);
    law_catalog_accepted(25);
    assert(READONLY_COMMANDS@[25]@ == CONNTRACK_STAT@);
    law_catalog_accepted(26);
    assert(READONLY_COMMANDS@[26]@ == SNMP@);
    law_catalog_accepted(27);
    assert(READONLY_COMMANDS@[27]@ == TIMEDATECTL@);
    law_catalog_accepted(28);
    assert(READONLY_COMMANDS@[28]@ == LS_RUN@);
    law_catalog_accepted(5);
    assert(READONLY_COMMANDS@[5]@ == PROC_MOUNTS@);
}

/// Whatever a probe runs is one of the health commands.
pub proof fn law_probes_are_health_commands(i: int, privileged: bool)
    requires
        0 <= i < SINGLE_SHOT@.len(),
    ensures
        probe(SINGLE_SHOT@[i]@, privileged) matches Some((wire, fallback)) ==> (exists|k: int|
            0 <= k < HEALTH_COMMANDS@.len() && (#[trigger] HEALTH_COMMANDS@[k])@ == wire) && (
        fallback matches Some(plain) ==> exists|k: int|
            0 <= k < HEALTH_COMMANDS@.len() && (#[trigger] HEALTH_COMMANDS@[k])@ == plain),
{
    assert(HEALTH_COMMANDS@[0]@ == UPTIME@);
    assert(HEALTH_COMMANDS@[1]@ == NPROC@);
    assert(HEALTH_COMMANDS@[2]@ == FREE@);
    assert(HEALTH_COMMANDS@[3]@ == DF@);
    assert(HEALTH_COMMANDS@[4]@ == DF_INODES@);
    assert(HEALTH_COMMANDS@[5]@ == FILE_NR@);
    assert(HEALTH_COMMANDS@[6]@ == CONNTRACK@);
    assert(HEALTH_COMMANDS@[7]@ == PIDS@);
    assert(HEALTH_COMMANDS@[8]@ == SOCKSTAT@);
    assert(HEALTH_COMMANDS@[9]@ == PS@);
    assert(HEALTH_COMMANDS@[10]@ == PS_STAT@);
    assert(HEALTH_COMMANDS@[11]@ == SS@);
    assert(HEALTH_COMMANDS@[12]@ == VMSTAT@);
    assert(HEALTH_COMMANDS@[13]@ == SYSTEMCTL_FAILED@);
    assert(HEALTH_COMMANDS@[14]@ == OOM_DMESG@);
    assert(HEALTH_COMMANDS@[15]@ == DOCKER_PS@);
    assert(HEALTH_COMMANDS@[16]@ == PODMAN_PS@);
    assert(HEALTH_COMMANDS@[17]@ == SUDO_DOCKER_PS@);
    assert(HEALTH_COMMANDS@[18]@ == SUDO_PODMAN_PS@);
    assert(HEALTH_COMMANDS@[19]@ == NETDEV@);
    assert(HEALTH_COMMANDS@[20]@ == NETSTAT@);
    assert(HEALTH_COMMANDS@[21]@ == CONNTRACK_STAT@);
    assert(HEALTH_COMMANDS@[22]@ == SNMP@);
    assert(HEALTH_COMMANDS@[23]@ == TIMEDATECTL@);
    assert(HEALTH_COMMANDS@[24]@ == LS_RUN@);
    assert(HEALTH_COMMANDS@[25]@ == PROC_MOUNTS@);
}

/// No command that runs through `sudo` is sent to a target that is not opted in.
pub proof fn law_probes_respect_opt_in(i: int)
    requires
        0 <= i < SINGLE_SHOT@.len(),
    ensures
        probe(SINGLE_SHOT@[i]@, false) matches Some((wire, fallback)) ==> !starts_with(
            wire,
            "sudo -n "@,
        ) && fallback.is_none(),
{
    reveal_strlit("sudo -n ");
    assert(!starts_with(UPTIME@, "sudo -n "@)) by {
        reveal_strlit("uptime");
    }
    assert(!starts_with(NPROC@, "sudo -n "@)) by {
        reveal_strlit("nproc");
    }
    assert(!starts_with(FREE@, "sudo -n "@)) by {
        reveal_strlit("free -b");
    }
    assert(!starts_with(DF@, "sudo -n "@)) by {
        reveal_strlit("df -P");
    }
    assert(!starts_with(DF_INODES@, "sudo -n "@)) by {
        reveal_strlit("df -Pi");
    }
    assert(!starts_with(FILE_NR@, "sudo -n "@)) by {
        reveal_strlit("cat /proc/sys/fs/file-nr");
        assert(FILE_NR@.take(8)[0] != "sudo -n "@[0]);
    }
    assert(!starts_with(CONNTRACK@, "sudo -n "@)) by {
        reveal_strlit("cat /proc/sys/net/netfilter/nf_conntrack_count /proc/sys/net/netfilter/nf_conntrack_max");
        assert(CONNTRACK@.take(8)[0] != "sudo -n "@[0]);
    }
    assert(!starts_with(PIDS@, "sudo -n "@)) by {
        reveal_strlit("cat /proc/loadavg /proc/sys/kernel/pid_max");
        assert(PIDS@.take(8)[0] != "sudo -n "@[0]);
    }
    assert(!starts_with(SOCKSTAT@, "sudo -n "@)) by {
        reveal_strlit("cat /proc/net/sockstat /proc/sys/net/ipv4/tcp_mem /proc/sys/net/ipv4/tcp_max_orphans /proc/sys/net/ipv4/tcp_max_tw_buckets");
        assert(SOCKSTAT@.take(8)[0] != "sudo -n "@[0]);
    }
    assert(!starts_with(PS@, "sudo -n "@)) by {
        reveal_strlit("ps -eo pid,comm,pcpu,pmem --sort=-pcpu");
        assert(PS@.take(8)[0] != "sudo -n "@[0]);
    }
    assert(!starts_with(PS_STAT@, "sudo -n "@)) by {
        reveal_strlit("ps -eo stat --no-headers");
        assert(PS_STAT@.take(8)[0] != "sudo -n "@[0]);
    }
    assert(!starts_with(SS@, "sudo -n "@)) by {
        reveal_strlit("ss -s");
    }
    assert(!starts_with(VMSTAT@, "sudo -n "@)) by {
        reveal_strlit("vmstat 1 2");
        assert(VMSTAT@.take(8)[0] != "sudo -n "@[0]);
    }
    assert(!starts_with(SYSTEMCTL_FAILED@, "sudo -n "@)) by {
        reveal_strlit("systemctl list-units --type=service --state=failed --no-legend --no-pager");
        assert(SYSTEMCTL_FAILED@.take(8)[1] != "sudo -n "@[1]);
    }
    assert(!starts_with(DOCKER_PS@, "sudo -n "@)) by {
        reveal_strlit("docker ps -a");
        assert(DOCKER_PS@.take(8)[0] != "sudo -n "@[0]);
    }
    assert(!starts_with(PODMAN_PS@, "sudo -n "@)) by {
        reveal_strlit("podman ps -a");
        assert(PODMAN_PS@.take(8)[0] != "sudo -n "@[0]);
    }
    assert(!starts_with(TIMEDATECTL@, "sudo -n "@)) by {
        reveal_strlit("timedatectl show");
        assert(TIMEDATECTL@.take(8)[0] != "sudo -n "@[0]);
    }
    assert(!starts_with(LS_RUN@, "sudo -n "@)) by {
        reveal_strlit("ls /run");
    }
    assert(!starts_with(PROC_MOUNTS@, "sudo -n "@)) by {
        reveal_strlit("cat /proc/mounts");
        assert(PROC_MOUNTS@.take(8)[0] != "sudo -n "@[0]);
    }
}

/// With nothing collected, every reading is `Unknown`, and so is the overall status: what
/// could not be read never gates.
pub proof fn law_nothing_collected_is_unknown(
    o: OutputsView,
    thr: Thresholds,
    now: int,
    i: int,
)
    requires
        forall|cmd: Seq<char>| #[trigger] collected(o, cmd) is None,
        0 <= i < snapshot_of(o, None, Seq::empty(), thr, now).metrics.len(),
    ensures
        snapshot_of(o, None, Seq::empty(), thr, now).metrics[i].status == HealthStatus::Unknown,
        snapshot_of(o, None, Seq::empty(), thr, now).overall == HealthStatus::Unknown,
{
    let unknown = HealthStatus::Unknown;
    assert(load_reading(o, thr).status == unknown) by {
        reveal(load_reading);
    }
    assert(disk_reading(o, thr).status == unknown) by {
        reveal(disk_reading);
    }
    assert(inodes_reading(o, thr).status == unknown) by {
        reveal(inodes_reading);
    }
    assert(fd_reading(o, thr).status == unknown) by {
        reveal(fd_reading);
    }
    assert(conntrack_reading(o, thr).status == unknown) by {
        reveal(conntrack_reading);
    }
    assert(pids_reading(o, thr).status == unknown) by {
        reveal(pids_reading);
    }
    assert(tcp_mem_reading(o, thr).status == unknown) by {
        reveal(tcp_mem_reading);
    }
    assert(iowait_reading(o, thr).status == unknown) by {
        reveal(iowait_reading);
    }
    assert(connections_reading(o).status == unknown) by {
        reveal(connections_reading);
    }
    assert(failed_units_reading(o, thr).status == unknown) by {
        reveal(failed_units_reading);
    }
    assert(zombie_reading(o, thr).status == unknown) by {
        reveal(zombie_reading);
    }
    assert(oom_reading(o).status == unknown) by {
        reveal(oom_reading);
    }
    assert(kernel_events_reading(o).status == unknown) by {
        reveal(kernel_events_reading);
    }
    assert(clock_reading(o).status == unknown) by {
        reveal(clock_reading);
    }
    assert(reboot_reading(o).status == unknown) by {
        reveal(reboot_reading);
    }
    assert(readonly_reading(o).status == unknown) by {
        reveal(readonly_reading);
    }
    assert(containers_reading(o).status == unknown) by {
        reveal(containers_reading);
    }
    assert(cert_reading(Seq::empty(), thr, now).status == unknown) by {
        reveal(cert_reading);
    }
    assert(memory_readings(o, thr).len() == 2 && memory_readings(o, thr)[0].status == unknown
        && memory_readings(o, thr)[1].status == unknown) by {
        reveal(memory_readings);
    }
    let all = snapshot_of(o, None, Seq::empty(), thr, now).metrics;
    assert forall|k: int| 0 <= k < all.len() implies (#[trigger] all[k]).status == unknown by {}
    crate::health::law_overall_is_worst(all);
}

/// Anomalies and between-run changes are no part of what a snapshot is judged by.
pub proof fn law_fresh_report_has_no_notes(
    o: OutputsView,
    samples: Option<NetSamplesView>,
    certs: Seq<(Seq<char>, Option<Seq<char>>)>,
    thr: Thresholds,
    now: int,
)
    ensures
        ({
            let r = snapshot_of(o, samples, certs, thr, now);
            &&& r.anomalies.len() == 0
            &&& r.changes.len() == 0
            &&& r.anomaly_note.is_none()
            &&& r.overall == worst_status(r.metrics)
        }),
{
}

} // verus!
