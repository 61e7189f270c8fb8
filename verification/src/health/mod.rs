//! Operational-health probes: a point-in-time snapshot of load, memory, disk,
//! hot processes and socket counts over the same read-only SSH channel as the
//! security audit.
//!
//! Deliberately kept separate from [`crate::checks`]: health is momentary and
//! workload-dependent, not a hardening fact, so it produces `Ok`/`Warn`/`Crit`
//! metrics against thresholds and never feeds the 0-100 security score.
//! Quantities with a fraction are in millionths (see [`crate::text::number`]).

pub mod collect;
pub mod laws;
pub mod line_laws;
pub mod metric_laws;
pub mod metrics;
pub mod network;
pub mod network_laws;
pub mod parse;
pub mod reading_laws;
pub mod report;
pub mod report_laws;
pub mod snapshot;
pub mod unknown_laws;
pub mod wording_laws;

use crate::quantity::{is_reached, Ratio};
use crate::text::chars::{deep, deep_option};
use crate::textmap::TextMap;
use parse::{ProcInfo, ProcInfoView};
use vstd::prelude::*;

pub use snapshot::evaluate;

verus! {

pub const UPTIME: &'static str = "uptime";

pub const NPROC: &'static str = "nproc";

pub const FREE: &'static str = "free -b";

pub const DF: &'static str = "df -P";

/// Inode usage (`-i`); portable columns identical to [`DF`], so [`parse::parse_df`]
/// reads it too (the percent is the same column).
pub const DF_INODES: &'static str = "df -Pi";

/// System-wide open file descriptors: `allocated  unused  max`.
pub const FILE_NR: &'static str = "cat /proc/sys/fs/file-nr";

/// Netfilter conntrack table: current `count` then `max` (two lines). Absent when
/// the module isn't loaded.
pub const CONNTRACK: &'static str =
    "cat /proc/sys/net/netfilter/nf_conntrack_count /proc/sys/net/netfilter/nf_conntrack_max";

/// Task saturation: `/proc/loadavg` (running/total tasks) then the PID ceiling.
pub const PIDS: &'static str = "cat /proc/loadavg /proc/sys/kernel/pid_max";

/// TCP socket/memory pressure: `/proc/net/sockstat` then the three ceilings
/// (`tcp_mem`, `tcp_max_orphans`, `tcp_max_tw_buckets`), in that order.
pub const SOCKSTAT: &'static str =
    "cat /proc/net/sockstat /proc/sys/net/ipv4/tcp_mem /proc/sys/net/ipv4/tcp_max_orphans /proc/sys/net/ipv4/tcp_max_tw_buckets";

pub const PS: &'static str = "ps -eo pid,comm,pcpu,pmem --sort=-pcpu";

/// Process state codes (`stat`), one per line. A leading `Z` marks a zombie.
/// Separate from [`PS`] so the zombie count and the hot-process listing are
/// independently parsed (a change to one can't regress the other).
pub const PS_STAT: &'static str = "ps -eo stat --no-headers";

pub const SS: &'static str = "ss -s";

/// `1 2` = one 1-second sample; vmstat does its own timing, so this is a normal
/// single-shot command whose last row is the current delta.
pub const VMSTAT: &'static str = "vmstat 1 2";

/// Failed systemd services: a zero-config "something is broken" signal.
pub const SYSTEMCTL_FAILED: &'static str =
    "systemctl list-units --type=service --state=failed --no-legend --no-pager";

/// Container state via docker and podman (either may be absent). `-a` lists all
/// states so a crash-looping container caught mid-backoff is still seen.
pub const DOCKER_PS: &'static str = "docker ps -a";

pub const PODMAN_PS: &'static str = "podman ps -a";

/// Privileged variants: on many hosts `docker`/`podman` need root or docker-group
/// membership, so the plain command returns nothing and the metric goes blind. On
/// a `privileged` target these are tried first (see [`snapshot::container_command`]).
pub const SUDO_DOCKER_PS: &'static str = "sudo -n docker ps -a";

pub const SUDO_PODMAN_PS: &'static str = "sudo -n podman ps -a";

/// Kernel ring buffer, for OOM-killer events. Privileged-only (`dmesg_restrict`
/// is on by default), so it is sent solely to `privileged` targets; elsewhere the
/// metric reports `Unknown`.
pub const OOM_DMESG: &'static str = "sudo -n dmesg";

/// Sampled twice (not single-shot) to derive throughput and error rate.
pub const NETDEV: &'static str = "cat /proc/net/dev";

/// TCP extended counters; sampled twice (alongside [`NETDEV`]) for the
/// accept-queue overflow rate.
pub const NETSTAT: &'static str = "cat /proc/net/netstat";

/// Netfilter conntrack per-CPU stat counters; sampled twice (alongside
/// [`NETDEV`]) for the connection-drop rate. Unprivileged.
pub const CONNTRACK_STAT: &'static str = "cat /proc/net/stat/nf_conntrack";

/// TCP SNMP MIB counters (`Tcp: RetransSegs`); sampled twice (alongside
/// [`NETDEV`]) for the retransmit rate shown as context on `health-tcp-errors`.
pub const SNMP: &'static str = "cat /proc/net/snmp";

/// systemd time state (`health-clock-sync`); `NTPSynchronized=yes/no`. Unprivileged.
pub const TIMEDATECTL: &'static str = "timedatectl show";

/// `/run` listing (`health-reboot-required`); the Debian/Ubuntu `reboot-required`
/// flag file lives here. `/run` always exists, so this exits 0. Unprivileged.
pub const LS_RUN: &'static str = "ls /run";

/// Mount table (`health-fs-readonly`); a `/dev/*` filesystem mounted `ro` means the
/// kernel remounted it read-only after disk errors. Unprivileged.
pub const PROC_MOUNTS: &'static str = "cat /proc/mounts";

/// A metric's verdict against its thresholds. `Unknown` means the input was
/// missing or unparseable; it never counts toward the overall status.
#[derive(Debug, Clone, Copy, PartialEq, Eq, Structural)]
pub enum HealthStatus {
    Okay,
    Warn,
    Crit,
    Unknown,
}

impl View for HealthStatus {
    type V = HealthStatus;

    open spec fn view(&self) -> HealthStatus {
        *self
    }
}

impl HealthStatus {
    /// Rank for picking the worst status (Unknown is neutral).
    pub open spec fn level(self) -> int {
        match self {
            HealthStatus::Unknown => 0,
            HealthStatus::Okay => 1,
            HealthStatus::Warn => 2,
            HealthStatus::Crit => 3,
        }
    }

    /// Rank for picking the worst status (Unknown is neutral).
    pub fn rank(self) -> (r: u8)
        ensures
            r == self.level(),
    {
        match self {
            HealthStatus::Unknown => 0,
            HealthStatus::Okay => 1,
            HealthStatus::Warn => 2,
            HealthStatus::Crit => 3,
        }
    }

    pub open spec fn tag_text(self) -> Seq<char> {
        match self {
            HealthStatus::Okay => "OK"@,
            HealthStatus::Warn => "WARN"@,
            HealthStatus::Crit => "CRIT"@,
            HealthStatus::Unknown => "UNKN"@,
        }
    }

    /// Short uppercase tag for text reports (`OK`/`WARN`/`CRIT`/`UNKN`).
    pub fn tag(self) -> (r: &'static str)
        ensures
            r@ == self.tag_text(),
    {
        match self {
            HealthStatus::Okay => "OK",
            HealthStatus::Warn => "WARN",
            HealthStatus::Crit => "CRIT",
            HealthStatus::Unknown => "UNKN",
        }
    }

    /// The worse of two statuses.
    pub open spec fn worse(self, other: HealthStatus) -> HealthStatus {
        if self.level() >= other.level() {
            self
        } else {
            other
        }
    }

    /// The worse of two statuses.
    pub fn or_worse(self, other: HealthStatus) -> (r: HealthStatus)
        ensures
            r == self.worse(other),
    {
        if self.rank() >= other.rank() {
            self
        } else {
            other
        }
    }
}

/// A single health reading.
#[derive(Debug, Clone)]
pub struct Metric {
    pub id: &'static str,
    pub title: &'static str,
    pub status: HealthStatus,
    /// Human-readable measured value.
    pub value: String,
    /// Extra context (worst mount, thresholds crossed, ...).
    pub detail: String,
    /// Primary numeric reading in millionths, if this metric has one (load per core,
    /// memory percent, worst-disk percent, ...). Used only to persist history; not part of
    /// the report JSON. `None` for `Unknown` metrics.
    pub numeric: Option<i64>,
}

/// The model of a [`Metric`].
pub ghost struct MetricView {
    pub id: Seq<char>,
    pub title: Seq<char>,
    pub status: HealthStatus,
    pub value: Seq<char>,
    pub detail: Seq<char>,
    pub numeric: Option<i64>,
}

impl View for Metric {
    type V = MetricView;

    open spec fn view(&self) -> MetricView {
        MetricView {
            id: self.id@,
            title: self.title@,
            status: self.status,
            value: self.value@,
            detail: self.detail@,
            numeric: self.numeric,
        }
    }
}

/// A metric reading that deviates from this host's *own* recent norm, detected
/// by comparing the current value against a robust baseline (median + MAD) over
/// the stored history (see [`crate::anomaly`]).
///
/// Purely informational: an anomaly reflects an unusual workload, not a
/// hardening regression, so it never changes `overall` nor the exit code.
#[derive(Debug, Clone)]
pub struct Anomaly {
    pub metric_id: String,
    /// The current reading, in millionths.
    pub current: i64,
    /// Robust baseline: median of the recent history window, in millionths.
    pub median: i64,
    /// Signed change versus the baseline, in millionths of a percent.
    pub pct_change: i64,
    /// Modified z-score: deviation from the median in scaled-MAD units, in millionths.
    /// `None` where the history is flat, so that any deviation is infinitely far.
    pub z: Option<i64>,
}

/// The model of an [`Anomaly`].
pub ghost struct AnomalyView {
    pub metric_id: Seq<char>,
    pub current: i64,
    pub median: i64,
    pub pct_change: i64,
    pub z: Option<i64>,
}

impl View for Anomaly {
    type V = AnomalyView;

    open spec fn view(&self) -> AnomalyView {
        AnomalyView {
            metric_id: self.metric_id@,
            current: self.current,
            median: self.median,
            pct_change: self.pct_change,
            z: self.z,
        }
    }
}

/// The full operational-health snapshot.
#[derive(Debug, Clone)]
pub struct HealthReport {
    pub metrics: Vec<Metric>,
    pub top_cpu: Vec<ProcInfo>,
    pub top_mem: Vec<ProcInfo>,
    /// Worst status across all metrics (`Unknown` if nothing could be measured).
    pub overall: HealthStatus,
    /// Metrics that deviate from this host's recent norm. Empty when nothing is
    /// anomalous, detection is disabled, or the baseline is still warming up.
    pub anomalies: Vec<Anomaly>,
    /// Human note when no detection ran (disabled, or baseline warming up); a
    /// transparency hint so an empty `anomalies` is never ambiguous.
    pub anomaly_note: Option<String>,
    /// Between-run changes versus this host's previous snapshot: a container that
    /// restarted (its uptime dropped) or a systemd unit that newly failed.
    /// Informational: like anomalies, it never changes `overall` nor the exit code.
    pub changes: Vec<String>,
    /// Running containers -> coarse uptime (seconds), carried to the stored
    /// history so the next run can spot a restart (uptime dropping). Internal
    /// state, not part of the wire report.
    pub container_uptimes: TextMap<u64>,
    /// Currently-failed systemd units, carried to history so the next run can
    /// flag a unit that newly failed. Internal state, not part of the wire report.
    pub failed_units: Vec<String>,
    /// Cumulative since-boot event counters (conntrack table-pressure total, kernel
    /// log event counts per category), carried to history so the next run can report
    /// how many new events accrued since the last check. Internal state, not part of
    /// the wire report.
    pub event_counters: TextMap<u64>,
}

/// The model of a [`HealthReport`].
pub ghost struct HealthReportView {
    pub metrics: Seq<MetricView>,
    pub top_cpu: Seq<ProcInfoView>,
    pub top_mem: Seq<ProcInfoView>,
    pub overall: HealthStatus,
    pub anomalies: Seq<AnomalyView>,
    pub anomaly_note: Option<Seq<char>>,
    pub changes: Seq<Seq<char>>,
    pub container_uptimes: Seq<(Seq<char>, u64)>,
    pub failed_units: Seq<Seq<char>>,
    pub event_counters: Seq<(Seq<char>, u64)>,
}

impl View for HealthReport {
    type V = HealthReportView;

    open spec fn view(&self) -> HealthReportView {
        HealthReportView {
            metrics: deep(self.metrics@),
            top_cpu: deep(self.top_cpu@),
            top_mem: deep(self.top_mem@),
            overall: self.overall,
            anomalies: deep(self.anomalies@),
            anomaly_note: deep_option(self.anomaly_note),
            changes: deep(self.changes@),
            container_uptimes: self.container_uptimes@,
            failed_units: deep(self.failed_units@),
            event_counters: self.event_counters@,
        }
    }
}

/// Thresholds for turning raw readings into `Ok`/`Warn`/`Crit`. Each field has a
/// sensible default; a target may override any subset via `[targets.x.health]`.
/// A field that is not a plain percent, count or number of days is in millionths.
#[derive(Debug, Clone, Copy, PartialEq, Eq, Structural)]
pub struct Thresholds {
    /// 1-minute load average per core.
    pub la_per_core_warn: i64,
    pub la_per_core_crit: i64,
    /// Memory in use (percent).
    pub mem_used_warn_pct: u8,
    pub mem_used_crit_pct: u8,
    /// Swap in use (percent).
    pub swap_used_warn_pct: u8,
    pub swap_used_crit_pct: u8,
    /// Filesystem capacity (percent). Also bounds inode usage (`health-inodes`):
    /// both are "this filesystem is filling up", just blocks vs inodes.
    pub disk_warn_pct: u8,
    pub disk_crit_pct: u8,
    /// Open file descriptors as a percent of the system-wide max (`health-fd`).
    pub fd_warn_pct: u8,
    pub fd_crit_pct: u8,
    /// Conntrack table fill as a percent of `nf_conntrack_max` (`health-conntrack`).
    pub conntrack_warn_pct: u8,
    pub conntrack_crit_pct: u8,
    /// Kernel tasks as a percent of `pid_max` (`health-pids`).
    pub pid_warn_pct: u8,
    pub pid_crit_pct: u8,
    /// Worst of TCP memory / orphan / TIME_WAIT usage as a percent of its ceiling
    /// (`health-tcp-mem`).
    pub tcp_warn_pct: u8,
    pub tcp_crit_pct: u8,
    /// CPU time waiting on I/O (`wa`, percent in millionths); a sustained high value means
    /// the host is disk-bound.
    pub iowait_warn_pct: i64,
    pub iowait_crit_pct: i64,
    /// Per-interface network throughput (MiB/s in millionths). `0` disables that bound, so
    /// network is informational (always `Ok`) unless a threshold is set.
    pub net_rx_warn_mibps: i64,
    pub net_rx_crit_mibps: i64,
    pub net_tx_warn_mibps: i64,
    pub net_tx_crit_mibps: i64,
    /// Interface error+drop rate (packets/s in millionths) over the sample window. Errors
    /// on a healthy NIC are ~0, so a low bound is meaningful; a bad link/driver
    /// or saturated queue shows a sustained nonzero rate.
    pub net_err_warn_pps: i64,
    pub net_err_crit_pps: i64,
    /// TCP accept-queue overflow rate (events/s in millionths) over the sample window. A
    /// healthy server accepts fast enough that this stays 0; a sustained rate means the
    /// listen backlog is overflowing and connections are being dropped.
    pub listen_overflow_warn_pps: i64,
    pub listen_overflow_crit_pps: i64,
    /// Conntrack connection-drop rate (events/s in millionths) over the sample window
    /// (`health-conntrack-drops`). A healthy host holds this at 0; a sustained
    /// rate means the conntrack table is full and dropping connections.
    pub conntrack_drop_warn_pps: i64,
    pub conntrack_drop_crit_pps: i64,
    /// TCP stack error rate (events/s in millionths) over the sample window
    /// (`health-tcp-errors`). Gates on memory/backlog-pressure counters (TCPAbortOnMemory +
    /// PruneCalled + TCPRcvQDrop), which hold at 0 on a healthy host; retransmits are noisy
    /// on any internet-facing host and are shown as context only, never gated.
    pub tcp_err_warn_pps: i64,
    pub tcp_err_crit_pps: i64,
    /// Days until the nearest configured TLS certificate expires (`health-cert-expiry`).
    /// At/below `warn` gives Warn, at/below `crit` (or already expired) gives Crit.
    pub cert_expiry_warn_days: i64,
    pub cert_expiry_crit_days: i64,
    /// Gap between the two `/proc/net/dev` samples, in seconds.
    pub net_sample_secs: u64,
    /// Failed systemd services: any failed unit is a `Warn`; this many or more
    /// escalate to `Crit`. `0` disables the escalation (failed units stay `Warn`),
    /// which is the default: a single benign oneshot failure shouldn't be `Crit`.
    pub failed_units_crit: u32,
    /// Zombie (defunct) processes: any zombie is a `Warn`; this many or more
    /// escalate to `Crit`. `0` disables the escalation (zombies stay `Warn`),
    /// which is the default: a transient zombie mid-reap shouldn't be `Crit`.
    pub zombie_crit: u32,
    /// How many hot processes to list per resource.
    pub top_n: usize,
}

impl View for Thresholds {
    type V = Thresholds;

    open spec fn view(&self) -> Thresholds {
        *self
    }
}

pub open spec fn default_thresholds() -> Thresholds {
    Thresholds {
        la_per_core_warn: 1_000_000,
        la_per_core_crit: 2_000_000,
        mem_used_warn_pct: 85,
        mem_used_crit_pct: 95,
        swap_used_warn_pct: 50,
        swap_used_crit_pct: 90,
        disk_warn_pct: 85,
        disk_crit_pct: 95,
        fd_warn_pct: 80,
        fd_crit_pct: 95,
        conntrack_warn_pct: 80,
        conntrack_crit_pct: 90,
        pid_warn_pct: 80,
        pid_crit_pct: 90,
        tcp_warn_pct: 80,
        tcp_crit_pct: 90,
        iowait_warn_pct: 20_000_000,
        iowait_crit_pct: 50_000_000,
        net_rx_warn_mibps: 0,
        net_rx_crit_mibps: 0,
        net_tx_warn_mibps: 0,
        net_tx_crit_mibps: 0,
        net_err_warn_pps: 1_000_000,
        net_err_crit_pps: 10_000_000,
        listen_overflow_warn_pps: 1_000_000,
        listen_overflow_crit_pps: 10_000_000,
        conntrack_drop_warn_pps: 1_000_000,
        conntrack_drop_crit_pps: 10_000_000,
        tcp_err_warn_pps: 1_000_000,
        tcp_err_crit_pps: 10_000_000,
        cert_expiry_warn_days: 21,
        cert_expiry_crit_days: 7,
        net_sample_secs: 1,
        failed_units_crit: 0,
        zombie_crit: 0,
        top_n: 5,
    }
}

impl Default for Thresholds {
    fn default() -> (r: Self)
        ensures
            r == default_thresholds(),
    {
        Thresholds {
            la_per_core_warn: 1_000_000,
            la_per_core_crit: 2_000_000,
            mem_used_warn_pct: 85,
            mem_used_crit_pct: 95,
            swap_used_warn_pct: 50,
            swap_used_crit_pct: 90,
            disk_warn_pct: 85,
            disk_crit_pct: 95,
            fd_warn_pct: 80,
            fd_crit_pct: 95,
            conntrack_warn_pct: 80,
            conntrack_crit_pct: 90,
            pid_warn_pct: 80,
            pid_crit_pct: 90,
            tcp_warn_pct: 80,
            tcp_crit_pct: 90,
            iowait_warn_pct: 20_000_000,
            iowait_crit_pct: 50_000_000,
            net_rx_warn_mibps: 0,
            net_rx_crit_mibps: 0,
            net_tx_warn_mibps: 0,
            net_tx_crit_mibps: 0,
            net_err_warn_pps: 1_000_000,
            net_err_crit_pps: 10_000_000,
            listen_overflow_warn_pps: 1_000_000,
            listen_overflow_crit_pps: 10_000_000,
            conntrack_drop_warn_pps: 1_000_000,
            conntrack_drop_crit_pps: 10_000_000,
            tcp_err_warn_pps: 1_000_000,
            tcp_err_crit_pps: 10_000_000,
            cert_expiry_warn_days: 21,
            cert_expiry_crit_days: 7,
            net_sample_secs: 1,
            failed_units_crit: 0,
            zombie_crit: 0,
            top_n: 5,
        }
    }
}

/// A metric whose input was missing or could not be read.
pub open spec fn unknown_metric(id: Seq<char>, title: Seq<char>, why: Seq<char>) -> MetricView {
    MetricView {
        id,
        title,
        status: HealthStatus::Unknown,
        value: "n/a"@,
        detail: why,
        numeric: None,
    }
}

pub fn unknown(id: &'static str, title: &'static str, why: String) -> (r: Metric)
    ensures
        r@ == unknown_metric(id@, title@, why@),
{
    Metric {
        id,
        title,
        status: HealthStatus::Unknown,
        value: "n/a".to_string(),
        detail: why,
        numeric: None,
    }
}

/// Ok/Warn/Crit for a number of millionths where higher is worse.
pub open spec fn graded(value: int, warn: int, crit: int) -> HealthStatus {
    if value >= crit {
        HealthStatus::Crit
    } else if value >= warn {
        HealthStatus::Warn
    } else {
        HealthStatus::Okay
    }
}

/// Ok/Warn/Crit for a quotient where higher is worse.
pub open spec fn graded_ratio(value: Ratio, warn: int, crit: int) -> HealthStatus {
    if value.reaches(crit) {
        HealthStatus::Crit
    } else if value.reaches(warn) {
        HealthStatus::Warn
    } else {
        HealthStatus::Okay
    }
}

/// Ok/Warn/Crit for a number of millionths where higher is worse.
pub fn threshold_status(value: i128, warn: i128, crit: i128) -> (r: HealthStatus)
    ensures
        r == graded(value as int, warn as int, crit as int),
{
    if value >= crit {
        HealthStatus::Crit
    } else if value >= warn {
        HealthStatus::Warn
    } else {
        HealthStatus::Okay
    }
}

pub fn ratio_status(value: Ratio, warn: i64, crit: i64) -> (r: HealthStatus)
    requires
        value.wf(),
    ensures
        r == graded_ratio(value, warn as int, crit as int),
{
    if is_reached(value, crit) {
        HealthStatus::Crit
    } else if is_reached(value, warn) {
        HealthStatus::Warn
    } else {
        HealthStatus::Okay
    }
}

/// Ok/Warn/Crit for a quotient against bounds in percent.
pub open spec fn graded_percent(value: Ratio, warn: u8, crit: u8) -> HealthStatus {
    graded_ratio(value, warn * 1_000_000, crit * 1_000_000)
}

pub fn percent_status(value: Ratio, warn: u8, crit: u8) -> (r: HealthStatus)
    requires
        value.wf(),
    ensures
        r == graded_percent(value, warn, crit),
{
    ratio_status(value, warn as i64 * 1_000_000, crit as i64 * 1_000_000)
}

/// Ok/Warn/Crit for one throughput bound; a threshold of `0` disables it.
pub open spec fn bounded(value: Ratio, warn: i64, crit: i64) -> HealthStatus {
    if crit > 0 && value.reaches(crit as int) {
        HealthStatus::Crit
    } else if warn > 0 && value.reaches(warn as int) {
        HealthStatus::Warn
    } else {
        HealthStatus::Okay
    }
}

/// Ok/Warn/Crit for one throughput bound; a threshold of `0` disables it.
pub fn bound_status(value: Ratio, warn: i64, crit: i64) -> (r: HealthStatus)
    requires
        value.wf(),
    ensures
        r == bounded(value, warn, crit),
{
    if crit > 0 && is_reached(value, crit) {
        HealthStatus::Crit
    } else if warn > 0 && is_reached(value, warn) {
        HealthStatus::Warn
    } else {
        HealthStatus::Okay
    }
}

/// Worst status across metrics (`Unknown` is neutral; `Unknown` overall only if
/// nothing could be measured).
pub open spec fn worst_status(metrics: Seq<MetricView>) -> HealthStatus
    decreases metrics.len(),
{
    if metrics.len() == 0 {
        HealthStatus::Unknown
    } else {
        worst_status(metrics.drop_last()).worse(metrics.last().status)
    }
}

/// Worst status across metrics (`Unknown` is neutral; `Unknown` overall only if
/// nothing could be measured).
pub fn worst(metrics: &Vec<Metric>) -> (r: HealthStatus)
    ensures
        r == worst_status(deep(metrics@)),
{
    let mut w = HealthStatus::Unknown;
    let mut i: usize = 0;
    while i < metrics.len()
        invariant
            i <= metrics@.len(),
            w == worst_status(deep(metrics@).take(i as int)),
        decreases metrics@.len() - i,
    {
        proof {
            assert(deep(metrics@).take(i + 1).drop_last() == deep(metrics@).take(i as int));
        }
        w = w.or_worse(metrics[i].status);
        i = i + 1;
    }
    proof {
        assert(deep(metrics@).take(i as int) == deep(metrics@));
    }
    w
}

/// A greater quotient reaches every bound that a smaller one reaches.
proof fn lemma_reaches(a: Ratio, b: Ratio, bound: int)
    requires
        a.den > 0,
        b.den > 0,
        a.num * b.den <= b.num * a.den,
        a.reaches(bound),
    ensures
        b.reaches(bound),
{
    let (x, p, y, q) = (a.num as int, a.den as int, b.num as int, b.den as int);
    assert(y * 1_000_000 >= bound * q) by (nonlinear_arith)
        requires
            p > 0,
            q > 0,
            x * q <= y * p,
            x * 1_000_000 >= bound * p,
    {
        assert(x * q * 1_000_000 <= y * p * 1_000_000);
        assert((x * 1_000_000) * q >= (bound * p) * q);
        assert((y * 1_000_000) * p >= (bound * q) * p);
    }
}

/// A higher reading is never graded better, whatever the bounds.
pub proof fn law_higher_is_never_better(
    a: Ratio,
    b: Ratio,
    low: int,
    high: int,
    warn: i64,
    crit: i64,
)
    requires
        a.den > 0,
        b.den > 0,
        a.num * b.den <= b.num * a.den,
        low <= high,
    ensures
        graded(low, warn as int, crit as int).level() <= graded(
            high,
            warn as int,
            crit as int,
        ).level(),
        graded_ratio(a, warn as int, crit as int).level() <= graded_ratio(
            b,
            warn as int,
            crit as int,
        ).level(),
        bounded(a, warn, crit).level() <= bounded(b, warn, crit).level(),
{
    if a.reaches(crit as int) {
        lemma_reaches(a, b, crit as int);
    }
    if a.reaches(warn as int) {
        lemma_reaches(a, b, warn as int);
    }
}

/// The overall status is the status of some metric, and no metric is worse. Only where every
/// metric is `Unknown` is the overall status `Unknown`.
pub proof fn law_overall_is_worst(metrics: Seq<MetricView>)
    ensures
        forall|i: int|
            0 <= i < metrics.len() ==> (#[trigger] metrics[i]).status.level() <= worst_status(
                metrics,
            ).level(),
        metrics.len() > 0 ==> exists|i: int|
            0 <= i < metrics.len() && (#[trigger] metrics[i]).status == worst_status(metrics),
        worst_status(metrics) == HealthStatus::Unknown <==> forall|i: int|
            0 <= i < metrics.len() ==> (#[trigger] metrics[i]).status == HealthStatus::Unknown,
    decreases metrics.len(),
{
    if metrics.len() > 0 {
        let rest = metrics.drop_last();
        let w = worst_status(metrics);
        law_overall_is_worst(rest);
        assert forall|i: int| 0 <= i < metrics.len() implies (
        #[trigger] metrics[i]).status.level() <= w.level() by {
            if i < rest.len() {
                assert(rest[i] == metrics[i]);
            }
        }
        if rest.len() > 0 && worst_status(rest).level() >= metrics.last().status.level() {
            let k = choose|k: int|
                0 <= k < rest.len() && (#[trigger] rest[k]).status == worst_status(rest);
            assert(metrics[k].status == w);
        } else {
            assert(metrics[metrics.len() - 1].status == w);
        }
        if w == HealthStatus::Unknown {
            assert forall|i: int| 0 <= i < metrics.len() implies (#[trigger] metrics[i]).status
                == HealthStatus::Unknown by {
                assert(metrics[i].status.level() <= 0);
            }
        }
    }
}

/// A reading that could not be taken never changes the overall status.
pub proof fn law_unknown_is_neutral(metrics: Seq<MetricView>, m: MetricView)
    requires
        m.status == HealthStatus::Unknown,
    ensures
        worst_status(metrics.push(m)) == worst_status(metrics),
{
    assert(metrics.push(m).drop_last() == metrics);
}

} // verus!
