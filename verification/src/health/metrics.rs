//! The metrics that one reading of each command gives.

use super::parse::{
    clock_synced, conntrack_fill, container_problems, cpu_count, event_critical, event_total,
    failed_units, file_nr, free_info, kernel_events, load_average, oom_kill, parse_conntrack,
    parse_container_problems, parse_df, parse_failed_units, parse_file_nr, parse_free,
    parse_kernel_events, parse_load_average, parse_nproc, parse_oom_kills, parse_pid_usage,
    parse_readonly_mounts, parse_reboot_required, parse_sockstat, parse_ss_summary,
    parse_timedatectl_synced, parse_vmstat, parse_zombie_count, pid_usage, readonly_mounts,
    real_mounts, reboot_required, sock_stat, socket_summary, vm_stat, zombie, KernelEventCategory,
    KernelEventCategoryView, MemInfo, Mount, MountView, SockStat,
};
use super::{
    graded, graded_percent, percent_status, threshold_status, unknown, unknown_metric, HealthStatus,
    Metric, MetricView, Thresholds, CONNTRACK, DF, DF_INODES, DOCKER_PS, FILE_NR, FREE, LS_RUN,
    NPROC, OOM_DMESG, PIDS, PODMAN_PS, PROC_MOUNTS, PS_STAT, SOCKSTAT, SS, SYSTEMCTL_FAILED,
    TIMEDATECTL, UPTIME, VMSTAT,
};
use crate::audit::{collected, Outputs, OutputsView};
use crate::double::{
    format_share, is_share_reached, share_micros, share_of, share_reaches, share_text,
};
use crate::quantity::{
    count_micros, format_ratio, is_greater_share, micros_of_count, percent, percentage, to_micros,
    Ratio,
};
use crate::text::chars::{deep, lemma_deep_empty, lemma_deep_push};
use crate::text::compose::{join_texts, joined, map_texts};
use crate::text::number::{
    digits, fixed, format_fixed, format_micros, format_u64, format_usize, micros_text,
};
use crate::text::order::{sort_texts, sorted};
use crate::text::search::eq_text;
use crate::text::split::{count_where, lemma_take_all, lines};
use vstd::prelude::*;
use vstd::string::StringExecFns;

verus! {

/// A number of bytes with one place after the point, in the largest unit that it fills.
pub open spec fn human_size(n: int) -> Seq<char> {
    if n < 1024 {
        digits(n) + " B"@
    } else if n < 1_048_576 {
        fixed(n, 1024, 1) + " KiB"@
    } else if n < 1_073_741_824 {
        fixed(n, 1_048_576, 1) + " MiB"@
    } else if n < 1_099_511_627_776 {
        fixed(n, 1_073_741_824, 1) + " GiB"@
    } else {
        fixed(n, 1_099_511_627_776, 1) + " TiB"@
    }
}

pub fn human_bytes(n: u64) -> (r: String)
    ensures
        r@ == human_size(n as int),
{
    if n < 1024 {
        let mut s = format_u64(n);
        s.append(" B");
        s
    } else if n < 1_048_576 {
        let mut s = format_fixed(n as u128, 1024, 1);
        s.append(" KiB");
        s
    } else if n < 1_073_741_824 {
        let mut s = format_fixed(n as u128, 1_048_576, 1);
        s.append(" MiB");
        s
    } else if n < 1_099_511_627_776 {
        let mut s = format_fixed(n as u128, 1_073_741_824, 1);
        s.append(" GiB");
        s
    } else {
        let mut s = format_fixed(n as u128, 1_099_511_627_776, 1);
        s.append(" TiB");
        s
    }
}

/// Ok/Warn/Crit for a load, shared out over the cores.
pub open spec fn graded_load(load: int, cores: int, warn: int, crit: int) -> HealthStatus {
    if share_reaches(load, cores, crit) {
        HealthStatus::Crit
    } else if share_reaches(load, cores, warn) {
        HealthStatus::Warn
    } else {
        HealthStatus::Okay
    }
}

fn load_status(load: i64, cores: u32, warn: i64, crit: i64) -> (r: HealthStatus)
    requires
        cores > 0,
    ensures
        r == graded_load(load as int, cores as int, warn as int, crit as int),
{
    if is_share_reached(load, cores, crit) {
        HealthStatus::Crit
    } else if is_share_reached(load, cores, warn) {
        HealthStatus::Warn
    } else {
        HealthStatus::Okay
    }
}

/// The load average against the number of cores.
#[verifier::opaque]
pub open spec fn load_reading(o: OutputsView, thr: Thresholds) -> MetricView {
    let id = "health-load"@;
    let title = "Load average"@;
    match (collected(o, UPTIME@), collected(o, NPROC@)) {
        (Some(up), Some(np)) => match load_average(up) {
            None => unknown_metric(id, title, "could not parse load average"@),
            Some((one, five, fifteen)) => match cpu_count(np) {
                None => unknown_metric(id, title, "could not parse cpu count"@),
                Some(cores) => if cores == 0 {
                    unknown_metric(id, title, "could not parse cpu count"@)
                } else {
                    MetricView {
                        id,
                        title,
                        status: graded_load(
                            one as int,
                            cores as int,
                            thr.la_per_core_warn as int,
                            thr.la_per_core_crit as int,
                        ),
                        value: share_text(one as int, cores as int, 2) + " per core"@,
                        detail: "1m "@ + micros_text(one as int, 2) + ", 5m "@ + micros_text(
                            five as int,
                            2,
                        ) + ", 15m "@ + micros_text(fifteen as int, 2) + " over "@ + digits(
                            cores as int,
                        ) + " core(s)"@,
                        numeric: Some(share_micros(one as int, cores as int) as i64),
                    }
                },
            },
        },
        _ => unknown_metric(id, title, "uptime/nproc unavailable"@),
    }
}

pub fn load_metric(outputs: &Outputs, thr: &Thresholds) -> (r: Metric)
    ensures
        r@ == load_reading(outputs@, *thr),
{
    proof {
        reveal(load_reading);
    }
    let id: &'static str = "health-load";
    let title: &'static str = "Load average";
    let (up, np) = match (outputs.stdout(UPTIME), outputs.stdout(NPROC)) {
        (Some(up), Some(np)) => (up, np),
        _ => {
            return unknown(id, title, "uptime/nproc unavailable".to_string());
        },
    };
    let (one, five, fifteen) = match parse_load_average(up) {
        Some(la) => la,
        None => {
            return unknown(id, title, "could not parse load average".to_string());
        },
    };
    let cores: u32 = match parse_nproc(np) {
        Some(n) => n,
        None => 0,
    };
    if cores == 0 {
        return unknown(id, title, "could not parse cpu count".to_string());
    }
    let status = load_status(one, cores, thr.la_per_core_warn, thr.la_per_core_crit);
    let mut value = format_share(one, cores, 2);
    value.append(" per core");
    let mut detail = "1m ".to_string();
    detail.append(format_micros(one, 2).as_str());
    detail.append(", 5m ");
    detail.append(format_micros(five, 2).as_str());
    detail.append(", 15m ");
    detail.append(format_micros(fifteen, 2).as_str());
    detail.append(" over ");
    detail.append(format_u64(cores as u64).as_str());
    detail.append(" core(s)");
    Metric { id, title, status, value, detail, numeric: Some(share_of(one, cores)) }
}

/// The bytes in use: `available` shows real pressure; where it is missing, `used` counts.
pub open spec fn memory_used(free: MemInfo) -> u64 {
    if free.mem_available > 0 {
        if free.mem_total >= free.mem_available {
            (free.mem_total - free.mem_available) as u64
        } else {
            0
        }
    } else {
        free.mem_used
    }
}

/// The memory in use in percent; nothing where there is no memory at all.
pub open spec fn memory_share(free: MemInfo) -> Ratio {
    if free.mem_total == 0 {
        Ratio { num: 0, den: 1 }
    } else {
        percentage(memory_used(free), free.mem_total)
    }
}

pub open spec fn memory_reading(free: MemInfo, thr: Thresholds) -> MetricView {
    let share = memory_share(free);
    MetricView {
        id: "health-memory"@,
        title: "Memory usage"@,
        status: graded_percent(share, thr.mem_used_warn_pct, thr.mem_used_crit_pct),
        value: share.text(0) + "% used"@,
        detail: human_size(memory_used(free) as int) + " of "@ + human_size(free.mem_total as int)
            + " in use (available "@ + human_size(free.mem_available as int) + ")"@,
        numeric: Some(share.micros()),
    }
}

pub open spec fn swap_reading(free: MemInfo, thr: Thresholds) -> MetricView {
    if free.swap_total == 0 {
        MetricView {
            id: "health-swap"@,
            title: "Swap usage"@,
            status: HealthStatus::Okay,
            value: "no swap"@,
            detail: "no swap configured"@,
            numeric: Some(0),
        }
    } else {
        let share = percentage(free.swap_used, free.swap_total);
        MetricView {
            id: "health-swap"@,
            title: "Swap usage"@,
            status: graded_percent(share, thr.swap_used_warn_pct, thr.swap_used_crit_pct),
            value: share.text(0) + "% used"@,
            detail: human_size(free.swap_used as int) + " of "@ + human_size(free.swap_total as int)
                + " in use"@,
            numeric: Some(share.micros()),
        }
    }
}

/// Memory and swap in use.
#[verifier::opaque]
pub open spec fn memory_readings(o: OutputsView, thr: Thresholds) -> Seq<MetricView> {
    let info = match collected(o, FREE@) {
        Some(text) => free_info(text),
        None => None,
    };
    match info {
        Some(free) => seq![memory_reading(free, thr), swap_reading(free, thr)],
        None => seq![
            unknown_metric("health-memory"@, "Memory usage"@, "free unavailable"@),
            unknown_metric("health-swap"@, "Swap usage"@, "free unavailable"@),
        ],
    }
}

fn memory_metric(free: &MemInfo, thr: &Thresholds) -> (r: Metric)
    ensures
        r@ == memory_reading(*free, *thr),
{
    // One figure drives both the percent and the detail so they agree.
    let used: u64 = if free.mem_available > 0 {
        free.mem_total.saturating_sub(free.mem_available)
    } else {
        free.mem_used
    };
    let share = if free.mem_total == 0 {
        Ratio { num: 0, den: 1 }
    } else {
        percent(used, free.mem_total)
    };
    let mut value = format_ratio(share, 0);
    value.append("% used");
    let mut detail = human_bytes(used);
    detail.append(" of ");
    detail.append(human_bytes(free.mem_total).as_str());
    detail.append(" in use (available ");
    detail.append(human_bytes(free.mem_available).as_str());
    detail.append(")");
    Metric {
        id: "health-memory",
        title: "Memory usage",
        status: percent_status(share, thr.mem_used_warn_pct, thr.mem_used_crit_pct),
        value,
        detail,
        numeric: Some(to_micros(share)),
    }
}

fn swap_metric(free: &MemInfo, thr: &Thresholds) -> (r: Metric)
    ensures
        r@ == swap_reading(*free, *thr),
{
    if free.swap_total == 0 {
        return Metric {
            id: "health-swap",
            title: "Swap usage",
            status: HealthStatus::Okay,
            value: "no swap".to_string(),
            detail: "no swap configured".to_string(),
            numeric: Some(0),
        };
    }
    let share = percent(free.swap_used, free.swap_total);
    let mut value = format_ratio(share, 0);
    value.append("% used");
    let mut detail = human_bytes(free.swap_used);
    detail.append(" of ");
    detail.append(human_bytes(free.swap_total).as_str());
    detail.append(" in use");
    Metric {
        id: "health-swap",
        title: "Swap usage",
        status: percent_status(share, thr.swap_used_warn_pct, thr.swap_used_crit_pct),
        value,
        detail,
        numeric: Some(to_micros(share)),
    }
}

pub fn memory_metrics(outputs: &Outputs, thr: &Thresholds) -> (r: Vec<Metric>)
    ensures
        deep(r@) == memory_readings(outputs@, *thr),
{
    proof {
        reveal(memory_readings);
    }
    broadcast use lemma_deep_push, lemma_deep_empty;

    let info = match outputs.stdout(FREE) {
        Some(text) => parse_free(text),
        None => None,
    };
    let mut out: Vec<Metric> = Vec::new();
    match info {
        Some(free) => {
            out.push(memory_metric(&free, thr));
            out.push(swap_metric(&free, thr));
        },
        None => {
            out.push(unknown("health-memory", "Memory usage", "free unavailable".to_string()));
            out.push(unknown("health-swap", "Swap usage", "free unavailable".to_string()));
        },
    }
    proof {
        assert(deep(out@) =~= memory_readings(outputs@, *thr));
    }
    out
}

/// The fullest filesystem; of equals the last.
pub open spec fn fullest(mounts: Seq<MountView>) -> Option<MountView>
    decreases mounts.len(),
{
    if mounts.len() == 0 {
        None
    } else {
        match fullest(mounts.drop_last()) {
            Some(w) => if mounts.last().use_pct >= w.use_pct {
                Some(mounts.last())
            } else {
                Some(w)
            },
            None => Some(mounts.last()),
        }
    }
}

pub open spec fn mount_label(m: MountView) -> Seq<char> {
    m.mount + " "@ + digits(m.use_pct as int) + "%"@
}

/// How full the filesystems are.
pub open spec fn filesystem_reading(
    id: Seq<char>,
    title: Seq<char>,
    text: Option<Seq<char>>,
    missing: Seq<char>,
    thr: Thresholds,
) -> MetricView {
    match text {
        None => unknown_metric(id, title, missing),
        Some(df) => {
            let mounts = real_mounts(df);
            match fullest(mounts) {
                None => unknown_metric(id, title, "no real filesystems reported"@),
                Some(worst) => MetricView {
                    id,
                    title,
                    status: graded(
                        worst.use_pct as int,
                        thr.disk_warn_pct as int,
                        thr.disk_crit_pct as int,
                    ),
                    value: digits(worst.use_pct as int) + "% on "@ + worst.mount,
                    detail: joined(
                        sorted(mounts.map_values(|m: MountView| mount_label(m))),
                        ", "@,
                    ),
                    numeric: Some(count_micros(worst.use_pct as int)),
                },
            }
        },
    }
}

#[verifier::opaque]
pub open spec fn disk_reading(o: OutputsView, thr: Thresholds) -> MetricView {
    filesystem_reading(
        "health-disk"@,
        "Disk usage"@,
        collected(o, DF@),
        "df unavailable"@,
        thr,
    )
}

#[verifier::opaque]
pub open spec fn inodes_reading(o: OutputsView, thr: Thresholds) -> MetricView {
    filesystem_reading(
        "health-inodes"@,
        "Inode usage"@,
        collected(o, DF_INODES@),
        "df -i unavailable"@,
        thr,
    )
}

fn find_fullest(mounts: &Vec<Mount>) -> (r: Option<usize>)
    ensures
        match r {
            Some(k) => k < mounts@.len() && fullest(deep(mounts@)) == Some(mounts@[k as int]@),
            None => fullest(deep(mounts@)).is_none(),
        },
{
    if mounts.len() == 0 {
        return None;
    }
    let mut k: usize = 0;
    let mut i: usize = 1;
    proof {
        assert(deep(mounts@).take(1).drop_last() == deep(mounts@).take(0));
        assert(fullest(deep(mounts@).take(0)).is_none());
    }
    while i < mounts.len()
        invariant
            k < i <= mounts@.len(),
            fullest(deep(mounts@).take(i as int)) == Some(mounts@[k as int]@),
        decreases mounts@.len() - i,
    {
        proof {
            assert(deep(mounts@).take(i + 1).drop_last() == deep(mounts@).take(i as int));
        }
        if mounts[i].use_pct >= mounts[k].use_pct {
            k = i;
        }
        i = i + 1;
    }
    proof {
        lemma_take_all(deep(mounts@));
    }
    Some(k)
}

fn format_mount(m: &Mount) -> (r: String)
    ensures
        r@ == mount_label(m@),
{
    let mut s = m.mount.clone();
    s.append(" ");
    s.append(format_u64(m.use_pct as u64).as_str());
    s.append("%");
    s
}

fn filesystem_metric(
    id: &'static str,
    title: &'static str,
    text: Option<&str>,
    missing: &str,
    thr: &Thresholds,
) -> (r: Metric)
    ensures
        r@ == filesystem_reading(
            id@,
            title@,
            crate::text::chars::deep_option(text),
            missing@,
            *thr,
        ),
{
    let mounts = match text {
        Some(df) => parse_df(df),
        None => {
            return unknown(id, title, missing.to_string());
        },
    };
    match find_fullest(&mounts) {
        None => unknown(id, title, "no real filesystems reported".to_string()),
        Some(k) => {
            let pct: u8 = mounts[k].use_pct;
            let mut value = format_u64(pct as u64);
            value.append("% on ");
            value.append(mounts[k].mount.as_str());
            let labels = sort_texts(
                map_texts(&mounts, format_mount, Ghost(|m: MountView| mount_label(m))),
            );
            Metric {
                id,
                title,
                status: threshold_status(
                    pct as i128,
                    thr.disk_warn_pct as i128,
                    thr.disk_crit_pct as i128,
                ),
                value,
                detail: join_texts(&labels, ", "),
                numeric: Some(micros_of_count(pct as u64)),
            }
        },
    }
}

pub fn disk_metric(outputs: &Outputs, thr: &Thresholds) -> (r: Metric)
    ensures
        r@ == disk_reading(outputs@, *thr),
{
    proof {
        reveal(disk_reading);
    }
    filesystem_metric("health-disk", "Disk usage", outputs.stdout(DF), "df unavailable", thr)
}

/// Inode usage per filesystem, from `df -Pi`. A filesystem can exhaust its inodes
/// while blocks are free (lots of tiny files), and then no file can be created,
/// so this is tracked alongside, but separately from, block capacity. Reuses the
/// disk thresholds (same "filesystem filling up" nature) and the `df` parser
/// (the portable inode columns place the percent in the same position).
pub fn inodes_metric(outputs: &Outputs, thr: &Thresholds) -> (r: Metric)
    ensures
        r@ == inodes_reading(outputs@, *thr),
{
    proof {
        reveal(inodes_reading);
    }
    filesystem_metric(
        "health-inodes",
        "Inode usage",
        outputs.stdout(DF_INODES),
        "df -i unavailable",
        thr,
    )
}

/// A table that fills up against a maximum.
pub open spec fn fill_reading(
    id: Seq<char>,
    title: Seq<char>,
    fill: Option<(u64, u64)>,
    missing: Seq<char>,
    no_max: Seq<char>,
    unit: Seq<char>,
    warn: u8,
    crit: u8,
) -> MetricView {
    match fill {
        None => unknown_metric(id, title, missing),
        Some((used, max)) => if max == 0 {
            unknown_metric(id, title, no_max)
        } else {
            let share = percentage(used, max);
            MetricView {
                id,
                title,
                status: graded_percent(share, warn, crit),
                value: share.text(0) + "% used"@,
                detail: digits(used as int) + " of "@ + digits(max as int) + unit,
                numeric: Some(share.micros()),
            }
        },
    }
}

fn fill_metric(
    id: &'static str,
    title: &'static str,
    fill: Option<(u64, u64)>,
    missing: &str,
    no_max: &str,
    unit: &str,
    warn: u8,
    crit: u8,
) -> (r: Metric)
    ensures
        r@ == fill_reading(id@, title@, fill, missing@, no_max@, unit@, warn, crit),
{
    match fill {
        None => unknown(id, title, missing.to_string()),
        Some((used, max)) => {
            if max == 0 {
                return unknown(id, title, no_max.to_string());
            }
            let share = percent(used, max);
            let mut value = format_ratio(share, 0);
            value.append("% used");
            let mut detail = format_u64(used);
            detail.append(" of ");
            detail.append(format_u64(max).as_str());
            detail.append(unit);
            Metric {
                id,
                title,
                status: percent_status(share, warn, crit),
                value,
                detail,
                numeric: Some(to_micros(share)),
            }
        },
    }
}

#[verifier::opaque]
pub open spec fn fd_reading(o: OutputsView, thr: Thresholds) -> MetricView {
    fill_reading(
        "health-fd"@,
        "Open file descriptors"@,
        match collected(o, FILE_NR@) {
            Some(text) => file_nr(text),
            None => None,
        },
        "file-nr unavailable"@,
        "file-nr reports no maximum"@,
        " file descriptors allocated"@,
        thr.fd_warn_pct,
        thr.fd_crit_pct,
    )
}

/// System-wide open file descriptors as a percent of the kernel max, from
/// `/proc/sys/fs/file-nr`. Nearing the max means new sockets/files fail with
/// "too many open files": a fleet-wide outage cause independent of CPU/memory.
pub fn fd_metric(outputs: &Outputs, thr: &Thresholds) -> (r: Metric)
    ensures
        r@ == fd_reading(outputs@, *thr),
{
    proof {
        reveal(fd_reading);
    }
    fill_metric(
        "health-fd",
        "Open file descriptors",
        match outputs.stdout(FILE_NR) {
            Some(text) => parse_file_nr(text),
            None => None,
        },
        "file-nr unavailable",
        "file-nr reports no maximum",
        " file descriptors allocated",
        thr.fd_warn_pct,
        thr.fd_crit_pct,
    )
}

#[verifier::opaque]
pub open spec fn conntrack_reading(o: OutputsView, thr: Thresholds) -> MetricView {
    fill_reading(
        "health-conntrack"@,
        "Conntrack table"@,
        match collected(o, CONNTRACK@) {
            Some(text) => conntrack_fill(text),
            None => None,
        },
        "conntrack not available (module not loaded)"@,
        "nf_conntrack_max is zero"@,
        " tracked connections"@,
        thr.conntrack_warn_pct,
        thr.conntrack_crit_pct,
    )
}

/// Netfilter connection-tracking table fill, from `nf_conntrack_count` /
/// `nf_conntrack_max`. A full table drops new connections ("nf_conntrack: table
/// full"): a NAT/firewall/proxy outage that CPU and memory metrics miss. Absent
/// (module not loaded, e.g. a host with no connection tracking) reports `Unknown`.
pub fn conntrack_metric(outputs: &Outputs, thr: &Thresholds) -> (r: Metric)
    ensures
        r@ == conntrack_reading(outputs@, *thr),
{
    proof {
        reveal(conntrack_reading);
    }
    fill_metric(
        "health-conntrack",
        "Conntrack table",
        match outputs.stdout(CONNTRACK) {
            Some(text) => parse_conntrack(text),
            None => None,
        },
        "conntrack not available (module not loaded)",
        "nf_conntrack_max is zero",
        " tracked connections",
        thr.conntrack_warn_pct,
        thr.conntrack_crit_pct,
    )
}

#[verifier::opaque]
pub open spec fn pids_reading(o: OutputsView, thr: Thresholds) -> MetricView {
    fill_reading(
        "health-pids"@,
        "Process/PID saturation"@,
        match collected(o, PIDS@) {
            Some(text) => pid_usage(text),
            None => None,
        },
        "loadavg/pid_max unavailable"@,
        "pid_max is zero"@,
        " max PIDs (tasks/threads)"@,
        thr.pid_warn_pct,
        thr.pid_crit_pct,
    )
}

/// Task/PID saturation, from `/proc/loadavg` (total tasks) and `pid_max`. As tasks
/// approach the ceiling, `fork()`/`clone()` fail and nothing new can start (a
/// runaway thread/process leak or fork bomb), independent of CPU/memory.
pub fn pids_metric(outputs: &Outputs, thr: &Thresholds) -> (r: Metric)
    ensures
        r@ == pids_reading(outputs@, *thr),
{
    proof {
        reveal(pids_reading);
    }
    fill_metric(
        "health-pids",
        "Process/PID saturation",
        match outputs.stdout(PIDS) {
            Some(text) => parse_pid_usage(text),
            None => None,
        },
        "loadavg/pid_max unavailable",
        "pid_max is zero",
        " max PIDs (tasks/threads)",
        thr.pid_warn_pct,
        thr.pid_crit_pct,
    )
}

/// The most exhausted of the three TCP resources: its name and its share.
pub open spec fn tcp_worst(s: SockStat) -> (Seq<char>, Ratio) {
    let mem = percentage(s.tcp_mem, s.tcp_mem_max);
    let orphan = percentage(s.orphan, s.max_orphans);
    let tw = percentage(s.tw, s.max_tw);
    let first = if orphan.exceeds(mem) {
        ("orphan"@, orphan)
    } else {
        ("mem"@, mem)
    };
    if tw.exceeds(first.1) {
        ("tw"@, tw)
    } else {
        first
    }
}

/// One resource as `name used/max (pct%)`.
pub open spec fn tcp_part(name: Seq<char>, used: u64, max: u64) -> Seq<char> {
    name + " "@ + digits(used as int) + "/"@ + digits(max as int) + " ("@ + percentage(
        used,
        max,
    ).text(0) + "%)"@
}

#[verifier::opaque]
pub open spec fn tcp_mem_reading(o: OutputsView, thr: Thresholds) -> MetricView {
    let id = "health-tcp-mem"@;
    let title = "TCP memory/socket pressure"@;
    let stat = match collected(o, SOCKSTAT@) {
        Some(text) => sock_stat(text),
        None => None,
    };
    match stat {
        None => unknown_metric(id, title, "sockstat/tcp limits unavailable"@),
        Some(s) => if s.tcp_mem_max == 0 || s.max_orphans == 0 || s.max_tw == 0 {
            unknown_metric(id, title, "a TCP ceiling is zero"@)
        } else {
            let (label, worst) = tcp_worst(s);
            MetricView {
                id,
                title,
                status: graded_percent(worst, thr.tcp_warn_pct, thr.tcp_crit_pct),
                value: label + " "@ + worst.text(0) + "% of limit"@,
                detail: tcp_part("mem"@, s.tcp_mem, s.tcp_mem_max) + ", "@ + tcp_part(
                    "orphan"@,
                    s.orphan,
                    s.max_orphans,
                ) + ", "@ + tcp_part("tw"@, s.tw, s.max_tw),
                numeric: Some(worst.micros()),
            }
        },
    }
}

fn format_tcp_part(name: &str, used: u64, max: u64) -> (r: String)
    requires
        max > 0,
    ensures
        r@ == tcp_part(name@, used, max),
{
    let mut s = name.to_string();
    s.append(" ");
    s.append(format_u64(used).as_str());
    s.append("/");
    s.append(format_u64(max).as_str());
    s.append(" (");
    s.append(format_ratio(percent(used, max), 0).as_str());
    s.append("%)");
    s
}

/// TCP socket/memory pressure, from `/proc/net/sockstat` and the kernel ceilings.
/// Reports the worst of three exhaustion modes: TCP memory (pages vs `tcp_mem`
/// max), orphaned sockets (vs `tcp_max_orphans`) and TIME_WAIT sockets (vs
/// `tcp_max_tw_buckets`). Any of them filling up drops or throttles connections:
/// a proxy/web outage independent of CPU and memory. Missing input gives `Unknown`.
pub fn tcp_mem_metric(outputs: &Outputs, thr: &Thresholds) -> (r: Metric)
    ensures
        r@ == tcp_mem_reading(outputs@, *thr),
{
    proof {
        reveal(tcp_mem_reading);
    }
    let id: &'static str = "health-tcp-mem";
    let title: &'static str = "TCP memory/socket pressure";
    let stat = match outputs.stdout(SOCKSTAT) {
        Some(text) => parse_sockstat(text),
        None => None,
    };
    let s = match stat {
        Some(s) => s,
        None => {
            return unknown(id, title, "sockstat/tcp limits unavailable".to_string());
        },
    };
    if s.tcp_mem_max == 0 || s.max_orphans == 0 || s.max_tw == 0 {
        return unknown(id, title, "a TCP ceiling is zero".to_string());
    }
    let mut label: &'static str = "mem";
    let mut used: u64 = s.tcp_mem;
    let mut max: u64 = s.tcp_mem_max;
    if is_greater_share(s.orphan, s.max_orphans, used, max) {
        label = "orphan";
        used = s.orphan;
        max = s.max_orphans;
    }
    if is_greater_share(s.tw, s.max_tw, used, max) {
        label = "tw";
        used = s.tw;
        max = s.max_tw;
    }
    let worst = percent(used, max);
    let mut value = label.to_string();
    value.append(" ");
    value.append(format_ratio(worst, 0).as_str());
    value.append("% of limit");
    let mut detail = format_tcp_part("mem", s.tcp_mem, s.tcp_mem_max);
    detail.append(", ");
    detail.append(format_tcp_part("orphan", s.orphan, s.max_orphans).as_str());
    detail.append(", ");
    detail.append(format_tcp_part("tw", s.tw, s.max_tw).as_str());
    Metric {
        id,
        title,
        status: percent_status(worst, thr.tcp_warn_pct, thr.tcp_crit_pct),
        value,
        detail,
        numeric: Some(to_micros(worst)),
    }
}

#[verifier::opaque]
pub open spec fn iowait_reading(o: OutputsView, thr: Thresholds) -> MetricView {
    let id = "health-iowait"@;
    let title = "IO wait"@;
    let stat = match collected(o, VMSTAT@) {
        Some(text) => vm_stat(text),
        None => None,
    };
    match stat {
        None => unknown_metric(id, title, "vmstat unavailable"@),
        Some(v) => MetricView {
            id,
            title,
            status: graded(
                v.iowait as int,
                thr.iowait_warn_pct as int,
                thr.iowait_crit_pct as int,
            ),
            value: micros_text(v.iowait as int, 0) + "% iowait"@,
            detail: digits(v.blocked as int) + " proc(s) blocked, "@ + micros_text(
                v.steal as int,
                0,
            ) + "% steal"@,
            numeric: Some(v.iowait),
        },
    }
}

pub fn iowait_metric(outputs: &Outputs, thr: &Thresholds) -> (r: Metric)
    ensures
        r@ == iowait_reading(outputs@, *thr),
{
    proof {
        reveal(iowait_reading);
    }
    let id: &'static str = "health-iowait";
    let title: &'static str = "IO wait";
    let stat = match outputs.stdout(VMSTAT) {
        Some(text) => parse_vmstat(text),
        None => None,
    };
    match stat {
        None => unknown(id, title, "vmstat unavailable".to_string()),
        Some(v) => {
            let mut value = format_micros(v.iowait, 0);
            value.append("% iowait");
            let mut detail = format_u64(v.blocked);
            detail.append(" proc(s) blocked, ");
            detail.append(format_micros(v.steal, 0).as_str());
            detail.append("% steal");
            Metric {
                id,
                title,
                status: threshold_status(
                    v.iowait as i128,
                    thr.iowait_warn_pct as i128,
                    thr.iowait_crit_pct as i128,
                ),
                value,
                detail,
                numeric: Some(v.iowait),
            }
        },
    }
}

#[verifier::opaque]
pub open spec fn connections_reading(o: OutputsView) -> MetricView {
    let id = "health-connections"@;
    let title = "Network connections"@;
    let summary = match collected(o, SS@) {
        Some(text) => socket_summary(text),
        None => None,
    };
    match summary {
        None => unknown_metric(id, title, "ss unavailable"@),
        Some(s) => MetricView {
            id,
            title,
            status: HealthStatus::Okay,
            value: digits(s.tcp_estab as int) + " established"@,
            detail: digits(s.total as int) + " sockets total"@,
            numeric: Some(count_micros(s.tcp_estab as int)),
        },
    }
}

/// Informational: the raw connection count has no universal threshold, so it
/// reports as `Ok`; an unusual count is surfaced by the anomaly layer instead.
pub fn network_metric(outputs: &Outputs) -> (r: Metric)
    ensures
        r@ == connections_reading(outputs@),
{
    proof {
        reveal(connections_reading);
    }
    let id: &'static str = "health-connections";
    let title: &'static str = "Network connections";
    let summary = match outputs.stdout(SS) {
        Some(text) => parse_ss_summary(text),
        None => None,
    };
    match summary {
        None => unknown(id, title, "ss unavailable".to_string()),
        Some(s) => {
            let mut value = format_u64(s.tcp_estab);
            value.append(" established");
            let mut detail = format_u64(s.total);
            detail.append(" sockets total");
            Metric {
                id,
                title,
                status: HealthStatus::Okay,
                value,
                detail,
                numeric: Some(micros_of_count(s.tcp_estab)),
            }
        },
    }
}

/// Nothing is fine, something is a warning, and `crit` or more is critical unless that is 0.
pub open spec fn escalated(n: int, crit: u32) -> HealthStatus {
    if n == 0 {
        HealthStatus::Okay
    } else if crit > 0 && n >= crit {
        HealthStatus::Crit
    } else {
        HealthStatus::Warn
    }
}

fn escalate(n: usize, crit: u32) -> (r: HealthStatus)
    ensures
        r == escalated(n as int, crit),
{
    if n == 0 {
        HealthStatus::Okay
    } else if crit > 0 && n as u64 >= crit as u64 {
        HealthStatus::Crit
    } else {
        HealthStatus::Warn
    }
}

#[verifier::opaque]
pub open spec fn failed_units_reading(o: OutputsView, thr: Thresholds) -> MetricView {
    let id = "health-failed-units"@;
    let title = "Failed services"@;
    match collected(o, SYSTEMCTL_FAILED@) {
        None => unknown_metric(id, title, "systemctl unavailable"@),
        Some(text) => {
            let units = failed_units(text);
            let n = units.len() as int;
            MetricView {
                id,
                title,
                status: escalated(n, thr.failed_units_crit),
                value: if n == 0 {
                    "no failed units"@
                } else {
                    digits(n) + " failed unit(s)"@
                },
                detail: if n == 0 {
                    "no systemd services in failed state"@
                } else {
                    joined(units, ", "@)
                },
                numeric: Some(count_micros(n)),
            }
        },
    }
}

/// Failed systemd services. A zero-config liveness signal: any failed unit is a
/// `Warn` (something that should be running isn't); `failed_units_crit` or more
/// escalate to `Crit`. Missing `systemctl` (non-systemd host) reports `Unknown`,
/// so it never gates. `numeric` is the failed count, so a jump vs this host's
/// history is picked up by the anomaly layer.
pub fn failed_units_metric(outputs: &Outputs, thr: &Thresholds) -> (r: Metric)
    ensures
        r@ == failed_units_reading(outputs@, *thr),
{
    proof {
        reveal(failed_units_reading);
    }
    let id: &'static str = "health-failed-units";
    let title: &'static str = "Failed services";
    match outputs.stdout(SYSTEMCTL_FAILED) {
        None => unknown(id, title, "systemctl unavailable".to_string()),
        Some(text) => {
            let units = parse_failed_units(text);
            let n: usize = units.len();
            let value = if n == 0 {
                "no failed units".to_string()
            } else {
                let mut s = format_usize(n);
                s.append(" failed unit(s)");
                s
            };
            let detail = if n == 0 {
                "no systemd services in failed state".to_string()
            } else {
                join_texts(&units, ", ")
            };
            Metric {
                id,
                title,
                status: escalate(n, thr.failed_units_crit),
                value,
                detail,
                numeric: Some(micros_of_count(n as u64)),
            }
        },
    }
}

#[verifier::opaque]
pub open spec fn oom_reading(o: OutputsView) -> MetricView {
    let id = "health-oom"@;
    let title = "OOM-killer events"@;
    match collected(o, OOM_DMESG@) {
        None => unknown_metric(
            id,
            title,
            "kernel log unavailable (needs privileged sudo -n dmesg)"@,
        ),
        Some(text) => {
            let n = count_where(lines(text), |l: Seq<char>| oom_kill(l)) as int;
            MetricView {
                id,
                title,
                status: escalated(n, 0),
                value: if n == 0 {
                    "no OOM kills"@
                } else {
                    digits(n) + " OOM kill(s) since boot"@
                },
                detail: if n == 0 {
                    "no out-of-memory kills in the kernel log"@
                } else {
                    digits(n) + " process(es) killed by the OOM-killer (kernel log)"@
                },
                numeric: Some(count_micros(n)),
            }
        },
    }
}

/// Recent OOM-killer events from the kernel log. When memory is exhausted the
/// kernel kills a process to survive; that a service was OOM-killed is a
/// zero-config "something went badly wrong" signal even if the host looks fine
/// now. Any kill since boot gives `Warn`. Privileged (`sudo -n dmesg`): on a
/// non-opted-in host the log is uncollected and the metric is `Unknown` (never
/// gates). `numeric` is the kill count, for history/anomaly baselining.
pub fn oom_metric(outputs: &Outputs) -> (r: Metric)
    ensures
        r@ == oom_reading(outputs@),
{
    proof {
        reveal(oom_reading);
    }
    let id: &'static str = "health-oom";
    let title: &'static str = "OOM-killer events";
    match outputs.stdout(OOM_DMESG) {
        None => unknown(
            id,
            title,
            "kernel log unavailable (needs privileged sudo -n dmesg)".to_string(),
        ),
        Some(text) => {
            let n = parse_oom_kills(text);
            let value = if n == 0 {
                "no OOM kills".to_string()
            } else {
                let mut s = format_usize(n);
                s.append(" OOM kill(s) since boot");
                s
            };
            let detail = if n == 0 {
                "no out-of-memory kills in the kernel log".to_string()
            } else {
                let mut s = format_usize(n);
                s.append(" process(es) killed by the OOM-killer (kernel log)");
                s
            };
            Metric {
                id,
                title,
                status: escalate(n, 0),
                value,
                detail,
                numeric: Some(micros_of_count(n as u64)),
            }
        },
    }
}

#[verifier::opaque]
pub open spec fn zombie_reading(o: OutputsView, thr: Thresholds) -> MetricView {
    let id = "health-zombies"@;
    let title = "Zombie processes"@;
    match collected(o, PS_STAT@) {
        None => unknown_metric(id, title, "ps unavailable"@),
        Some(text) => {
            let n = count_where(lines(text), |l: Seq<char>| zombie(l)) as int;
            MetricView {
                id,
                title,
                status: escalated(n, thr.zombie_crit),
                value: if n == 0 {
                    "no zombies"@
                } else {
                    digits(n) + " zombie process(es)"@
                },
                detail: if n == 0 {
                    "no defunct processes"@
                } else {
                    digits(n)
                        + " process(es) in Z (defunct) state - a parent isn't reaping children"@
                },
                numeric: Some(count_micros(n)),
            }
        },
    }
}

/// Zombie (defunct) processes: a dead child whose parent never reaped it. A few
/// transient zombies are normal, but a growing count means a parent process is
/// leaking children (it isn't calling `wait()`), which eventually exhausts the
/// PID table. `numeric` is the count, for history/anomaly baselining. Missing
/// `ps` output gives `Unknown`.
pub fn zombie_metric(outputs: &Outputs, thr: &Thresholds) -> (r: Metric)
    ensures
        r@ == zombie_reading(outputs@, *thr),
{
    proof {
        reveal(zombie_reading);
    }
    let id: &'static str = "health-zombies";
    let title: &'static str = "Zombie processes";
    match outputs.stdout(PS_STAT) {
        None => unknown(id, title, "ps unavailable".to_string()),
        Some(text) => {
            let n = parse_zombie_count(text);
            let value = if n == 0 {
                "no zombies".to_string()
            } else {
                let mut s = format_usize(n);
                s.append(" zombie process(es)");
                s
            };
            let detail = if n == 0 {
                "no defunct processes".to_string()
            } else {
                let mut s = format_usize(n);
                s.append(
                    " process(es) in Z (defunct) state - a parent isn't reaping children",
                );
                s
            };
            Metric {
                id,
                title,
                status: escalate(n, thr.zombie_crit),
                value,
                detail,
                numeric: Some(micros_of_count(n as u64)),
            }
        },
    }
}

pub open spec fn event_count_label(c: KernelEventCategoryView) -> Seq<char> {
    digits(c.count) + " "@ + c.label
}

pub open spec fn event_line_label(c: KernelEventCategoryView) -> Seq<char> {
    c.label + ": "@ + c.last_line
}

#[verifier::opaque]
pub open spec fn kernel_events_reading(o: OutputsView) -> MetricView {
    let id = "health-kernel-events"@;
    let title = "Kernel log events"@;
    match collected(o, OOM_DMESG@) {
        None => unknown_metric(
            id,
            title,
            "kernel log unavailable (needs privileged sudo -n dmesg)"@,
        ),
        Some(text) => {
            let ev = kernel_events(text);
            let total = event_total(ev);
            if total == 0 {
                MetricView {
                    id,
                    title,
                    status: HealthStatus::Okay,
                    value: "no notable kernel events"@,
                    detail: "no matching failure signatures in the kernel log since boot"@,
                    numeric: Some(0),
                }
            } else {
                MetricView {
                    id,
                    title,
                    status: if event_critical(ev) {
                        HealthStatus::Crit
                    } else {
                        HealthStatus::Warn
                    },
                    value: digits(total) + " kernel event(s) since boot ("@ + joined(
                        ev.map_values(|c: KernelEventCategoryView| event_count_label(c)),
                        ", "@,
                    ) + ")"@,
                    detail: joined(
                        ev.map_values(|c: KernelEventCategoryView| event_line_label(c)),
                        " | "@,
                    ),
                    numeric: Some(count_micros(total)),
                }
            }
        },
    }
}

fn format_event_count(c: &KernelEventCategory) -> (r: String)
    ensures
        r@ == event_count_label(c@),
{
    let mut s = format_usize(c.count);
    s.append(" ");
    s.append(c.label);
    s
}

fn format_event_line(c: &KernelEventCategory) -> (r: String)
    ensures
        r@ == event_line_label(c@),
{
    let mut s = c.label.to_string();
    s.append(": ");
    s.append(c.last_line.as_str());
    s
}

/// Scans the kernel ring buffer (`sudo -n dmesg`, shared with `health-oom`) for a
/// curated set of failure signatures: filesystem/block-I/O errors, conntrack and
/// neighbour-table overflows, and hard faults (panic/BUG/oops/soft-lockup/hung-task/
/// MCE). A hard fault is `Crit`; softer events (FS/table pressure) are `Warn`; a
/// clean log is `Ok`. Privileged-only, like `health-oom`: absent kernel log (a
/// non-privileged target) reports `Unknown` and never gates.
pub fn kernel_events_metric(outputs: &Outputs) -> (r: Metric)
    ensures
        r@ == kernel_events_reading(outputs@),
{
    proof {
        reveal(kernel_events_reading);
    }
    let id: &'static str = "health-kernel-events";
    let title: &'static str = "Kernel log events";
    match outputs.stdout(OOM_DMESG) {
        None => unknown(
            id,
            title,
            "kernel log unavailable (needs privileged sudo -n dmesg)".to_string(),
        ),
        Some(text) => {
            let ev = parse_kernel_events(text);
            let total = ev.total();
            if total == 0 {
                return Metric {
                    id,
                    title,
                    status: HealthStatus::Okay,
                    value: "no notable kernel events".to_string(),
                    detail:
                        "no matching failure signatures in the kernel log since boot".to_string(),
                    numeric: Some(0),
                };
            }
            let status = if ev.any_critical() {
                HealthStatus::Crit
            } else {
                HealthStatus::Warn
            };
            let counts = map_texts(
                &ev.categories,
                format_event_count,
                Ghost(|c: KernelEventCategoryView| event_count_label(c)),
            );
            let last = map_texts(
                &ev.categories,
                format_event_line,
                Ghost(|c: KernelEventCategoryView| event_line_label(c)),
            );
            let mut value = format_usize(total);
            value.append(" kernel event(s) since boot (");
            value.append(join_texts(&counts, ", ").as_str());
            value.append(")");
            Metric {
                id,
                title,
                status,
                value,
                detail: join_texts(&last, " | "),
                numeric: Some(micros_of_count(total as u64)),
            }
        },
    }
}

#[verifier::opaque]
pub open spec fn clock_reading(o: OutputsView) -> MetricView {
    let id = "health-clock-sync"@;
    let title = "Clock synchronization"@;
    match collected(o, TIMEDATECTL@) {
        None => unknown_metric(id, title, "timedatectl unavailable"@),
        Some(text) => match clock_synced(text) {
            Some(true) => MetricView {
                id,
                title,
                status: HealthStatus::Okay,
                value: "clock synchronized"@,
                detail: "NTPSynchronized=yes"@,
                numeric: Some(1_000_000),
            },
            Some(false) => MetricView {
                id,
                title,
                status: HealthStatus::Warn,
                value: "clock NOT synchronized"@,
                detail: "NTPSynchronized=no (NTP disabled or time source unreachable)"@,
                numeric: Some(0),
            },
            None => unknown_metric(id, title, "NTPSynchronized not reported"@),
        },
    }
}

/// System clock NTP synchronization from `timedatectl show`. An unsynchronized
/// clock breaks TLS validity windows, log correlation and time-based auth, so
/// `NTPSynchronized=no` is a `Warn`. Absent field (no systemd time daemon / not
/// reported) gives `Unknown`.
pub fn clock_sync_metric(outputs: &Outputs) -> (r: Metric)
    ensures
        r@ == clock_reading(outputs@),
{
    proof {
        reveal(clock_reading);
    }
    let id: &'static str = "health-clock-sync";
    let title: &'static str = "Clock synchronization";
    let text = match outputs.stdout(TIMEDATECTL) {
        Some(t) => t,
        None => {
            return unknown(id, title, "timedatectl unavailable".to_string());
        },
    };
    match parse_timedatectl_synced(text) {
        Some(true) => Metric {
            id,
            title,
            status: HealthStatus::Okay,
            value: "clock synchronized".to_string(),
            detail: "NTPSynchronized=yes".to_string(),
            numeric: Some(1_000_000),
        },
        Some(false) => Metric {
            id,
            title,
            status: HealthStatus::Warn,
            value: "clock NOT synchronized".to_string(),
            detail: "NTPSynchronized=no (NTP disabled or time source unreachable)".to_string(),
            numeric: Some(0),
        },
        None => unknown(id, title, "NTPSynchronized not reported".to_string()),
    }
}

#[verifier::opaque]
pub open spec fn reboot_reading(o: OutputsView) -> MetricView {
    let id = "health-reboot-required"@;
    let title = "Pending reboot"@;
    match collected(o, LS_RUN@) {
        None => unknown_metric(id, title, "/run listing unavailable"@),
        Some(text) => if reboot_required(text) {
            MetricView {
                id,
                title,
                status: HealthStatus::Warn,
                value: "reboot required"@,
                detail:
                    "/run/reboot-required present (kernel/libraries updated, not yet rebooted)"@,
                numeric: Some(1_000_000),
            }
        } else {
            MetricView {
                id,
                title,
                status: HealthStatus::Okay,
                value: "no reboot required"@,
                detail: "no /run/reboot-required flag"@,
                numeric: Some(0),
            }
        },
    }
}

/// Pending reboot after a kernel/library update, from the Debian/Ubuntu
/// `/run/reboot-required` flag (seen via `ls /run`). Present gives `Warn` (the host is
/// running the old kernel/libraries). RHEL has no equivalent flag file, so this is
/// Debian-family only; a host without the flag simply reports `Ok`. Absent `/run`
/// listing gives `Unknown`.
pub fn reboot_required_metric(outputs: &Outputs) -> (r: Metric)
    ensures
        r@ == reboot_reading(outputs@),
{
    proof {
        reveal(reboot_reading);
    }
    let id: &'static str = "health-reboot-required";
    let title: &'static str = "Pending reboot";
    let text = match outputs.stdout(LS_RUN) {
        Some(t) => t,
        None => {
            return unknown(id, title, "/run listing unavailable".to_string());
        },
    };
    if parse_reboot_required(text) {
        Metric {
            id,
            title,
            status: HealthStatus::Warn,
            value: "reboot required".to_string(),
            detail:
                "/run/reboot-required present (kernel/libraries updated, not yet rebooted)".to_string(),
            numeric: Some(1_000_000),
        }
    } else {
        Metric {
            id,
            title,
            status: HealthStatus::Okay,
            value: "no reboot required".to_string(),
            detail: "no /run/reboot-required flag".to_string(),
            numeric: Some(0),
        }
    }
}

/// A name with its qualifier in brackets.
pub open spec fn qualified(p: (Seq<char>, Seq<char>)) -> Seq<char> {
    p.0 + " ("@ + p.1 + ")"@
}

#[verifier::opaque]
pub open spec fn readonly_reading(o: OutputsView) -> MetricView {
    let id = "health-fs-readonly"@;
    let title = "Read-only filesystems"@;
    match collected(o, PROC_MOUNTS@) {
        None => unknown_metric(id, title, "/proc/mounts unavailable"@),
        Some(text) => {
            let ro = readonly_mounts(text);
            if ro.len() == 0 {
                MetricView {
                    id,
                    title,
                    status: HealthStatus::Okay,
                    value: "all filesystems writable"@,
                    detail: "no block-device filesystem mounted read-only"@,
                    numeric: Some(0),
                }
            } else {
                MetricView {
                    id,
                    title,
                    status: HealthStatus::Crit,
                    value: "read-only: "@ + joined(
                        ro.map_values(|p: (Seq<char>, Seq<char>)| p.0),
                        ", "@,
                    ) + " (disk errors? kernel remounted ro)"@,
                    detail: joined(
                        ro.map_values(|p: (Seq<char>, Seq<char>)| qualified(p)),
                        ", "@,
                    ),
                    numeric: Some(count_micros(ro.len() as int)),
                }
            }
        },
    }
}

fn first_part(p: &(String, String)) -> (r: String)
    ensures
        r@ == p@.0,
{
    p.0.clone()
}

fn qualify(name: &str, qualifier: &str) -> (r: String)
    ensures
        r@ == qualified((name@, qualifier@)),
{
    let mut s = name.to_string();
    s.append(" (");
    s.append(qualifier);
    s.append(")");
    s
}

fn qualify_pair(p: &(String, String)) -> (r: String)
    ensures
        r@ == qualified(p@),
{
    qualify(p.0.as_str(), p.1.as_str())
}

/// Normally-writable disk filesystems remounted read-only, from `/proc/mounts`. The
/// kernel remounts a filesystem `ro` after I/O/metadata errors, so an ext*/xfs/btrfs
/// filesystem mounted `ro` is a strong sign of a failing disk / ongoing outage:
/// writes silently fail. Read-only-by-design filesystems (squashfs snaps, iso9660)
/// are excluded. Any gives `Crit` (naming the mounts); none gives `Ok`. Absent output
/// gives `Unknown`.
pub fn fs_readonly_metric(outputs: &Outputs) -> (r: Metric)
    ensures
        r@ == readonly_reading(outputs@),
{
    proof {
        reveal(readonly_reading);
    }
    let id: &'static str = "health-fs-readonly";
    let title: &'static str = "Read-only filesystems";
    let text = match outputs.stdout(PROC_MOUNTS) {
        Some(t) => t,
        None => {
            return unknown(id, title, "/proc/mounts unavailable".to_string());
        },
    };
    let ro = parse_readonly_mounts(text);
    if ro.len() == 0 {
        return Metric {
            id,
            title,
            status: HealthStatus::Okay,
            value: "all filesystems writable".to_string(),
            detail: "no block-device filesystem mounted read-only".to_string(),
            numeric: Some(0),
        };
    }
    let names = map_texts(&ro, first_part, Ghost(|p: (Seq<char>, Seq<char>)| p.0));
    let details = map_texts(&ro, qualify_pair, Ghost(|p: (Seq<char>, Seq<char>)| qualified(p)));
    let mut value = "read-only: ".to_string();
    value.append(join_texts(&names, ", ").as_str());
    value.append(" (disk errors? kernel remounted ro)");
    Metric {
        id,
        title,
        status: HealthStatus::Crit,
        value,
        detail: join_texts(&details, ", "),
        numeric: Some(micros_of_count(ro.len() as u64)),
    }
}

/// The broken containers of both runtimes, docker's first.
pub open spec fn all_problems(docker: Option<Seq<char>>, podman: Option<Seq<char>>) -> Seq<
    (Seq<char>, Seq<char>),
> {
    (match docker {
        Some(text) => container_problems(text),
        None => Seq::empty(),
    }) + (match podman {
        Some(text) => container_problems(text),
        None => Seq::empty(),
    })
}

/// How many of the problems are crash loops.
pub open spec fn restarting_count(problems: Seq<(Seq<char>, Seq<char>)>) -> int
    decreases problems.len(),
{
    if problems.len() == 0 {
        0
    } else {
        restarting_count(problems.drop_last()) + if problems.last().1 == "restarting"@ {
            1int
        } else {
            0
        }
    }
}

#[verifier::opaque]
pub open spec fn containers_reading(o: OutputsView) -> MetricView {
    let id = "health-containers"@;
    let title = "Container health"@;
    let docker = collected(o, DOCKER_PS@);
    let podman = collected(o, PODMAN_PS@);
    if docker.is_none() && podman.is_none() {
        unknown_metric(id, title, "no docker/podman available"@)
    } else {
        let problems = all_problems(docker, podman);
        let restarting = restarting_count(problems);
        let unhealthy = problems.len() - restarting;
        MetricView {
            id,
            title,
            status: if restarting > 0 {
                HealthStatus::Crit
            } else if unhealthy > 0 {
                HealthStatus::Warn
            } else {
                HealthStatus::Okay
            },
            value: if problems.len() == 0 {
                "all containers healthy"@
            } else {
                digits(restarting) + " restarting, "@ + digits(unhealthy) + " unhealthy"@
            },
            detail: if problems.len() == 0 {
                "no containers restarting or unhealthy"@
            } else {
                joined(
                    problems.map_values(|p: (Seq<char>, Seq<char>)| qualified(p)),
                    ", "@,
                )
            },
            numeric: Some(count_micros(problems.len() as int)),
        }
    }
}

fn count_restarting(problems: &Vec<(String, &'static str)>) -> (r: usize)
    ensures
        r == restarting_count(deep(problems@)),
        r <= problems@.len(),
{
    let mut n: usize = 0;
    let mut i: usize = 0;
    while i < problems.len()
        invariant
            n <= i <= problems@.len(),
            n == restarting_count(deep(problems@).take(i as int)),
        decreases problems@.len() - i,
    {
        proof {
            assert(deep(problems@).take(i + 1).drop_last() == deep(problems@).take(i as int));
        }
        if eq_text(problems[i].1, "restarting") {
            n = n + 1;
        }
        i = i + 1;
    }
    proof {
        lemma_take_all(deep(problems@));
    }
    n
}

fn qualify_problem(p: &(String, &'static str)) -> (r: String)
    ensures
        r@ == qualified(p@),
{
    qualify(p.0.as_str(), p.1)
}

/// Container liveness across docker and podman: a zero-config signal that a
/// containerised service is broken. A `Restarting` container (crash loop) is
/// `Crit`; an `unhealthy` one (failing healthcheck) is `Warn`. Neither runtime
/// present (or reachable) reports `Unknown`, so hosts without containers, or
/// where the audit user can't run the CLI, never gate. `numeric` is the count of
/// broken containers, for history/anomaly baselining.
pub fn containers_metric(outputs: &Outputs) -> (r: Metric)
    ensures
        r@ == containers_reading(outputs@),
{
    proof {
        reveal(containers_reading);
    }
    broadcast use lemma_deep_empty;

    let id: &'static str = "health-containers";
    let title: &'static str = "Container health";
    let docker = outputs.stdout(DOCKER_PS);
    let podman = outputs.stdout(PODMAN_PS);
    if docker.is_none() && podman.is_none() {
        return unknown(id, title, "no docker/podman available".to_string());
    }
    let mut problems: Vec<(String, &'static str)> = match docker {
        Some(text) => parse_container_problems(text),
        None => Vec::new(),
    };
    let mut more: Vec<(String, &'static str)> = match podman {
        Some(text) => parse_container_problems(text),
        None => Vec::new(),
    };
    let ghost a = problems@;
    let ghost b = more@;
    problems.append(&mut more);
    proof {
        assert(deep(a + b) =~= deep(a) + deep(b));
    }
    let total: usize = problems.len();
    let restarting = count_restarting(&problems);
    let unhealthy: usize = total - restarting;
    let status = if restarting > 0 {
        HealthStatus::Crit
    } else if unhealthy > 0 {
        HealthStatus::Warn
    } else {
        HealthStatus::Okay
    };
    let value = if total == 0 {
        "all containers healthy".to_string()
    } else {
        let mut s = format_usize(restarting);
        s.append(" restarting, ");
        s.append(format_usize(unhealthy).as_str());
        s.append(" unhealthy");
        s
    };
    let detail = if total == 0 {
        "no containers restarting or unhealthy".to_string()
    } else {
        let labels = map_texts(
            &problems,
            qualify_problem,
            Ghost(|p: (Seq<char>, Seq<char>)| qualified(p)),
        );
        join_texts(&labels, ", ")
    };
    Metric { id, title, status, value, detail, numeric: Some(micros_of_count(total as u64)) }
}

} // verus!
