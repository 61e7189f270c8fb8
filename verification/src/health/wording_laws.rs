//! How metrics and reports are worded.

use super::{AnomalyView, HealthReportView, HealthStatus, MetricView, Thresholds};
use super::metrics::{
    all_problems, clock_reading, conntrack_reading, containers_reading, disk_reading,
    failed_units_reading, fd_reading, inodes_reading, iowait_reading, kernel_events_reading,
    load_reading, memory_reading, oom_reading, pids_reading, readonly_reading, reboot_reading,
    swap_reading, tcp_mem_reading,
};
use super::network::{
    busiest, cert_days, cert_reading, conntrack_drops_reading, deltas, errors_reading, faultiest,
    faults_of, listen_reading, tcp_errors_reading, throughput_reading, FaultsView, TrafficView,
};
use super::network_laws::{distance, held, new_errors};
use super::parse::{
    conntrack_drops, conntrack_fill, container_problems, cpu_count, event_total, failed_units,
    file_nr, kernel_events, listen_counters, load_average, pid_usage, readonly_mounts, real_mounts,
    retransmits, sock_stat, tcp_error_counters, vm_stat, KernelEventCategoryView, MemInfo,
    MountView, NetCounters, ProcInfoView, SockStat, VmStat,
};
use super::report::{anomaly_line, anomaly_section, health_text, metric_line};
use crate::audit::{collected, OutputsView};
use crate::double::share_text;
use crate::health::metrics::human_size;
use crate::quantity::{mib_rate, percentage, rate};
use crate::text::compose::{joined, left_aligned, right_aligned, written};
use crate::text::number::{digits, fixed, micros_text};
use crate::text::order::{lemma_sorted, sorted};
use crate::text::search::{mentions, occurs_at, starts_with};
use vstd::prelude::*;

verus! {

/// A text that is joined with others is mentioned in the whole.
pub proof fn lemma_joined_mentions(parts: Seq<Seq<char>>, sep: Seq<char>, i: int)
    requires
        0 <= i < parts.len(),
    ensures
        mentions(joined(parts, sep), parts[i]),
    decreases parts.len(),
{
    let all = joined(parts, sep);
    let n = parts.len() - 1;
    if parts.len() == 1 {
        assert(all.subrange(0, all.len() as int) =~= all);
        assert(occurs_at(all, parts[0], 0));
    } else {
        let front = parts.drop_last();
        let head = joined(front, sep);
        if i == n {
            let k = (head + sep).len() as int;
            assert(all.subrange(k, k + parts[n].len()) =~= parts[n]);
            assert(occurs_at(all, parts[n], k));
        } else {
            lemma_joined_mentions(front, sep, i);
            assert(front[i] == parts[i]);
            let k = choose|k: int| occurs_at(head, parts[i], k);
            assert(all.subrange(k, k + parts[i].len()) =~= head.subrange(k, k + parts[i].len()));
            assert(occurs_at(all, parts[i], k));
        }
    }
}

/// What is mentioned in a part is mentioned in the whole.
pub proof fn lemma_mentions_within(a: Seq<char>, s: Seq<char>, b: Seq<char>, x: Seq<char>)
    requires
        mentions(s, x),
    ensures
        mentions(a + s + b, x),
{
    let k = choose|k: int| occurs_at(s, x, k);
    let all = a + s + b;
    let j = a.len() + k;
    assert(all.subrange(j, j + x.len()) =~= s.subrange(k, k + x.len()));
    assert(occurs_at(all, x, j));
}

/// The load is told per core, and the three averages and the cores beside it.
pub proof fn law_load_wording(
    o: OutputsView,
    thr: Thresholds,
    up: Seq<char>,
    np: Seq<char>,
    a: (i64, i64, i64),
    cores: u32,
)
    requires
        collected(o, "uptime"@) == Some(up),
        collected(o, "nproc"@) == Some(np),
        load_average(up) == Some(a),
        cpu_count(np) == Some(cores),
        cores > 0,
    ensures
        load_reading(o, thr).value == share_text(a.0 as int, cores as int, 2) + " per core"@,
        load_reading(o, thr).detail == "1m "@ + micros_text(a.0 as int, 2) + ", 5m "@ + micros_text(
            a.1 as int,
            2,
        ) + ", 15m "@ + micros_text(a.2 as int, 2) + " over "@ + digits(cores as int)
            + " core(s)"@,
{
    reveal(load_reading);
}

/// Memory and swap tell the bytes in use and the total, memory also those available.
pub proof fn law_memory_wording(free: MemInfo, thr: Thresholds, in_use: u64)
    requires
        0 < free.mem_available <= free.mem_total ==> in_use + free.mem_available == free.mem_total,
        free.mem_available > free.mem_total ==> in_use == 0,
        free.mem_available == 0 ==> in_use == free.mem_used,
    ensures
        memory_reading(free, thr).detail == human_size(in_use as int) + " of "@ + human_size(
            free.mem_total as int,
        ) + " in use (available "@ + human_size(free.mem_available as int) + ")"@,
        free.swap_total > 0 ==> swap_reading(free, thr).detail == human_size(free.swap_used as int)
            + " of "@ + human_size(free.swap_total as int) + " in use"@,
        free.swap_total == 0 ==> swap_reading(free, thr).value == "no swap"@,
{
}

/// What is filled up tells how much of it is, and the most that may be.
pub proof fn law_fill_wording(o: OutputsView, thr: Thresholds, text: Seq<char>, used: u64, max: u64)
    requires
        max > 0,
    ensures
        collected(o, "cat /proc/sys/fs/file-nr"@) == Some(text) && file_nr(text) == Some(
            (used, max),
        ) ==> fd_reading(o, thr).detail == digits(used as int) + " of "@ + digits(max as int)
            + " file descriptors allocated"@,
        collected(
            o,
            "cat /proc/sys/net/netfilter/nf_conntrack_count /proc/sys/net/netfilter/nf_conntrack_max"@,
        ) == Some(text) && conntrack_fill(text) == Some((used, max)) ==> conntrack_reading(
            o,
            thr,
        ).detail == digits(used as int) + " of "@ + digits(max as int) + " tracked connections"@,
        collected(o, "cat /proc/loadavg /proc/sys/kernel/pid_max"@) == Some(text) && pid_usage(text)
            == Some((used, max)) ==> pids_reading(o, thr).detail == digits(used as int) + " of "@
            + digits(max as int) + " max PIDs (tasks/threads)"@,
{
    reveal(fd_reading);
    reveal(conntrack_reading);
    reveal(pids_reading);
}

/// One of the TCP limits in words.
pub open spec fn limit_words(name: Seq<char>, used: u64, max: u64) -> Seq<char> {
    name + " "@ + digits(used as int) + "/"@ + digits(max as int) + " ("@ + percentage(
        used,
        max,
    ).text(0) + "%)"@
}

/// The TCP limits tell all three, and the worst first.
pub proof fn law_tcp_wording(o: OutputsView, thr: Thresholds, text: Seq<char>, s: SockStat)
    requires
        collected(
            o,
            "cat /proc/net/sockstat /proc/sys/net/ipv4/tcp_mem /proc/sys/net/ipv4/tcp_max_orphans /proc/sys/net/ipv4/tcp_max_tw_buckets"@,
        ) == Some(text),
        sock_stat(text) == Some(s),
        s.tcp_mem_max > 0,
        s.max_orphans > 0,
        s.max_tw > 0,
    ensures
        tcp_mem_reading(o, thr).detail == limit_words("mem"@, s.tcp_mem, s.tcp_mem_max) + ", "@
            + limit_words("orphan"@, s.orphan, s.max_orphans) + ", "@ + limit_words(
            "tw"@,
            s.tw,
            s.max_tw,
        ),
        ({
            let mem = percentage(s.tcp_mem, s.tcp_mem_max);
            let orphan = percentage(s.orphan, s.max_orphans);
            let tw = percentage(s.tw, s.max_tw);
            &&& !orphan.exceeds(mem) && !tw.exceeds(mem) ==> tcp_mem_reading(o, thr).value
                == "mem "@ + mem.text(0) + "% of limit"@
            &&& orphan.exceeds(mem) && !tw.exceeds(orphan) ==> tcp_mem_reading(o, thr).value
                == "orphan "@ + orphan.text(0) + "% of limit"@
            &&& orphan.exceeds(mem) && tw.exceeds(orphan) ==> tcp_mem_reading(o, thr).value
                == "tw "@ + tw.text(0) + "% of limit"@
            &&& !orphan.exceeds(mem) && tw.exceeds(mem) ==> tcp_mem_reading(o, thr).value == "tw "@
                + tw.text(0) + "% of limit"@
        }),
{
    reveal(tcp_mem_reading);
    reveal_strlit("mem");
    reveal_strlit("mem ");
    reveal_strlit("orphan");
    reveal_strlit("orphan ");
    reveal_strlit("tw");
    reveal_strlit("tw ");
    reveal_strlit(" ");
    assert("mem"@ + " "@ =~= "mem "@);
    assert("orphan"@ + " "@ =~= "orphan "@);
    assert("tw"@ + " "@ =~= "tw "@);
}

/// IO wait is told in whole percent, with the blocked processes and the stolen time beside it.
pub proof fn law_iowait_wording(o: OutputsView, thr: Thresholds, text: Seq<char>, v: VmStat)
    requires
        collected(o, "vmstat 1 2"@) == Some(text),
        vm_stat(text) == Some(v),
    ensures
        iowait_reading(o, thr).value == micros_text(v.iowait as int, 0) + "% iowait"@,
        iowait_reading(o, thr).detail == digits(v.blocked as int) + " proc(s) blocked, "@
            + micros_text(v.steal as int, 0) + "% steal"@,
{
    reveal(iowait_reading);
}

/// The detail of failed services names every one.
pub proof fn law_failed_units_are_named(o: OutputsView, thr: Thresholds, text: Seq<char>, i: int)
    requires
        collected(
            o,
            "systemctl list-units --type=service --state=failed --no-legend --no-pager"@,
        ) == Some(text),
        0 <= i < failed_units(text).len(),
    ensures
        mentions(failed_units_reading(o, thr).detail, failed_units(text)[i]),
        failed_units_reading(o, thr).value == digits(failed_units(text).len() as int)
            + " failed unit(s)"@,
{
    reveal(failed_units_reading);
    lemma_joined_mentions(failed_units(text), ", "@, i);
}

/// The read-only mounts are named by where they are, and in detail with their device.
pub proof fn law_readonly_mounts_are_named(o: OutputsView, text: Seq<char>, i: int)
    requires
        collected(o, "cat /proc/mounts"@) == Some(text),
        0 <= i < readonly_mounts(text).len(),
    ensures
        mentions(readonly_reading(o).value, readonly_mounts(text)[i].0),
        mentions(
            readonly_reading(o).detail,
            readonly_mounts(text)[i].0 + " ("@ + readonly_mounts(text)[i].1 + ")"@,
        ),
{
    reveal(readonly_reading);
    let ro = readonly_mounts(text);
    let at = ro.map_values(|p: (Seq<char>, Seq<char>)| p.0);
    let with = ro.map_values(|p: (Seq<char>, Seq<char>)| super::metrics::qualified(p));
    lemma_joined_mentions(at, ", "@, i);
    lemma_joined_mentions(with, ", "@, i);
    lemma_mentions_within(
        "read-only: "@,
        joined(at, ", "@),
        " (disk errors? kernel remounted ro)"@,
        at[i],
    );
}

/// The containers that are restarting or unhealthy are named with what ails them.
pub proof fn law_ailing_containers_are_named(o: OutputsView, text: Seq<char>, i: int)
    requires
        collected(o, "docker ps -a"@) == Some(text) || (collected(o, "docker ps -a"@) is None
            && collected(o, "podman ps -a"@) == Some(text)),
        0 <= i < container_problems(text).len(),
    ensures
        mentions(
            containers_reading(o).detail,
            container_problems(text)[i].0 + " ("@ + container_problems(text)[i].1 + ")"@,
        ),
{
    reveal(containers_reading);
    let ps = super::metrics::all_problems(
        collected(o, "docker ps -a"@),
        collected(o, "podman ps -a"@),
    );
    assert(ps[i] == container_problems(text)[i]);
    let with = ps.map_values(|p: (Seq<char>, Seq<char>)| super::metrics::qualified(p));
    lemma_joined_mentions(with, ", "@, i);
}

/// A clock, and a host that waits for a reboot, are told by a number too: 1 for a clock that is
/// in step, and for a reboot that is due, else 0.
pub proof fn law_flags_have_numbers(o: OutputsView)
    ensures
        clock_reading(o).status == HealthStatus::Okay ==> clock_reading(o).numeric == Some(
            1_000_000i64,
        ) && clock_reading(o).value == "clock synchronized"@,
        clock_reading(o).status == HealthStatus::Warn ==> clock_reading(o).numeric == Some(0i64)
            && clock_reading(o).value == "clock NOT synchronized"@,
        reboot_reading(o).status == HealthStatus::Warn ==> reboot_reading(o).numeric == Some(
            1_000_000i64,
        ) && reboot_reading(o).value == "reboot required"@,
        reboot_reading(o).status == HealthStatus::Okay ==> reboot_reading(o).numeric == Some(0i64)
            && reboot_reading(o).value == "no reboot required"@,
        oom_reading(o).status == HealthStatus::Okay ==> oom_reading(o).value == "no OOM kills"@,
        readonly_reading(o).status == HealthStatus::Okay ==> readonly_reading(o).value
            == "all filesystems writable"@ && readonly_reading(o).numeric == Some(0i64),
{
    reveal(clock_reading);
    reveal(reboot_reading);
    reveal(oom_reading);
    reveal(readonly_reading);
}

/// Overflows of the accept queue are told by the rate, if there are any, with that of the drops
/// beside it, and by the counters since boot.
pub proof fn law_listen_wording(
    s1: Seq<char>,
    s2: Seq<char>,
    nanos: u64,
    thr: Thresholds,
    a: (u64, u64),
    b: (u64, u64),
)
    requires
        nanos > 0,
        listen_counters(s1) == Some(a),
        listen_counters(s2) == Some(b),
    ensures
        b.0 > a.0 && b.1 >= a.1 ==> listen_reading(s1, s2, nanos, thr).value == rate(
            (b.0 - a.0) as u64,
            nanos,
        ).text(1) + " overflow/s (drop "@ + rate((b.1 - a.1) as u64, nanos).text(1) + "/s)"@,
        b.0 <= a.0 ==> listen_reading(s1, s2, nanos, thr).value
            == "no accept-queue overflows (since boot: "@ + digits(b.0 as int) + ")"@,
        listen_reading(s1, s2, nanos, thr).detail == "over "@ + fixed(
            nanos as int,
            1_000_000_000,
            1,
        ) + "s"@ + "; since boot: overflows "@ + digits(b.0 as int) + ", drops "@ + digits(
            b.1 as int,
        ),
{
    reveal(listen_reading);
    let t = fixed(nanos as int, 1_000_000_000, 1);
    assert("over "@ + (t + "s"@) =~= "over "@ + t + "s"@);
}

/// The counters of the connection table since boot, each under its own name.
pub open spec fn table_words(c: (u64, u64, u64)) -> Seq<char> {
    "since boot: early_drop "@ + digits(c.1 as int) + ", insert_failed "@ + digits(c.2 as int)
        + ", drop "@ + digits(c.0 as int)
}

/// The counters of the TCP stack since boot, each under its own name.
pub open spec fn stack_words(c: (u64, u64, u64)) -> Seq<char> {
    "since boot: abort-on-mem "@ + digits(c.0 as int) + ", prune "@ + digits(c.1 as int)
        + ", rcvq-drop "@ + digits(c.2 as int)
}

/// What the connection table and the TCP stack lost is told with the counters since boot, and the
/// stack with the rate of retransmissions where that is known.
pub proof fn law_loss_wording(
    s1: Seq<char>,
    s2: Seq<char>,
    m1: Seq<char>,
    m2: Seq<char>,
    nanos: u64,
    thr: Thresholds,
    a: (u64, u64, u64),
    b: (u64, u64, u64),
    r: (u64, u64),
)
    requires
        nanos > 0,
    ensures
        conntrack_drops(s1) == Some(a) && conntrack_drops(s2) == Some(b)
            ==> conntrack_drops_reading(s1, s2, nanos, thr).detail == "over "@ + (fixed(
            nanos as int,
            1_000_000_000,
            1,
        ) + "s"@) + "; "@ + table_words(b),
        tcp_error_counters(s1) == Some(a) && tcp_error_counters(s2) == Some(b) && retransmits(m1)
            == Some(r.0) && retransmits(m2) == Some(r.1) && r.1 >= r.0 ==> tcp_errors_reading(
            m1,
            m2,
            s1,
            s2,
            nanos,
            thr,
        ).detail == "over "@ + (fixed(nanos as int, 1_000_000_000, 1) + "s"@) + "; "@ + stack_words(b)
            + (", retrans "@ + rate((r.1 - r.0) as u64, nanos).text(1) + "/s"@),
{
    reveal(conntrack_drops_reading);
    reveal(tcp_errors_reading);
}

/// A metric takes a line: its status in brackets, its name, its value, and the detail after it.
pub proof fn law_metric_line(m: MetricView)
    ensures
        metric_line(m) == "  ["@ + left_aligned(
            match m.status {
                HealthStatus::Okay => "OK"@,
                HealthStatus::Warn => "WARN"@,
                HealthStatus::Crit => "CRIT"@,
                HealthStatus::Unknown => "UNKN"@,
            },
            4,
        ) + "] "@ + left_aligned(m.id, 20) + " "@ + m.value + " ("@ + m.detail + ")\n"@,
{
}

/// One process, by the share that it is listed for.
pub open spec fn process_words(share: i64, p: ProcInfoView) -> Seq<char> {
    "    "@ + right_aligned(micros_text(share as int, 1), 7) + "%  "@ + p.comm + " (pid "@ + digits(
        p.pid as int,
    ) + ")\n"@
}

/// A report in words: the host and its status, a line for each metric, the anomalies, and the
/// processes by processor time and by memory, each with that share.
pub proof fn law_report_wording(target: Seq<char>, r: HealthReportView)
    ensures
        health_text(target, r) == "Health of '"@ + target + "': "@ + (match r.overall {
            HealthStatus::Okay => "OK"@,
            HealthStatus::Warn => "WARN"@,
            HealthStatus::Crit => "CRIT"@,
            HealthStatus::Unknown => "UNKN"@,
        }) + " (operational, not a security score)\n"@ + written(
            r.metrics,
            |m: MetricView| metric_line(m),
        ) + anomaly_section(r) + "  top CPU:\n"@ + written(
            r.top_cpu,
            |p: ProcInfoView| process_words(p.cpu, p),
        ) + "  top MEM:\n"@ + written(r.top_mem, |p: ProcInfoView| process_words(p.mem, p)),
{
    lemma_written_alike(
        r.top_cpu,
        |p: ProcInfoView| super::report::process_line(p.cpu, p),
        |p: ProcInfoView| process_words(p.cpu, p),
    );
    lemma_written_alike(
        r.top_mem,
        |p: ProcInfoView| super::report::process_line(p.mem, p),
        |p: ProcInfoView| process_words(p.mem, p),
    );
}

pub proof fn lemma_written_alike<A>(
    items: Seq<A>,
    f: spec_fn(A) -> Seq<char>,
    g: spec_fn(A) -> Seq<char>,
)
    requires
        forall|x: A| #[trigger] f(x) == g(x),
    ensures
        written(items, f) == written(items, g),
    decreases items.len(),
{
    if items.len() > 0 {
        lemma_written_alike(items.drop_last(), f, g);
    }
}

/// Anomalies are told one by one, with what was read, the median, the change and the score, which
/// has no end where the readings never differed; without any, the note is told, if there is one.
pub proof fn law_anomaly_wording(r: HealthReportView, a: AnomalyView)
    ensures
        r.anomalies.len() > 0 ==> anomaly_section(r) == "  ANOMALY vs baseline ("@ + digits(
            r.anomalies.len() as int,
        ) + "), informational:\n"@ + written(r.anomalies, |x: AnomalyView| anomaly_line(x)),
        r.anomalies.len() == 0 ==> (r.anomaly_note matches Some(note) ==> anomaly_section(r)
            == "  (anomaly: "@ + note + ")\n"@),
        r.anomalies.len() == 0 && r.anomaly_note is None ==> anomaly_section(r).len() == 0,
        anomaly_line(a) == "    "@ + left_aligned(a.metric_id, 20) + " "@ + micros_text(
            a.current as int,
            2,
        ) + " vs median "@ + micros_text(a.median as int, 2) + " ("@ + (if a.pct_change < 0 {
            micros_text(a.pct_change as int, 0)
        } else {
            "+"@ + micros_text(a.pct_change as int, 0)
        }) + "%, z="@ + (match a.z {
            Some(z) => micros_text(z as int, 1),
            None => "inf"@,
        }) + ")\n"@,
{
    reveal_strlit("");
}

/// The detail of disks and of inodes names every real mount with how full it is.
pub proof fn law_mounts_are_named(o: OutputsView, thr: Thresholds, text: Seq<char>, i: int)
    requires
        0 <= i < real_mounts(text).len(),
    ensures
        ({
            let m = real_mounts(text)[i];
            let words = m.mount + " "@ + digits(m.use_pct as int) + "%"@;
            &&& collected(o, "df -P"@) == Some(text) ==> mentions(disk_reading(o, thr).detail, words)
            &&& collected(o, "df -Pi"@) == Some(text) ==> mentions(
                inodes_reading(o, thr).detail,
                words,
            )
        }),
{
    broadcast use vstd::seq_lib::group_to_multiset_ensures;

    reveal(disk_reading);
    reveal(inodes_reading);
    let mounts = real_mounts(text);
    let labels = mounts.map_values(|m: MountView| super::metrics::mount_label(m));
    lemma_sorted(labels);
    assert(labels.contains(labels[i]));
    assert(labels.to_multiset().count(labels[i]) > 0);
    assert(sorted(labels).contains(labels[i]));
    let k = sorted(labels).index_of(labels[i]);
    lemma_joined_mentions(sorted(labels), ", "@, k);
    lemma_some_fullest(mounts);
}

proof fn lemma_some_fullest(mounts: Seq<MountView>)
    requires
        mounts.len() > 0,
    ensures
        super::metrics::fullest(mounts) is Some,
{
}

/// The certificates are told by the least number of whole days that one has left, its path, and
/// how many there are and cannot be read; one that has expired is told by the days since.
pub proof fn law_certificate_wording(
    certs: Seq<(Seq<char>, Option<Seq<char>>)>,
    thr: Thresholds,
    now: int,
    k: int,
    days: int,
)
    requires
        0 <= k < certs.len(),
        cert_days(certs[k], now) == Some(days),
        forall|i: int|
            0 <= i < certs.len() && i != k ==> (cert_days(#[trigger] certs[i], now) matches Some(d)
                ==> d > days),
    ensures
        days >= 0 ==> cert_reading(certs, thr, now).value == digits(days)
            + " day(s) until expiry ("@ + certs[k].0 + ")"@,
        days < 0 ==> cert_reading(certs, thr, now).value == "EXPIRED "@ + digits(-days)
            + " day(s) ago ("@ + certs[k].0 + ")"@,
        ({
            let bad = certs.filter(
                |c: (Seq<char>, Option<Seq<char>>)| cert_days(c, now) is None,
            ).len();
            cert_reading(certs, thr, now).detail == "nearest of "@ + digits(certs.len() as int)
                + " configured cert(s)"@ + (if bad > 0 {
                ", "@ + digits(bad as int) + " unreadable"@
            } else {
                ""@
            })
        }),
        i64::MIN <= days * 1_000_000 <= i64::MAX ==> cert_reading(certs, thr, now).numeric == Some(
            (days * 1_000_000) as i64,
        ),
{
    reveal(cert_reading);
    super::network_laws::lemma_nearest(certs, now);
    let near = super::network::nearest_cert(certs, now);
    assert(near is Some);
    let (d, path) = near->0;
    let i = choose|i: int|
        0 <= i < certs.len() && cert_days(#[trigger] certs[i], now) == Some(d) && certs[i].0 == path;
    assert(i == k) by {
        if i != k {
            assert(d > days);
            assert(cert_days(certs[k], now) matches Some(x) ==> d <= x);
        }
    }
    lemma_unreadable(certs, now);
}

proof fn lemma_unreadable(certs: Seq<(Seq<char>, Option<Seq<char>>)>, now: int)
    ensures
        super::network::unreadable_certs(certs, now) == certs.filter(
            |c: (Seq<char>, Option<Seq<char>>)| cert_days(c, now) is None,
        ).len(),
    decreases certs.len(),
{
    reveal(Seq::filter);
    if certs.len() > 0 {
        lemma_unreadable(certs.drop_last(), now);
    }
}

/// Traffic is told by the busiest interface: what it received, what it sent, and both together as
/// the number; the detail names every interface.
pub proof fn law_traffic_wording(s1: Seq<char>, s2: Seq<char>, nanos: u64, thr: Thresholds, i: int)
    requires
        nanos > 0,
        deltas(s1, s2).len() > 0,
        0 <= i < busiest(s1, s2).len(),
    ensures
        ({
            let top = busiest(s1, s2)[0];
            let t = busiest(s1, s2)[i];
            let m = throughput_reading(s1, s2, nanos, thr);
            &&& m.value == top.name + " rx "@ + mib_rate(top.rx as int, nanos).text(2) + " / tx "@
                + mib_rate(top.tx as int, nanos).text(2) + " MiB/s"@
            &&& m.numeric == Some(mib_rate(top.rx + top.tx, nanos).micros())
            &&& mentions(
                m.detail,
                t.name + " rx "@ + mib_rate(t.rx as int, nanos).text(2) + " tx "@ + mib_rate(
                    t.tx as int,
                    nanos,
                ).text(2),
            )
        }),
{
    reveal(throughput_reading);
    let rows = busiest(s1, s2);
    let labels = rows.map_values(|t: TrafficView| super::network::traffic_label(t, nanos));
    lemma_joined_mentions(labels, ", "@, i);
    let head = "MiB/s over "@ + super::network::span_text(nanos) + ": "@;
    lemma_mentions_within(head, joined(labels, ", "@), Seq::empty(), labels[i]);
    assert(head + joined(labels, ", "@) + Seq::<char>::empty() =~= head + joined(labels, ", "@));
}

/// Errors are told by the interface that comes first, all interfaces by name in the detail, and
/// the rate of all errors together as the number.
pub proof fn law_errors_wording(s1: Seq<char>, s2: Seq<char>, nanos: u64, thr: Thresholds, i: int)
    requires
        nanos > 0,
        deltas(s1, s2).len() > 0,
        0 <= i < faultiest(s1, s2).len(),
    ensures
        ({
            let top = faultiest(s1, s2)[0];
            let f = faultiest(s1, s2)[i];
            let m = errors_reading(s1, s2, nanos, thr);
            &&& top.errs > 0 ==> m.value == top.name + " err "@ + rate(top.errs, nanos).text(1)
                + "/s (drop "@ + rate(top.drops, nanos).text(1) + "/s)"@
            &&& top.errs == 0 ==> m.value == "no interface errors (since boot: err "@ + digits(
                held(total_of(faultiest(s1, s2), |x: FaultsView| x.total_errs as int)),
            ) + ", drop "@ + digits(
                held(total_of(faultiest(s1, s2), |x: FaultsView| x.total_drops as int)),
            ) + ")"@
            &&& m.numeric == Some(
                rate(
                    held(total_of(faultiest(s1, s2), |x: FaultsView| x.errs as int)) as u64,
                    nanos,
                ).micros(),
            )
            &&& mentions(
                m.detail,
                f.name + " err "@ + rate(f.errs, nanos).text(1) + "/s drop "@ + rate(
                    f.drops,
                    nanos,
                ).text(1) + "/s (since boot: err "@ + digits(f.total_errs as int) + ", drop "@
                    + digits(f.total_drops as int) + ")"@,
            )
        }),
{
    reveal(errors_reading);
    let rows = faultiest(s1, s2);
    lemma_total_of(rows, |x: FaultsView| x.total_errs, |x: FaultsView| x.total_errs as int);
    lemma_total_of(rows, |x: FaultsView| x.total_drops, |x: FaultsView| x.total_drops as int);
    lemma_total_of(rows, |x: FaultsView| x.errs, |x: FaultsView| x.errs as int);
    let labels = rows.map_values(|f: FaultsView| super::network::fault_label(f, nanos));
    lemma_joined_mentions(labels, ", "@, i);
    let head = "per-interface over "@ + super::network::span_text(nanos) + ": "@;
    lemma_mentions_within(head, joined(labels, ", "@), Seq::empty(), labels[i]);
    assert(head + joined(labels, ", "@) + Seq::<char>::empty() =~= head + joined(labels, ", "@));
}

/// The sum over all rows.
pub open spec fn total_of(rows: Seq<FaultsView>, count: spec_fn(FaultsView) -> int) -> int
    decreases rows.len(),
{
    if rows.len() == 0 {
        0
    } else {
        total_of(rows.drop_last(), count) + count(rows.last())
    }
}

proof fn lemma_total_of(
    rows: Seq<FaultsView>,
    count: spec_fn(FaultsView) -> u64,
    wide: spec_fn(FaultsView) -> int,
)
    requires
        forall|x: FaultsView| #[trigger] wide(x) == count(x),
    ensures
        super::network::fault_sum(rows, count) == held(total_of(rows, wide)),
        total_of(rows, wide) >= 0,
    decreases rows.len(),
{
    if rows.len() > 0 {
        lemma_total_of(rows.drop_last(), count, wide);
        assert(wide(rows.last()) == count(rows.last()));
    }
}

/// What an interface counted between the samples, and since boot, comes from its own counters.
pub proof fn law_faults_are_counted(name: Seq<char>, before: NetCounters, now: NetCounters)
    ensures
        ({
            let f = faults_of((name, before, now));
            &&& f.name == name
            &&& f.errs == new_errors(before, now)
            &&& f.drops == held(
                distance(before.rx_drop, now.rx_drop) + distance(before.tx_drop, now.tx_drop),
            )
            &&& f.total_errs == held(now.rx_errs + now.tx_errs)
            &&& f.total_drops == held(now.rx_drop + now.tx_drop)
        }),
{
}

/// Kernel events are told by how many lines there are, kind by kind, and the last line of each.
pub proof fn law_kernel_wording(o: OutputsView, text: Seq<char>, i: int)
    requires
        collected(o, "sudo -n dmesg"@) == Some(text),
        0 <= i < kernel_events(text).len(),
        event_total(kernel_events(text)) > 0,
    ensures
        ({
            let c = kernel_events(text)[i];
            let m = kernel_events_reading(o);
            &&& mentions(m.value, digits(c.count) + " "@ + c.label)
            &&& mentions(m.detail, c.label + ": "@ + c.last_line)
            &&& starts_with(
                m.value,
                digits(event_total(kernel_events(text))) + " kernel event(s) since boot ("@,
            )
        }),
{
    reveal(kernel_events_reading);
    let ev = kernel_events(text);
    let counts = ev.map_values(
        |c: KernelEventCategoryView| super::metrics::event_count_label(c),
    );
    let ls = ev.map_values(|c: KernelEventCategoryView| super::metrics::event_line_label(c));
    lemma_joined_mentions(counts, ", "@, i);
    lemma_joined_mentions(ls, " | "@, i);
    let head = digits(event_total(ev)) + " kernel event(s) since boot ("@;
    lemma_mentions_within(head, joined(counts, ", "@), ")"@, counts[i]);
    let v = head + joined(counts, ", "@) + ")"@;
    assert(v.take(head.len() as int) =~= head);
    assert(kernel_events_reading(o).value == v);
}

/// Ailing containers are counted by what ails them.
pub proof fn law_containers_wording(o: OutputsView)
    requires
        collected(o, "docker ps -a"@) is Some || collected(o, "podman ps -a"@) is Some,
    ensures
        ({
            let ps = all_problems(collected(o, "docker ps -a"@), collected(o, "podman ps -a"@));
            let again = ps.filter(|p: (Seq<char>, Seq<char>)| p.1 == "restarting"@).len();
            &&& ps.len() > 0 ==> containers_reading(o).value == digits(again as int)
                + " restarting, "@ + digits(ps.len() - again) + " unhealthy"@
            &&& ps.len() == 0 ==> containers_reading(o).value == "all containers healthy"@
        }),
{
    reveal(containers_reading);
    let ps = all_problems(collected(o, "docker ps -a"@), collected(o, "podman ps -a"@));
    lemma_restarting_filter(ps);
}

proof fn lemma_restarting_filter(ps: Seq<(Seq<char>, Seq<char>)>)
    ensures
        super::metrics::restarting_count(ps) == ps.filter(
            |p: (Seq<char>, Seq<char>)| p.1 == "restarting"@,
        ).len(),
    decreases ps.len(),
{
    reveal(Seq::filter);
    if ps.len() > 0 {
        lemma_restarting_filter(ps.drop_last());
    }
}

} // verus!
