//! When a metric is unknown.

use super::{HealthStatus, Thresholds};
use super::metric_laws::led_by;
use super::metrics::{
    clock_reading, connections_reading, conntrack_reading, containers_reading, disk_reading,
    failed_units_reading, fd_reading, inodes_reading, iowait_reading, kernel_events_reading,
    load_reading, memory_readings, oom_reading, pids_reading, readonly_reading, reboot_reading,
    tcp_mem_reading, zombie_reading,
};
use super::network::{
    busiest, cert_reading, conntrack_drops_reading, deltas, errors_reading, listen_reading,
    tcp_errors_reading, throughput_reading,
};
use super::parse::{
    clock_synced, conntrack_drops, conntrack_fill, cpu_count, file_nr, free_info, free_step,
    listen_counters, load_average, pid_usage, sock_stat, socket_summary, tcp_error_counters,
    vm_stat, FreeScan, MemInfo,
};
use crate::audit::{collected, OutputsView};
use crate::text::search::starts_with;
use crate::text::split::{lemma_fold_step, lemma_take_all, lines, trim};
use vstd::prelude::*;

verus! {

/// What a command printed could be had, and was understood.
pub open spec fn understood<A>(
    o: OutputsView,
    cmd: Seq<char>,
    parse: spec_fn(Seq<char>) -> Option<A>,
) -> bool {
    collected(o, cmd) matches Some(text) && parse(text) is Some
}

/// A metric whose command failed, or printed what cannot be understood, is unknown and has no
/// number; nothing else makes these unknown.
pub proof fn law_unread_is_unknown(o: OutputsView, thr: Thresholds)
    ensures
        load_reading(o, thr).status == HealthStatus::Unknown <==> !(understood(
            o,
            "uptime"@,
            |t: Seq<char>| load_average(t),
        ) && understood(o, "nproc"@, |t: Seq<char>| cpu_count(t)) && cpu_count(
            collected(o, "nproc"@)->0,
        ) != Some(0u32)),
        memory_readings(o, thr)[0].status == HealthStatus::Unknown <==> !understood(
            o,
            "free -b"@,
            |t: Seq<char>| free_info(t),
        ),
        memory_readings(o, thr)[1].status == HealthStatus::Unknown <==> !understood(
            o,
            "free -b"@,
            |t: Seq<char>| free_info(t),
        ),
        !understood(o, "cat /proc/sys/fs/file-nr"@, |t: Seq<char>| file_nr(t)) ==> fd_reading(
            o,
            thr,
        ).status == HealthStatus::Unknown,
        !understood(
            o,
            "cat /proc/sys/net/netfilter/nf_conntrack_count /proc/sys/net/netfilter/nf_conntrack_max"@,
            |t: Seq<char>| conntrack_fill(t),
        ) ==> conntrack_reading(o, thr).status == HealthStatus::Unknown,
        !understood(
            o,
            "cat /proc/loadavg /proc/sys/kernel/pid_max"@,
            |t: Seq<char>| pid_usage(t),
        ) ==> pids_reading(o, thr).status == HealthStatus::Unknown,
        !understood(
            o,
            "cat /proc/net/sockstat /proc/sys/net/ipv4/tcp_mem /proc/sys/net/ipv4/tcp_max_orphans /proc/sys/net/ipv4/tcp_max_tw_buckets"@,
            |t: Seq<char>| sock_stat(t),
        ) ==> tcp_mem_reading(o, thr).status == HealthStatus::Unknown,
        iowait_reading(o, thr).status == HealthStatus::Unknown <==> !understood(
            o,
            "vmstat 1 2"@,
            |t: Seq<char>| vm_stat(t),
        ),
        connections_reading(o).status == HealthStatus::Unknown <==> !understood(
            o,
            "ss -s"@,
            |t: Seq<char>| socket_summary(t),
        ),
        clock_reading(o).status == HealthStatus::Unknown <==> !understood(
            o,
            "timedatectl show"@,
            |t: Seq<char>| clock_synced(t),
        ),
        collected(o, "df -P"@) is None ==> disk_reading(o, thr).status == HealthStatus::Unknown,
        collected(o, "df -Pi"@) is None ==> inodes_reading(o, thr).status == HealthStatus::Unknown,
        failed_units_reading(o, thr).status == HealthStatus::Unknown <==> collected(
            o,
            "systemctl list-units --type=service --state=failed --no-legend --no-pager"@,
        ) is None,
        zombie_reading(o, thr).status == HealthStatus::Unknown <==> collected(
            o,
            "ps -eo stat --no-headers"@,
        ) is None,
        oom_reading(o).status == HealthStatus::Unknown <==> collected(o, "sudo -n dmesg"@) is None,
        kernel_events_reading(o).status == HealthStatus::Unknown <==> collected(
            o,
            "sudo -n dmesg"@,
        ) is None,
        reboot_reading(o).status == HealthStatus::Unknown <==> collected(o, "ls /run"@) is None,
        readonly_reading(o).status == HealthStatus::Unknown <==> collected(o, "cat /proc/mounts"@)
            is None,
{
    lemma_unread_loads(o, thr);
    lemma_unread_fills(o, thr);
    lemma_unread_counts(o, thr);
    lemma_unread_states(o, thr);
}

proof fn lemma_unread_loads(o: OutputsView, thr: Thresholds)
    ensures
        load_reading(o, thr).status == HealthStatus::Unknown <==> !(understood(
            o,
            "uptime"@,
            |t: Seq<char>| load_average(t),
        ) && understood(o, "nproc"@, |t: Seq<char>| cpu_count(t)) && cpu_count(
            collected(o, "nproc"@)->0,
        ) != Some(0u32)),
        memory_readings(o, thr)[0].status == HealthStatus::Unknown <==> !understood(
            o,
            "free -b"@,
            |t: Seq<char>| free_info(t),
        ),
        memory_readings(o, thr)[1].status == HealthStatus::Unknown <==> !understood(
            o,
            "free -b"@,
            |t: Seq<char>| free_info(t),
        ),
        iowait_reading(o, thr).status == HealthStatus::Unknown <==> !understood(
            o,
            "vmstat 1 2"@,
            |t: Seq<char>| vm_stat(t),
        ),
{
    reveal(load_reading);
    reveal(memory_readings);
    reveal(iowait_reading);
}

proof fn lemma_unread_fills(o: OutputsView, thr: Thresholds)
    ensures
        !understood(o, "cat /proc/sys/fs/file-nr"@, |t: Seq<char>| file_nr(t)) ==> fd_reading(
            o,
            thr,
        ).status == HealthStatus::Unknown,
        !understood(
            o,
            "cat /proc/sys/net/netfilter/nf_conntrack_count /proc/sys/net/netfilter/nf_conntrack_max"@,
            |t: Seq<char>| conntrack_fill(t),
        ) ==> conntrack_reading(o, thr).status == HealthStatus::Unknown,
        !understood(
            o,
            "cat /proc/loadavg /proc/sys/kernel/pid_max"@,
            |t: Seq<char>| pid_usage(t),
        ) ==> pids_reading(o, thr).status == HealthStatus::Unknown,
        !understood(
            o,
            "cat /proc/net/sockstat /proc/sys/net/ipv4/tcp_mem /proc/sys/net/ipv4/tcp_max_orphans /proc/sys/net/ipv4/tcp_max_tw_buckets"@,
            |t: Seq<char>| sock_stat(t),
        ) ==> tcp_mem_reading(o, thr).status == HealthStatus::Unknown,
{
    reveal(fd_reading);
    reveal(conntrack_reading);
    reveal(pids_reading);
    reveal(tcp_mem_reading);
}

proof fn lemma_unread_counts(o: OutputsView, thr: Thresholds)
    ensures
        connections_reading(o).status == HealthStatus::Unknown <==> !understood(
            o,
            "ss -s"@,
            |t: Seq<char>| socket_summary(t),
        ),
        collected(o, "df -P"@) is None ==> disk_reading(o, thr).status == HealthStatus::Unknown,
        collected(o, "df -Pi"@) is None ==> inodes_reading(o, thr).status == HealthStatus::Unknown,
        failed_units_reading(o, thr).status == HealthStatus::Unknown <==> collected(
            o,
            "systemctl list-units --type=service --state=failed --no-legend --no-pager"@,
        ) is None,
        zombie_reading(o, thr).status == HealthStatus::Unknown <==> collected(
            o,
            "ps -eo stat --no-headers"@,
        ) is None,
{
    reveal(connections_reading);
    reveal(disk_reading);
    reveal(inodes_reading);
    reveal(failed_units_reading);
    reveal(zombie_reading);
}

proof fn lemma_unread_states(o: OutputsView, thr: Thresholds)
    ensures
        clock_reading(o).status == HealthStatus::Unknown <==> !understood(
            o,
            "timedatectl show"@,
            |t: Seq<char>| clock_synced(t),
        ),
        oom_reading(o).status == HealthStatus::Unknown <==> collected(o, "sudo -n dmesg"@) is None,
        kernel_events_reading(o).status == HealthStatus::Unknown <==> collected(
            o,
            "sudo -n dmesg"@,
        ) is None,
        reboot_reading(o).status == HealthStatus::Unknown <==> collected(o, "ls /run"@) is None,
        readonly_reading(o).status == HealthStatus::Unknown <==> collected(o, "cat /proc/mounts"@)
            is None,
{
    reveal(clock_reading);
    reveal(oom_reading);
    reveal(kernel_events_reading);
    reveal(reboot_reading);
    reveal(readonly_reading);
}

/// A metric that is unknown has no number, and its value says that there is none.
pub proof fn law_unknown_has_no_number(
    o: OutputsView,
    thr: Thresholds,
    certs: Seq<(Seq<char>, Option<Seq<char>>)>,
    now: int,
)
    ensures
        load_reading(o, thr).status == HealthStatus::Unknown ==> load_reading(o, thr).numeric is None
            && load_reading(o, thr).value == "n/a"@,
        memory_readings(o, thr)[0].status == HealthStatus::Unknown ==> memory_readings(
            o,
            thr,
        )[0].numeric is None,
        fd_reading(o, thr).status == HealthStatus::Unknown ==> fd_reading(o, thr).numeric is None,
        containers_reading(o).status == HealthStatus::Unknown ==> containers_reading(o).numeric
            is None,
        cert_reading(certs, thr, now).status == HealthStatus::Unknown ==> cert_reading(
            certs,
            thr,
            now,
        ).numeric is None,
        certs.len() == 0 ==> cert_reading(certs, thr, now).status == HealthStatus::Unknown,
{
    reveal(load_reading);
    reveal(memory_readings);
    reveal(fd_reading);
    reveal(containers_reading);
    reveal(cert_reading);
}

/// The network metrics are unknown where no interface is in both samples, where none carries any
/// traffic, and where the counters cannot be read.
pub proof fn law_unread_network_is_unknown(
    s1: Seq<char>,
    s2: Seq<char>,
    m1: Seq<char>,
    m2: Seq<char>,
    nanos: u64,
    thr: Thresholds,
)
    ensures
        deltas(s1, s2).len() == 0 ==> throughput_reading(s1, s2, nanos, thr).status
            == HealthStatus::Unknown && errors_reading(s1, s2, nanos, thr).status
            == HealthStatus::Unknown,
        busiest(s1, s2).len() == 0 ==> throughput_reading(s1, s2, nanos, thr).status
            == HealthStatus::Unknown,
        listen_counters(s1) is None || listen_counters(s2) is None ==> listen_reading(
            s1,
            s2,
            nanos,
            thr,
        ).status == HealthStatus::Unknown,
        conntrack_drops(s1) is None || conntrack_drops(s2) is None ==> conntrack_drops_reading(
            s1,
            s2,
            nanos,
            thr,
        ).status == HealthStatus::Unknown,
        tcp_error_counters(s1) is None || tcp_error_counters(s2) is None ==> tcp_errors_reading(
            m1,
            m2,
            s1,
            s2,
            nanos,
            thr,
        ).status == HealthStatus::Unknown,
{
    reveal(throughput_reading);
    reveal(errors_reading);
    reveal(listen_reading);
    reveal(conntrack_drops_reading);
    reveal(tcp_errors_reading);
}

/// A host that reports no memory at all uses none of it.
pub proof fn law_no_memory_is_none_used(free: MemInfo, thr: Thresholds)
    requires
        free.mem_total == 0,
        thr.mem_used_warn_pct > 0,
        thr.mem_used_crit_pct > 0,
    ensures
        super::metrics::memory_reading(free, thr).status == HealthStatus::Okay,
        super::metrics::memory_reading(free, thr).numeric == Some(0i64),
{
    assert(crate::text::number::rounded(0, 1) == 0);
}

/// Nothing is understood of memory without a line for it, of the clock without one, and of swap
/// there is none without one.
pub proof fn law_missing_lines(text: Seq<char>)
    ensures
        (forall|i: int|
            0 <= i < lines(text).len() ==> !led_by(#[trigger] lines(text)[i], "Mem:"@))
            ==> free_info(text) is None,
        (forall|i: int|
            0 <= i < lines(text).len() ==> !starts_with(
                trim(#[trigger] lines(text)[i]),
                "NTPSynchronized="@,
            )) ==> clock_synced(text) is None,
{
    let ls = lines(text);
    if forall|i: int| 0 <= i < ls.len() ==> !led_by(#[trigger] ls[i], "Mem:"@) {
        lemma_no_memory_line(ls, ls.len() as int);
        lemma_take_all(ls);
    }
    if forall|i: int|
        0 <= i < ls.len() ==> !starts_with(trim(#[trigger] ls[i]), "NTPSynchronized="@) {
        let f = |l: Seq<char>| super::parse::synced_field(l);
        if ls.filter_map(f).len() > 0 {
            let j = crate::anomaly_laws::lemma_from(ls, f, 0);
            assert(!starts_with(trim(ls[j]), "NTPSynchronized="@));
        }
    }
}

proof fn lemma_no_memory_line(ls: Seq<Seq<char>>, n: int)
    requires
        0 <= n <= ls.len(),
        forall|i: int| 0 <= i < ls.len() ==> !led_by(#[trigger] ls[i], "Mem:"@),
    ensures
        ls.take(n).fold_left(
            (FreeScan {
                mem_total: None,
                mem_used: None,
                mem_available: 0,
                swap_total: 0,
                swap_used: 0,
            }),
            |st: FreeScan, l: Seq<char>| free_step(st, l),
        ).mem_total is None,
    decreases n,
{
    let start = FreeScan {
        mem_total: None,
        mem_used: None,
        mem_available: 0,
        swap_total: 0,
        swap_used: 0,
    };
    let f = |st: FreeScan, l: Seq<char>| free_step(st, l);
    if n > 0 {
        lemma_no_memory_line(ls, n - 1);
        lemma_fold_step(ls, start, f, n - 1);
        assert(!led_by(ls[n - 1], "Mem:"@));
    } else {
        assert(ls.take(0).fold_left(start, f) == start);
    }
}

} // verus!
