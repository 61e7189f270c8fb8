//! What the metrics say of a host, told by the figures that its commands print.

use super::{HealthStatus, MetricView, Thresholds};
use super::metrics::{
    clock_reading, conntrack_reading, disk_reading, failed_units_reading, fd_reading,
    filesystem_reading, fullest, inodes_reading, kernel_events_reading, memory_readings,
    memory_used, oom_reading, pids_reading, readonly_reading, reboot_reading, tcp_mem_reading,
    tcp_worst, zombie_reading,
};
use super::parse::{
    conntrack_fill, event_critical, failed_units, free_info, free_step, kernel_events, oom_kill,
    readonly_mount, readonly_mounts, real_mounts, reboot_flag, signature_from, sock_stat,
    synced_field, zombie, FreeScan, MemInfo, MountView, SockStat, KERNEL_SIGNATURES,
};
use crate::anomaly_laws::{lemma_from, lemma_kept};
use crate::audit::{collected, OutputsView};
use crate::checks::verdicts::lemma_count;
use crate::quantity::percentage;
use crate::text::number::{digits, lemma_digits_value, pow10, rounded};
use crate::text::search::{mentions, starts_with};
use crate::text::split::{
    fields, lemma_filter_map_step, lemma_lines_concat, lemma_one_line, lemma_take_all, lines, trim,
    trim_start, words,
};
use vstd::prelude::*;

verus! {

/// The whole number is the quotient, rounded to the nearest.
pub open spec fn nearest_to(n: int, a: int, d: int) -> bool {
    -d <= 2 * (n * d - a) <= d
}

/// The metric tells what share of a total is in use: critical where it is at least `crit`
/// percent, a warning where it is at least `warn`.
pub open spec fn tells_share(m: MetricView, used: int, total: int, warn: u8, crit: u8) -> bool {
    &&& m.status == if 100 * used >= crit * total {
        HealthStatus::Crit
    } else if 100 * used >= warn * total {
        HealthStatus::Warn
    } else {
        HealthStatus::Okay
    }
    &&& exists|n: int| #[trigger] nearest_to(n, 100 * used, total) && m.value == digits(n)
        + "% used"@
    &&& m.numeric matches Some(x) && (x < i64::MAX ==> nearest_to(
        x as int,
        100_000_000 * used,
        total,
    ))
}

proof fn lemma_nearest_to(a: int, d: int)
    requires
        a >= 0,
        d > 0,
    ensures
        nearest_to(rounded(a, d), a, d),
        rounded(a, d) >= 0,
{
    let q = a / d;
    let r = a % d;
    assert(a == d * q + r && 0 <= r < d && q >= 0) by (nonlinear_arith)
        requires
            a >= 0,
            d > 0,
            q == a / d,
            r == a % d,
    ;
    assert((q + 1) * d == d * q + d) by (nonlinear_arith);
    assert(q * d == d * q) by (nonlinear_arith);
}

proof fn lemma_share(used: u64, total: u64, warn: u8, crit: u8)
    requires
        total > 0,
    ensures
        ({
            let share = percentage(used, total);
            &&& super::graded_percent(share, warn, crit) == if 100 * used >= crit * total {
                HealthStatus::Crit
            } else if 100 * used >= warn * total {
                HealthStatus::Warn
            } else {
                HealthStatus::Okay
            }
            &&& nearest_to(rounded(100 * used, total as int), 100 * used, total as int)
            &&& share.text(0) == digits(rounded(100 * used, total as int))
            &&& share.micros() < i64::MAX ==> nearest_to(
                share.micros() as int,
                100_000_000 * used,
                total as int,
            )
        }),
{
    let share = percentage(used, total);
    let (u, t, w, c) = (used as int, total as int, warn as int, crit as int);
    assert((w * 1_000_000) * t == 1_000_000 * (w * t)) by (nonlinear_arith);
    assert((c * 1_000_000) * t == 1_000_000 * (c * t)) by (nonlinear_arith);
    assert(share.num == 100 * u && share.den == t);
    lemma_nearest_to(100 * u, t);
    lemma_nearest_to(100 * u * 1_000_000, t);
    assert(pow10(0) == 1);
    assert((100 * u) * pow10(0) == 100 * u) by (nonlinear_arith)
        requires
            pow10(0) == 1,
    ;
}

/// The line starts with the word.
pub open spec fn led_by(l: Seq<char>, tag: Seq<char>) -> bool {
    words(l).len() > 0 && words(l)[0] == tag
}

/// Line `i` is the last one that starts with the word.
pub open spec fn last_led(ls: Seq<Seq<char>>, tag: Seq<char>, i: int) -> bool {
    &&& 0 <= i < ls.len()
    &&& led_by(ls[i], tag)
    &&& forall|j: int| i < j < ls.len() ==> !led_by(#[trigger] ls[j], tag)
}

/// Word `k` of the line spells the number.
pub open spec fn spelled(l: Seq<char>, k: int, n: u64) -> bool {
    0 <= k < words(l).len() && words(l)[k] == digits(n as int)
}

spec fn free_start() -> FreeScan {
    FreeScan { mem_total: None, mem_used: None, mem_available: 0, swap_total: 0, swap_used: 0 }
}

spec fn free_end(ls: Seq<Seq<char>>) -> FreeScan {
    ls.fold_left(free_start(), |st: FreeScan, l: Seq<char>| free_step(st, l))
}

proof fn lemma_free_step(ls: Seq<Seq<char>>)
    requires
        ls.len() > 0,
    ensures
        free_end(ls) == free_step(free_end(ls.drop_last()), ls.last()),
{
}

proof fn lemma_free_rows(ls: Seq<Seq<char>>, tag: Seq<char>, i: int)
    requires
        last_led(ls, tag, i),
        tag == "Mem:"@ || tag == "Swap:"@,
    ensures
        ({
            let w = words(ls[i]);
            let end = free_end(ls);
            &&& tag == "Mem:"@ ==> end.mem_total == super::parse::number_at(w, 1) && end.mem_used
                == super::parse::number_at(w, 2) && end.mem_available == super::parse::or_zero(
                super::parse::number_at(w, 6),
            )
            &&& tag == "Swap:"@ ==> end.swap_total == super::parse::or_zero(
                super::parse::number_at(w, 1),
            ) && end.swap_used == super::parse::or_zero(super::parse::number_at(w, 2))
        }),
    decreases ls.len(),
{
    reveal_strlit("Mem:");
    reveal_strlit("Swap:");
    assert("Mem:"@.len() == 4 && "Swap:"@.len() == 5);
    lemma_free_step(ls);
    let n = ls.len() - 1;
    if i < n {
        assert(!led_by(ls[n], tag));
        let front = ls.drop_last();
        assert(front[i] == ls[i]);
        assert forall|j: int| i < j < front.len() implies !led_by(#[trigger] front[j], tag) by {
            assert(front[j] == ls[j]);
        }
        lemma_free_rows(front, tag, i);
    }
}

/// Memory is told by the last `Mem:` line of `free`: its total and its available bytes, which
/// together with those in use make up the total (with more available than there is, none is in
/// use). Where nothing is said to be available, the bytes in use are those that the line names.
pub proof fn law_memory_in_use(
    o: OutputsView,
    thr: Thresholds,
    text: Seq<char>,
    i: int,
    total: u64,
    used: u64,
    available: u64,
    in_use: u64,
)
    requires
        collected(o, "free -b"@) == Some(text),
        last_led(lines(text), "Mem:"@, i),
        spelled(lines(text)[i], 1, total),
        spelled(lines(text)[i], 2, used),
        spelled(lines(text)[i], 6, available),
        0 < total,
        0 < available <= total ==> in_use + available == total,
        available > total ==> in_use == 0,
        available == 0 ==> in_use == used,
    ensures
        memory_readings(o, thr).len() == 2,
        memory_readings(o, thr)[0].id == "health-memory"@,
        tells_share(
            memory_readings(o, thr)[0],
            in_use as int,
            total as int,
            thr.mem_used_warn_pct,
            thr.mem_used_crit_pct,
        ),
{
    reveal(memory_readings);
    let ls = lines(text);
    lemma_free_rows(ls, "Mem:"@, i);
    lemma_digits_value(total);
    lemma_digits_value(used);
    lemma_digits_value(available);
    let free = free_info(text)->0;
    assert(free.mem_total == total && free.mem_used == used && free.mem_available == available);
    assert(memory_used(free) == in_use);
    lemma_share(in_use, total, thr.mem_used_warn_pct, thr.mem_used_crit_pct);
}

/// With the same total, memory never looks worse as more of it is available.
pub proof fn law_more_available_is_never_worse(
    a: MemInfo,
    b: MemInfo,
    thr: Thresholds,
)
    requires
        a.mem_total == b.mem_total,
        0 < a.mem_available <= b.mem_available <= a.mem_total,
        thr.mem_used_warn_pct <= thr.mem_used_crit_pct,
    ensures
        memory_used(a) + a.mem_available == a.mem_total,
        memory_used(b) + b.mem_available == b.mem_total,
        ({
            let (x, y) = (
                super::metrics::memory_reading(a, thr).status,
                super::metrics::memory_reading(b, thr).status,
            );
            &&& y == HealthStatus::Crit ==> x == HealthStatus::Crit
            &&& y == HealthStatus::Warn ==> x == HealthStatus::Crit || x == HealthStatus::Warn
        }),
{
    lemma_share(memory_used(a), a.mem_total, thr.mem_used_warn_pct, thr.mem_used_crit_pct);
    lemma_share(memory_used(b), b.mem_total, thr.mem_used_warn_pct, thr.mem_used_crit_pct);
}

/// Swap is told by the last `Swap:` line of `free`: its total and the bytes in use. Without any
/// swap there is nothing wrong.
pub proof fn law_swap_in_use(
    o: OutputsView,
    thr: Thresholds,
    text: Seq<char>,
    i: int,
    j: int,
    total: u64,
    used: u64,
    mem: u64,
    mem_used: u64,
)
    requires
        collected(o, "free -b"@) == Some(text),
        last_led(lines(text), "Mem:"@, i),
        spelled(lines(text)[i], 1, mem),
        spelled(lines(text)[i], 2, mem_used),
        last_led(lines(text), "Swap:"@, j),
        spelled(lines(text)[j], 1, total),
        spelled(lines(text)[j], 2, used),
    ensures
        memory_readings(o, thr)[1].id == "health-swap"@,
        total > 0 ==> tells_share(
            memory_readings(o, thr)[1],
            used as int,
            total as int,
            thr.swap_used_warn_pct,
            thr.swap_used_crit_pct,
        ),
        total == 0 ==> memory_readings(o, thr)[1].status == HealthStatus::Okay
            && memory_readings(o, thr)[1].numeric == Some(0i64),
{
    reveal(memory_readings);
    let ls = lines(text);
    lemma_free_rows(ls, "Mem:"@, i);
    lemma_free_rows(ls, "Swap:"@, j);
    lemma_digits_value(mem);
    lemma_digits_value(mem_used);
    lemma_digits_value(total);
    lemma_digits_value(used);
    if total > 0 {
        lemma_share(used, total, thr.swap_used_warn_pct, thr.swap_used_crit_pct);
    }
}

/// Open files are told by the first and the third number of `file-nr`: allocated, and the most
/// that may be.
pub proof fn law_open_files(
    o: OutputsView,
    thr: Thresholds,
    text: Seq<char>,
    used: u64,
    max: u64,
)
    requires
        collected(o, "cat /proc/sys/fs/file-nr"@) == Some(text),
        spelled(text, 0, used),
        spelled(text, 2, max),
    ensures
        fd_reading(o, thr).id == "health-fd"@,
        max > 0 ==> tells_share(
            fd_reading(o, thr),
            used as int,
            max as int,
            thr.fd_warn_pct,
            thr.fd_crit_pct,
        ),
        max == 0 ==> fd_reading(o, thr).status == HealthStatus::Unknown,
{
    reveal(fd_reading);
    lemma_digits_value(used);
    lemma_digits_value(max);
    if max > 0 {
        lemma_share(used, max, thr.fd_warn_pct, thr.fd_crit_pct);
    }
}

/// A file of two lines with a number each.
pub open spec fn two_numbers(a: u64, b: u64) -> Seq<char> {
    digits(a as int) + "\n"@ + (digits(b as int) + "\n"@)
}

proof fn lemma_number_line(n: u64)
    ensures
        lines(digits(n as int) + "\n"@) == seq![digits(n as int)],
        trim(digits(n as int)) == digits(n as int),
        super::parse::bare_number(digits(n as int)) == Some(n),
{
    let d = digits(n as int);
    crate::text::number::lemma_digits_shape(n as int);
    lemma_digits_value(n);
    if d.contains('\n') {
        let i = choose|i: int| 0 <= i < d.len() && d[i] == '\n';
        assert('0' <= d[i] <= '9');
    }
    assert('0' <= d[d.len() - 1] <= '9');
    lemma_one_line(d);
    assert('0' <= d[0] <= '9');
    crate::catalog::lemma_trim_identity(d);
}

/// The connection table is told by the number of its entries and the most that it may have, a
/// line each.
pub proof fn law_connection_table(o: OutputsView, thr: Thresholds, used: u64, max: u64)
    requires
        collected(
            o,
            "cat /proc/sys/net/netfilter/nf_conntrack_count /proc/sys/net/netfilter/nf_conntrack_max"@,
        ) == Some(two_numbers(used, max)),
    ensures
        conntrack_reading(o, thr).id == "health-conntrack"@,
        max > 0 ==> tells_share(
            conntrack_reading(o, thr),
            used as int,
            max as int,
            thr.conntrack_warn_pct,
            thr.conntrack_crit_pct,
        ),
        max == 0 ==> conntrack_reading(o, thr).status == HealthStatus::Unknown,
{
    reveal(conntrack_reading);
    reveal_strlit("\n");
    let (a, b) = (digits(used as int), digits(max as int));
    lemma_number_line(used);
    lemma_number_line(max);
    lemma_lines_concat(a + "\n"@, b + "\n"@);
    let ls = lines(two_numbers(used, max));
    assert(ls == seq![a, b]);
    let f = |l: Seq<char>| super::parse::bare_number(l);
    lemma_filter_map_step(ls, f, 0);
    lemma_filter_map_step(ls, f, 1);
    lemma_take_all(ls);
    assert(ls.take(0).filter_map(f).len() == 0);
    assert(conntrack_fill(two_numbers(used, max)) == Some((used, max)));
    if max > 0 {
        lemma_share(used, max, thr.conntrack_warn_pct, thr.conntrack_crit_pct);
    }
}

/// Processes are told by the number of tasks behind the `/` in the fourth word of the first line,
/// and the most that there may be on the second.
pub proof fn law_processes(
    o: OutputsView,
    thr: Thresholds,
    text: Seq<char>,
    running: u64,
    tasks: u64,
    max: u64,
)
    requires
        collected(o, "cat /proc/loadavg /proc/sys/kernel/pid_max"@) == Some(text),
        lines(text).len() >= 2,
        words(lines(text)[0]).len() >= 4,
        fields(words(lines(text)[0])[3], '/') == seq![
            digits(running as int),
            digits(tasks as int),
        ],
        trim(lines(text)[1]) == digits(max as int),
    ensures
        pids_reading(o, thr).id == "health-pids"@,
        max > 0 ==> tells_share(
            pids_reading(o, thr),
            tasks as int,
            max as int,
            thr.pid_warn_pct,
            thr.pid_crit_pct,
        ),
        max == 0 ==> pids_reading(o, thr).status == HealthStatus::Unknown,
{
    reveal(pids_reading);
    lemma_digits_value(tasks);
    lemma_digits_value(max);
    if max > 0 {
        lemma_share(tasks, max, thr.pid_warn_pct, thr.pid_crit_pct);
    }
}

/// A part of the TCP limits is at least so many percent of its ceiling.
pub open spec fn part_reaches(used: u64, max: u64, pct: u8) -> bool {
    100 * used >= pct * max
}

/// The TCP limits are as bad as the worst of memory, orphans and time-wait sockets.
pub proof fn law_tcp_limits(o: OutputsView, thr: Thresholds, text: Seq<char>, s: SockStat)
    requires
        collected(
            o,
            "cat /proc/net/sockstat /proc/sys/net/ipv4/tcp_mem /proc/sys/net/ipv4/tcp_max_orphans /proc/sys/net/ipv4/tcp_max_tw_buckets"@,
        ) == Some(text),
        sock_stat(text) == Some(s),
        s.tcp_mem_max > 0,
        s.max_orphans > 0,
        s.max_tw > 0,
    ensures
        ({
            let reaches = |pct: u8|
                part_reaches(s.tcp_mem, s.tcp_mem_max, pct) || part_reaches(
                    s.orphan,
                    s.max_orphans,
                    pct,
                ) || part_reaches(s.tw, s.max_tw, pct);
            tcp_mem_reading(o, thr).status == if reaches(thr.tcp_crit_pct) {
                HealthStatus::Crit
            } else if reaches(thr.tcp_warn_pct) {
                HealthStatus::Warn
            } else {
                HealthStatus::Okay
            }
        }),
{
    reveal(tcp_mem_reading);
    lemma_tcp_worst(s, thr.tcp_crit_pct);
    lemma_tcp_worst(s, thr.tcp_warn_pct);
}

proof fn lemma_percent_reaches(used: u64, max: u64, pct: u8)
    ensures
        percentage(used, max).reaches(pct * 1_000_000) <==> part_reaches(used, max, pct),
{
    let (t, w) = (max as int, pct as int);
    assert((w * 1_000_000) * t == 1_000_000 * (w * t)) by (nonlinear_arith);
}

/// What a lesser share reaches, a greater one reaches too.
proof fn lemma_greater_reaches(a: u64, b: u64, c: u64, d: u64, pct: u8)
    requires
        b > 0,
        d > 0,
        !percentage(c, d).exceeds(percentage(a, b)),
    ensures
        part_reaches(c, d, pct) ==> part_reaches(a, b, pct),
{
    let (x, y, z, w, p) = (a as int, b as int, c as int, d as int, pct as int);
    assert(p * w <= 100 * z && (100 * z) * y <= (100 * x) * w ==> p * y <= 100 * x)
        by (nonlinear_arith)
        requires
            y > 0,
            w > 0,
            p >= 0,
    ;
}

proof fn lemma_exceeding(a: u64, b: u64, c: u64, d: u64, pct: u8)
    requires
        b > 0,
        d > 0,
        percentage(c, d).exceeds(percentage(a, b)),
    ensures
        part_reaches(a, b, pct) ==> part_reaches(c, d, pct),
{
    let (x, y, z, w, p) = (a as int, b as int, c as int, d as int, pct as int);
    assert(p * y <= 100 * x && (100 * z) * y > (100 * x) * w ==> p * w <= 100 * z)
        by (nonlinear_arith)
        requires
            y > 0,
            w > 0,
            p >= 0,
    ;
}

proof fn lemma_tcp_worst(s: SockStat, pct: u8)
    requires
        s.tcp_mem_max > 0,
        s.max_orphans > 0,
        s.max_tw > 0,
    ensures
        tcp_worst(s).1.reaches(pct * 1_000_000) <==> part_reaches(s.tcp_mem, s.tcp_mem_max, pct)
            || part_reaches(s.orphan, s.max_orphans, pct) || part_reaches(s.tw, s.max_tw, pct),
{
    let mem = percentage(s.tcp_mem, s.tcp_mem_max);
    let orphan = percentage(s.orphan, s.max_orphans);
    let tw = percentage(s.tw, s.max_tw);
    lemma_percent_reaches(s.tcp_mem, s.tcp_mem_max, pct);
    lemma_percent_reaches(s.orphan, s.max_orphans, pct);
    lemma_percent_reaches(s.tw, s.max_tw, pct);
    if orphan.exceeds(mem) {
        lemma_exceeding(s.tcp_mem, s.tcp_mem_max, s.orphan, s.max_orphans, pct);
        if tw.exceeds(orphan) {
            lemma_exceeding(s.orphan, s.max_orphans, s.tw, s.max_tw, pct);
        } else {
            lemma_greater_reaches(s.orphan, s.max_orphans, s.tw, s.max_tw, pct);
        }
    } else {
        lemma_greater_reaches(s.tcp_mem, s.tcp_mem_max, s.orphan, s.max_orphans, pct);
        if tw.exceeds(mem) {
            lemma_exceeding(s.tcp_mem, s.tcp_mem_max, s.tw, s.max_tw, pct);
        } else {
            lemma_greater_reaches(s.tcp_mem, s.tcp_mem_max, s.tw, s.max_tw, pct);
        }
    }
}

/// Some mount is at least so full.
pub open spec fn some_full(mounts: Seq<MountView>, pct: int) -> bool {
    exists|i: int| 0 <= i < mounts.len() && (#[trigger] mounts[i]).use_pct >= pct
}

proof fn lemma_fullest(mounts: Seq<MountView>)
    requires
        mounts.len() > 0,
    ensures
        fullest(mounts) matches Some(w) && mounts.contains(w) && forall|i: int|
            0 <= i < mounts.len() ==> (#[trigger] mounts[i]).use_pct <= w.use_pct,
    decreases mounts.len(),
{
    let front = mounts.drop_last();
    let n = mounts.len() - 1;
    assert(mounts[n] == mounts.last());
    if front.len() > 0 {
        lemma_fullest(front);
        let w = fullest(front)->0;
        let k = choose|k: int| 0 <= k < front.len() && front[k] == w;
        assert(mounts[k] == w);
        assert forall|i: int| 0 <= i < mounts.len() implies (#[trigger] mounts[i]).use_pct
            <= fullest(mounts)->0.use_pct by {
            if i < n {
                assert(front[i].use_pct <= w.use_pct);
            }
        }
    } else {
        assert(fullest(front) is None);
    }
}

/// Of mounts that are equally full, the last one counts.
pub proof fn law_last_of_the_fullest(mounts: Seq<MountView>, k: int)
    requires
        0 <= k < mounts.len(),
        forall|i: int| 0 <= i < k ==> (#[trigger] mounts[i]).use_pct <= mounts[k].use_pct,
        forall|i: int| k < i < mounts.len() ==> (#[trigger] mounts[i]).use_pct < mounts[k].use_pct,
    ensures
        fullest(mounts) == Some(mounts[k]),
    decreases mounts.len(),
{
    let front = mounts.drop_last();
    let n = mounts.len() - 1;
    assert forall|i: int| 0 <= i < n implies #[trigger] front[i] == mounts[i] by {}
    if k < n {
        assert(mounts[n].use_pct < mounts[k].use_pct);
        law_last_of_the_fullest(front, k);
    } else if front.len() > 0 {
        lemma_fullest(front);
        let w = fullest(front)->0;
        let j = front.index_of(w);
        assert(mounts[j].use_pct <= mounts[k].use_pct);
    }
}

/// A file system metric: it is as bad as its fullest real mount, which it names.
pub open spec fn tells_fullest(m: MetricView, text: Seq<char>, warn: u8, crit: u8) -> bool {
    let mounts = real_mounts(text);
    if mounts.len() == 0 {
        m.status == HealthStatus::Unknown
    } else {
        &&& m.status == if some_full(mounts, crit as int) {
            HealthStatus::Crit
        } else if some_full(mounts, warn as int) {
            HealthStatus::Warn
        } else {
            HealthStatus::Okay
        }
        &&& exists|k: int|
            0 <= k < mounts.len() && !some_full(mounts, mounts[k].use_pct + 1) && m.value == digits(
                (#[trigger] mounts[k]).use_pct as int,
            ) + "% on "@ + mounts[k].mount && m.numeric == Some(
                (mounts[k].use_pct * 1_000_000) as i64,
            )
    }
}

proof fn lemma_tells_fullest(
    id: Seq<char>,
    title: Seq<char>,
    text: Seq<char>,
    missing: Seq<char>,
    thr: Thresholds,
)
    ensures
        tells_fullest(
            filesystem_reading(id, title, Some(text), missing, thr),
            text,
            thr.disk_warn_pct,
            thr.disk_crit_pct,
        ),
{
    let mounts = real_mounts(text);
    if mounts.len() > 0 {
        lemma_fullest(mounts);
        let w = fullest(mounts)->0;
        let k = choose|k: int| 0 <= k < mounts.len() && mounts[k] == w;
        assert(mounts[k].use_pct == w.use_pct);
        let m = filesystem_reading(id, title, Some(text), missing, thr);
        assert(m.value == digits(mounts[k].use_pct as int) + "% on "@ + mounts[k].mount);
    }
}

/// Disks and inodes are as full as their fullest real mount.
pub proof fn law_disks_and_inodes(o: OutputsView, thr: Thresholds, text: Seq<char>)
    ensures
        collected(o, "df -P"@) == Some(text) ==> disk_reading(o, thr).id == "health-disk"@
            && tells_fullest(disk_reading(o, thr), text, thr.disk_warn_pct, thr.disk_crit_pct),
        collected(o, "df -Pi"@) == Some(text) ==> inodes_reading(o, thr).id == "health-inodes"@
            && tells_fullest(inodes_reading(o, thr), text, thr.disk_warn_pct, thr.disk_crit_pct),
{
    reveal(disk_reading);
    reveal(inodes_reading);
    lemma_tells_fullest("health-disk"@, "Disk usage"@, text, "df unavailable"@, thr);
    lemma_tells_fullest("health-inodes"@, "Inode usage"@, text, "df -i unavailable"@, thr);
}

/// How many lines meet a condition, and how bad that is: fine if none does, critical from a
/// limit on if there is one, else a warning.
pub open spec fn tells_count(m: MetricView, n: nat, limit: u32) -> bool {
    &&& m.status == if n == 0 {
        HealthStatus::Okay
    } else if limit != 0 && limit <= n {
        HealthStatus::Crit
    } else {
        HealthStatus::Warn
    }
    &&& m.numeric == Some(
        if n * 1_000_000 <= i64::MAX {
            (n * 1_000_000) as i64
        } else {
            i64::MAX
        },
    )
    &&& n > 0 ==> starts_with(m.value, digits(n as int))
}

/// Killed processes, zombies and failed services are counted by the lines that show them.
pub proof fn law_counted_by_lines(o: OutputsView, thr: Thresholds, text: Seq<char>)
    ensures
        collected(o, "sudo -n dmesg"@) == Some(text) ==> tells_count(
            oom_reading(o),
            lines(text).filter(|l: Seq<char>| mentions(l, "Out of memory: Kill"@)).len(),
            0,
        ),
        collected(o, "ps -eo stat --no-headers"@) == Some(text) ==> tells_count(
            zombie_reading(o, thr),
            lines(text).filter(
                |l: Seq<char>| trim_start(l).len() > 0 && trim_start(l)[0] == 'Z',
            ).len(),
            thr.zombie_crit,
        ),
        collected(
            o,
            "systemctl list-units --type=service --state=failed --no-legend --no-pager"@,
        ) == Some(text) ==> tells_count(
            failed_units_reading(o, thr),
            failed_units(text).len(),
            thr.failed_units_crit,
        ),
{
    reveal(oom_reading);
    reveal(zombie_reading);
    reveal(failed_units_reading);
    let ls = lines(text);
    let p = |l: Seq<char>| mentions(l, "Out of memory: Kill"@);
    let q = |l: Seq<char>| oom_kill(l);
    assert forall|l: Seq<char>| #[trigger] p(l) == q(l) by {}
    lemma_count(ls, q, p);
    let r = |l: Seq<char>| trim_start(l).len() > 0 && trim_start(l)[0] == 'Z';
    let s = |l: Seq<char>| zombie(l);
    assert forall|l: Seq<char>| #[trigger] r(l) == s(l) by {}
    lemma_count(ls, s, r);
    let a = digits(ls.filter(p).len() as int);
    let b = digits(ls.filter(r).len() as int);
    let c = digits(failed_units(text).len() as int);
    assert((a + " OOM kill(s) since boot"@).take(a.len() as int) =~= a);
    assert((b + " zombie process(es)"@).take(b.len() as int) =~= b);
    assert((c + " failed unit(s)"@).take(c.len() as int) =~= c);
}

/// The line tells of a lockup, a hung task, a panic, a hardware error, a machine check, an oops
/// or a bug.
pub open spec fn alarming(l: Seq<char>) -> bool {
    mentions(l, "soft lockup"@) || mentions(l, "blocked for more than"@) || mentions(
        l,
        "Kernel panic"@,
    ) || mentions(l, "Hardware Error"@) || mentions(l, "Machine Check Exception"@) || mentions(
        l,
        "Oops"@,
    ) || mentions(l, "BUG:"@)
}

/// The line tells of a full table, a file system error or a failing block device.
pub open spec fn troubling(l: Seq<char>) -> bool {
    mentions(l, "nf_conntrack: table full"@) || mentions(l, "neighbour table overflow"@)
        || mentions(l, "EXT4-fs error"@) || mentions(l, "blk_update_request"@)
}

proof fn lemma_signatures(l: Seq<char>)
    ensures
        critical_upto(l, 11) <==> alarming(l),
        signature_from(l, 0) is Some <==> alarming(l) || troubling(l),
{
    reveal_with_fuel(signature_from, 13);
}

/// The kernel log is critical exactly if some line is alarming, else a warning exactly if some
/// line is troubling; it counts the lines that are either.
pub proof fn law_kernel_log(o: OutputsView, text: Seq<char>)
    requires
        collected(o, "sudo -n dmesg"@) == Some(text),
        text.len() <= usize::MAX,
    ensures
        ({
            let ls = lines(text);
            let n = ls.filter(|l: Seq<char>| alarming(l) || troubling(l)).len();
            &&& kernel_events_reading(o).status == if exists|i: int|
                0 <= i < ls.len() && alarming(#[trigger] ls[i]) {
                HealthStatus::Crit
            } else if exists|i: int| 0 <= i < ls.len() && troubling(#[trigger] ls[i]) {
                HealthStatus::Warn
            } else {
                HealthStatus::Okay
            }
            &&& n * 1_000_000 <= i64::MAX ==> kernel_events_reading(o).numeric == Some(
                (n * 1_000_000) as i64,
            )
        }),
{
    reveal(kernel_events_reading);
    let ls = lines(text);
    let ev = kernel_events(text);
    super::laws::law_total_counts_matching_lines(text);
    let matching = super::laws::event_lines(ls);
    let p = |l: Seq<char>| signature_from(l, 0) is Some;
    let q = |l: Seq<char>| alarming(l) || troubling(l);
    assert forall|l: Seq<char>| #[trigger] p(l) == q(l) by {
        lemma_signatures(l);
    }
    lemma_count(ls, p, p);
    lemma_count(ls, p, q);
    assert forall|i: int| 0 <= i < ls.len() implies critical_upto(#[trigger] ls[i], 11) == alarming(
        ls[i],
    ) by {
        lemma_signatures(ls[i]);
    }
    lemma_critical(ls, KERNEL_SIGNATURES@.len() as int);
    if matching.len() > 0 {
        ls.lemma_filter_contains_rev(p, matching[0]);
        let i = choose|i: int| 0 <= i < ls.len() && ls[i] == matching[0];
        ls.lemma_filter_pred(p, 0);
        assert(q(ls[i]));
        assert(alarming(ls[i]) || troubling(ls[i]));
    }
    if exists|i: int| 0 <= i < ls.len() && q(#[trigger] ls[i]) {
        let i = choose|i: int| 0 <= i < ls.len() && q(#[trigger] ls[i]);
        assert(p(ls[i]));
        ls.lemma_filter_contains(p, i);
        assert(matching.len() > 0);
    }
    assert forall|i: int| 0 <= i < ls.len() implies q(#[trigger] ls[i]) == (alarming(ls[i])
        || troubling(ls[i])) by {}
    if event_critical(ev) {
        let i = choose|i: int| 0 <= i < ls.len() && critical_upto(#[trigger] ls[i], 11);
        assert(alarming(ls[i]));
    }
    if exists|i: int| 0 <= i < ls.len() && alarming(#[trigger] ls[i]) {
        let i = choose|i: int| 0 <= i < ls.len() && alarming(#[trigger] ls[i]);
        assert(critical_upto(ls[i], 11));
        assert(q(ls[i]));
    }
    if exists|i: int| 0 <= i < ls.len() && troubling(#[trigger] ls[i]) {
        let i = choose|i: int| 0 <= i < ls.len() && troubling(#[trigger] ls[i]);
        assert(q(ls[i]));
    }
}

spec fn critical_upto(l: Seq<char>, n: int) -> bool {
    signature_from(l, 0) matches Some(k) && 0 <= k < n && KERNEL_SIGNATURES@[k].2
}

proof fn lemma_critical(ls: Seq<Seq<char>>, n: int)
    requires
        0 <= n <= KERNEL_SIGNATURES@.len(),
    ensures
        event_critical(super::parse::events_upto(ls, n)) <==> exists|i: int|
            0 <= i < ls.len() && critical_upto(#[trigger] ls[i], n),
    decreases n,
{
    let all = super::parse::events_upto(ls, n);
    if n > 0 {
        lemma_critical(ls, n - 1);
        let before = super::parse::events_upto(ls, n - 1);
        let k = n - 1;
        let p = |l: Seq<char>| signature_from(l, 0) == Some(k);
        let hits = super::parse::lines_under(ls, k);
        if event_critical(before) {
            let j = choose|j: int| 0 <= j < before.len() && (#[trigger] before[j]).critical;
            assert(all[j] == before[j]);
            let i = choose|i: int| 0 <= i < ls.len() && critical_upto(#[trigger] ls[i], n - 1);
            assert(critical_upto(ls[i], n));
        }
        if hits.len() > 0 && KERNEL_SIGNATURES@[k].2 {
            ls.lemma_filter_contains_rev(p, hits[0]);
            ls.lemma_filter_pred(p, 0);
            let i = choose|i: int| 0 <= i < ls.len() && ls[i] == hits[0];
            assert(critical_upto(ls[i], n));
            assert(all.last().critical);
            assert(all[all.len() - 1].critical);
        }
        if exists|i: int| 0 <= i < ls.len() && critical_upto(#[trigger] ls[i], n) {
            let i = choose|i: int| 0 <= i < ls.len() && critical_upto(#[trigger] ls[i], n);
            if signature_from(ls[i], 0) == Some(k) {
                ls.lemma_filter_contains(p, i);
                assert(hits.len() > 0);
            } else {
                assert(critical_upto(ls[i], n - 1));
            }
        }
        if event_critical(all) && !event_critical(before) {
            let j = choose|j: int| 0 <= j < all.len() && (#[trigger] all[j]).critical;
            if j < before.len() {
                assert(before[j].critical);
            }
        }
    } else {
        assert(all.len() == 0);
    }
}

/// The clock is told by the first line `NTPSynchronized=`: `yes` is fine, `no` a warning,
/// anything else is unknown.
pub proof fn law_clock(o: OutputsView, text: Seq<char>, i: int)
    requires
        collected(o, "timedatectl show"@) == Some(text),
        0 <= i < lines(text).len(),
        starts_with(trim(lines(text)[i]), "NTPSynchronized="@),
        forall|j: int| 0 <= j < i ==> !starts_with(trim(#[trigger] lines(text)[j]), "NTPSynchronized="@),
    ensures
        clock_reading(o).status == if trim(lines(text)[i]) == "NTPSynchronized=yes"@ {
            HealthStatus::Okay
        } else if trim(lines(text)[i]) == "NTPSynchronized=no"@ {
            HealthStatus::Warn
        } else {
            HealthStatus::Unknown
        },
{
    reveal(clock_reading);
    reveal_strlit("NTPSynchronized=");
    reveal_strlit("NTPSynchronized=yes");
    reveal_strlit("NTPSynchronized=no");
    reveal_strlit("yes");
    reveal_strlit("no");
    let ls = lines(text);
    let f = |l: Seq<char>| synced_field(l);
    lemma_first_found(ls, f, i);
    let t = trim(ls[i]);
    let n = "NTPSynchronized="@.len() as int;
    assert(t == t.take(n) + t.skip(n));
    assert("NTPSynchronized=yes"@ =~= "NTPSynchronized="@ + "yes"@);
    assert("NTPSynchronized=no"@ =~= "NTPSynchronized="@ + "no"@);
    if t == "NTPSynchronized=yes"@ {
        assert(t.skip(n) =~= "yes"@);
    }
    if t == "NTPSynchronized=no"@ {
        assert(t.skip(n) =~= "no"@);
        assert("yes"@.len() == 3 && "no"@.len() == 2);
    }
    assert("NTPSynchronized=yes"@.len() == 19 && "NTPSynchronized=no"@.len() == 18);
}

/// What is found first comes first.
pub proof fn lemma_first_found<A, B>(s: Seq<A>, f: spec_fn(A) -> Option<B>, i: int)
    requires
        0 <= i < s.len(),
        f(s[i]) is Some,
        forall|j: int| 0 <= j < i ==> f(#[trigger] s[j]) is None,
    ensures
        s.filter_map(f).len() > 0,
        s.filter_map(f)[0] == f(s[i])->0,
    decreases s.len(),
{
    let n = s.len() - 1;
    lemma_filter_map_step(s, f, n);
    lemma_take_all(s);
    let front = s.take(n);
    if i < n {
        assert forall|j: int| 0 <= j < i implies f(#[trigger] front[j]) is None by {
            assert(front[j] == s[j]);
        }
        lemma_first_found(front, f, i);
    } else {
        if front.filter_map(f).len() > 0 {
            let j = lemma_from(front, f, 0);
            assert(f(s[j]) is Some);
        }
    }
}

/// A reboot is due exactly if the listing of `/run` has a line `reboot-required`.
pub proof fn law_reboot(o: OutputsView, text: Seq<char>)
    requires
        collected(o, "ls /run"@) == Some(text),
    ensures
        reboot_reading(o).status == if exists|i: int|
            0 <= i < lines(text).len() && trim(#[trigger] lines(text)[i]) == "reboot-required"@ {
            HealthStatus::Warn
        } else {
            HealthStatus::Okay
        },
{
    reveal(reboot_reading);
    let ls = lines(text);
    let p = |l: Seq<char>| trim(l) == "reboot-required"@;
    let q = |l: Seq<char>| reboot_flag(l);
    assert forall|l: Seq<char>| #[trigger] p(l) == q(l) by {}
    lemma_count(ls, q, p);
    if ls.filter(p).len() > 0 {
        ls.lemma_filter_contains_rev(p, ls.filter(p)[0]);
        ls.lemma_filter_pred(p, 0);
        let i = choose|i: int| 0 <= i < ls.len() && ls[i] == ls.filter(p)[0];
        assert(trim(ls[i]) == "reboot-required"@);
    }
    if exists|i: int| 0 <= i < ls.len() && trim(#[trigger] ls[i]) == "reboot-required"@ {
        let i = choose|i: int| 0 <= i < ls.len() && trim(#[trigger] ls[i]) == "reboot-required"@;
        ls.lemma_filter_contains(p, i);
    }
}

/// The line is a block device with an ext, xfs or btrfs file system that is mounted read-only.
pub open spec fn is_readonly(l: Seq<char>) -> bool {
    let w = words(l);
    &&& w.len() >= 4
    &&& starts_with(w[0], "/dev/"@)
    &&& (starts_with(w[2], "ext"@) || w[2] == "xfs"@ || w[2] == "btrfs"@)
    &&& fields(w[3], ',').contains("ro"@)
}

/// The mounts are critical exactly if one of them is read-only that should not be.
pub proof fn law_readonly_mounts(o: OutputsView, text: Seq<char>)
    requires
        collected(o, "cat /proc/mounts"@) == Some(text),
    ensures
        readonly_reading(o).status == if exists|i: int|
            0 <= i < lines(text).len() && is_readonly(#[trigger] lines(text)[i]) {
            HealthStatus::Crit
        } else {
            HealthStatus::Okay
        },
{
    reveal(readonly_reading);
    let ls = lines(text);
    let f = |l: Seq<char>| readonly_mount(l);
    let found = readonly_mounts(text);
    if found.len() > 0 {
        let i = lemma_from(ls, f, 0);
        assert(is_readonly(ls[i]));
    }
    if exists|i: int| 0 <= i < ls.len() && is_readonly(#[trigger] ls[i]) {
        let i = choose|i: int| 0 <= i < ls.len() && is_readonly(#[trigger] ls[i]);
        lemma_kept(ls, f, i);
        assert(found.contains(f(ls[i])->0));
    }
}

} // verus!
