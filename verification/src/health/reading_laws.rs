//! How the lines that a host prints are read: units, containers, mounts, load, wait and sockets.

use super::{HealthStatus, Thresholds};
use super::metrics::{
    all_problems, connections_reading, containers_reading, iowait_reading, load_reading,
    restarting_count,
};
use super::network_laws::lemma_numbers;
use super::parse::{
    all_decimal, container_problem, container_problems, container_uptime, cpu_count, failed_unit,
    load_average, number_after, numbers, process_row, real_mount, sock_stat, sock_step, socket_step,
    socket_summary, tcp_pair, tcp_pairs, unit_seconds, vm_stat, vm_step, SockScanView, SockStat,
    SocketScan, TcpFigures, VmScanView,
};
use crate::anomaly_laws::{lemma_from, lemma_kept};
use crate::audit::{collected, OutputsView};
use crate::double::{
    binary_scale, mantissa, pow2, share_mantissa, share_micros, share_reaches, share_unit, unit,
};
use crate::text::chars::white;
use crate::text::compose::joined;
use crate::text::number::{
    decimal_of, digits, lemma_digits_are_read, lemma_digits_shape, lemma_digits_value, rounded,
    strip_plus, u8_of,
};
use crate::text::search::{mentions, starts_with};
use crate::text::split::{
    blank, column, is_white_fn, lemma_column, lemma_fold_step, lemma_run, lemma_run_ends_at,
    lemma_take_all, lemma_trim_end, lines, not_white_fn, one_of, run, trim, trim_end, trim_end_by,
    trim_start, words,
};
use vstd::prelude::*;

verus! {

/// White space at the end of a text adds no word.
pub proof fn lemma_words_before_blank(s: Seq<char>, b: Seq<char>)
    requires
        blank(b),
    ensures
        words(s + b) == words(s),
    decreases s.len(),
{
    let p = is_white_fn();
    let q = not_white_fn();
    let all = s + b;
    let k = run(s, p);
    lemma_run(s, p);
    let t = trim_start(s);
    if k < s.len() {
        assert(run_at(all, p, k)) by {
            assert forall|j: int| 0 <= j < k implies p(#[trigger] all[j]) by {
                assert(all[j] == s[j]);
            }
            assert(all[k] == s[k]);
        }
        lemma_run_ends_at(all, p, k);
        assert(trim_start(all) =~= t + b);
        let n = run(t, q);
        lemma_run(t, q);
        assert(t[0] == s[k]);
        assert(n > 0);
        assert forall|j: int| 0 <= j < n implies q(#[trigger] (t + b)[j]) by {
            assert((t + b)[j] == t[j]);
        }
        if n < t.len() {
            assert((t + b)[n] == t[n]);
        } else if b.len() > 0 {
            assert((t + b)[n] == b[0]);
        }
        lemma_run_ends_at(t + b, q, n);
        assert((t + b).take(n) =~= t.take(n));
        assert((t + b).skip(n) =~= t.skip(n) + b);
        lemma_words_before_blank(t.skip(n), b);
    } else {
        assert forall|j: int| 0 <= j < all.len() implies p(#[trigger] all[j]) by {
            if j < s.len() {
                assert(all[j] == s[j]);
            } else {
                assert(all[j] == b[j - s.len()]);
            }
        }
        lemma_run_ends_at(all, p, all.len() as int);
        assert(trim_start(all).len() == 0);
        assert(t.len() == 0);
    }
}

spec fn run_at(s: Seq<char>, p: spec_fn(char) -> bool, i: int) -> bool {
    crate::text::split::run_ends_at(s, p, i)
}

/// Trimming a text leaves its words.
pub proof fn lemma_words_trimmed(s: Seq<char>)
    ensures
        words(trim_end(s)) == words(s),
        words(trim_start(s)) == words(s),
        words(trim(s)) == words(s),
{
    lemma_words_trim_end(s);
    let t = trim_start(s);
    lemma_words_trim_end(t);
    let p = is_white_fn();
    lemma_run(s, p);
    if t.len() > 0 {
        assert(t[0] == s[run(s, p)]);
    }
    lemma_run_ends_at(t, p, 0);
    assert(trim_start(t) =~= t);
}

proof fn lemma_words_trim_end(s: Seq<char>)
    ensures
        words(trim_end(s)) == words(s),
{
    lemma_trim_end(s);
    let n = trim_end(s).len() as int;
    let b = s.skip(n);
    assert(s =~= trim_end(s) + b);
    assert forall|j: int| 0 <= j < b.len() implies white(#[trigger] b[j]) by {
        assert(b[j] == s[n + j]);
    }
    lemma_words_before_blank(trim_end(s), b);
}

spec fn mark_set() -> Seq<char> {
    seq!['●', '*', ' ']
}

proof fn lemma_marked(c: char, l: Seq<char>)
    requires
        l.len() > 0,
        !white(l.last()),
        mark_set().contains(c),
    ensures
        crate::text::split::trim_start_by(seq![c] + l, one_of(mark_set()))
            == crate::text::split::trim_start_by(l, one_of(mark_set())),
{
    let s = seq![c] + l;
    assert(s.skip(1) =~= l);
    lemma_run(l, one_of(mark_set()));
    let k = run(l, one_of(mark_set()));
    assert(s.skip(1 + k) =~= l.skip(k));
}

/// A failed unit is the first word of its line, if that has a `.` in it; a bullet or an asterisk
/// before it changes nothing.
pub proof fn law_failed_unit_is_read(l: Seq<char>, c: char)
    requires
        words(l).len() > 0,
        l.len() > 0,
        !white(l[0]),
        c == '●' || c == '*',
    ensures
        l[0] != '●' && l[0] != '*' ==> failed_unit(l) == if words(l)[0].contains('.') {
            Some(words(l)[0])
        } else {
            None
        },
        failed_unit(seq![c] + l) == failed_unit(l),
        failed_unit(seq![c, ' '] + l) == failed_unit(l),
{
    let p = is_white_fn();
    let set = mark_set();
    assert(set[0] == '●' && set[1] == '*' && set[2] == ' ');
    assert(!white('●') && !white('*') && white(' '));
    lemma_words_trimmed(l);
    lemma_run_ends_at(l, p, 0);
    assert(trim_start(l) =~= l);
    let t = trim(l);
    lemma_trim_end(l);
    assert(t.len() > 0) by {
        if t.len() == 0 {
            assert(white(l[0]));
        }
    }
    assert(t[0] == l[0]);
    let q = one_of(set);
    if l[0] != '●' && l[0] != '*' {
        lemma_run_ends_at(t, q, 0);
        assert(t.skip(0) =~= t);
    }
    let a = seq![c] + l;
    lemma_run_ends_at(a, p, 0);
    assert(trim_start(a) =~= a);
    lemma_trim_end(a);
    lemma_same_end(seq![c], l);
    assert(trim(a) =~= seq![c] + t);
    lemma_marked(c, t);
    let b = seq![c, ' '] + l;
    lemma_run_ends_at(b, p, 0);
    assert(trim_start(b) =~= b);
    lemma_same_end(seq![c, ' '], l);
    assert(trim(b) =~= seq![c] + (seq![' '] + t));
    lemma_marked(' ', t);
    lemma_marked(c, seq![' '] + t);
}

proof fn lemma_same_end(a: Seq<char>, l: Seq<char>)
    requires
        trim_end(l).len() > 0,
    ensures
        trim_end(a + l) == a + trim_end(l),
    decreases l.len(),
{
    if white(l.last()) {
        assert((a + l).drop_last() =~= a + l.drop_last());
        assert((a + l).last() == l.last());
        lemma_same_end(a, l.drop_last());
    } else {
        assert((a + l).last() == l.last());
    }
}

/// The line is a container (not the heading, not blank) that tells of itself so.
pub open spec fn container_says(raw: Seq<char>, what: Seq<char>) -> bool {
    &&& words(raw).len() > 0
    &&& !starts_with(trim_end(raw), "CONTAINER ID"@)
    &&& mentions(trim_end(raw), what)
}

/// Some line of one of the listings tells of a container so.
pub open spec fn some_container_says(
    docker: Option<Seq<char>>,
    podman: Option<Seq<char>>,
    what: Seq<char>,
) -> bool {
    ||| docker matches Some(text) && exists|i: int|
        0 <= i < lines(text).len() && container_says(#[trigger] lines(text)[i], what)
    ||| podman matches Some(text) && exists|i: int|
        0 <= i < lines(text).len() && container_says(#[trigger] lines(text)[i], what)
}

proof fn lemma_restarting(ps: Seq<(Seq<char>, Seq<char>)>)
    ensures
        0 <= restarting_count(ps) <= ps.len(),
        restarting_count(ps) > 0 <==> exists|i: int|
            0 <= i < ps.len() && (#[trigger] ps[i]).1 == "restarting"@,
    decreases ps.len(),
{
    if ps.len() > 0 {
        let front = ps.drop_last();
        let n = ps.len() - 1;
        lemma_restarting(front);
        if restarting_count(front) > 0 {
            let i = choose|i: int| 0 <= i < front.len() && (#[trigger] front[i]).1 == "restarting"@;
            assert(ps[i].1 == "restarting"@);
        }
        if exists|i: int| 0 <= i < ps.len() && (#[trigger] ps[i]).1 == "restarting"@ {
            let i = choose|i: int| 0 <= i < ps.len() && (#[trigger] ps[i]).1 == "restarting"@;
            if i < n {
                assert(front[i].1 == "restarting"@);
            }
        }
        if ps.last().1 == "restarting"@ {
            assert(ps[n].1 == "restarting"@);
        }
    }
}

proof fn lemma_problem(raw: Seq<char>)
    ensures
        container_says(raw, "Restarting"@) <==> (container_problem(raw) matches Some(p) && p.1
            == "restarting"@),
        container_says(raw, "Restarting"@) || container_says(raw, "(unhealthy)"@)
            <==> container_problem(raw) is Some,
        container_problem(raw) matches Some(p) ==> p.0 == words(raw).last(),
{
    reveal_strlit("restarting");
    reveal_strlit("unhealthy");
    assert("restarting"@.len() == 10 && "unhealthy"@.len() == 9);
    lemma_words_trimmed(raw);
    if trim_end(raw).len() == 0 {
        assert(trim_start(trim_end(raw)).len() == 0);
        assert(words(trim_end(raw)).len() == 0);
    }
}

proof fn lemma_problems(text: Seq<char>)
    ensures
        ({
            let ps = container_problems(text);
            &&& (exists|i: int|
                0 <= i < lines(text).len() && container_says(
                    #[trigger] lines(text)[i],
                    "Restarting"@,
                )) <==> exists|k: int| 0 <= k < ps.len() && (#[trigger] ps[k]).1 == "restarting"@
            &&& (exists|i: int|
                0 <= i < lines(text).len() && (container_says(
                    #[trigger] lines(text)[i],
                    "Restarting"@,
                ) || container_says(lines(text)[i], "(unhealthy)"@))) <==> ps.len() > 0
        }),
{
    let ls = lines(text);
    let f = |l: Seq<char>| container_problem(l);
    let ps = container_problems(text);
    if exists|i: int| 0 <= i < ls.len() && container_says(#[trigger] ls[i], "Restarting"@) {
        let i = choose|i: int| 0 <= i < ls.len() && container_says(#[trigger] ls[i], "Restarting"@);
        lemma_problem(ls[i]);
        lemma_kept(ls, f, i);
        let k = choose|k: int| 0 <= k < ps.len() && ps[k] == f(ls[i])->0;
        assert(ps[k].1 == "restarting"@);
    }
    if exists|k: int| 0 <= k < ps.len() && (#[trigger] ps[k]).1 == "restarting"@ {
        let k = choose|k: int| 0 <= k < ps.len() && (#[trigger] ps[k]).1 == "restarting"@;
        let i = lemma_from(ls, f, k);
        lemma_problem(ls[i]);
        assert(container_says(ls[i], "Restarting"@));
    }
    if exists|i: int|
        0 <= i < ls.len() && (container_says(#[trigger] ls[i], "Restarting"@) || container_says(
            ls[i],
            "(unhealthy)"@,
        )) {
        let i = choose|i: int|
            0 <= i < ls.len() && (container_says(#[trigger] ls[i], "Restarting"@) || container_says(
                ls[i],
                "(unhealthy)"@,
            ));
        lemma_problem(ls[i]);
        lemma_kept(ls, f, i);
    }
    if ps.len() > 0 {
        let i = lemma_from(ls, f, 0);
        lemma_problem(ls[i]);
        assert(container_says(ls[i], "Restarting"@) || container_says(ls[i], "(unhealthy)"@));
    }
}

/// Containers are critical exactly if one is restarting, else a warning exactly if one is
/// unhealthy, whichever engine lists it.
pub proof fn law_containers(o: OutputsView)
    ensures
        ({
            let docker = collected(o, "docker ps -a"@);
            let podman = collected(o, "podman ps -a"@);
            containers_reading(o).status == if docker is None && podman is None {
                HealthStatus::Unknown
            } else if some_container_says(docker, podman, "Restarting"@) {
                HealthStatus::Crit
            } else if some_container_says(docker, podman, "(unhealthy)"@) {
                HealthStatus::Warn
            } else {
                HealthStatus::Okay
            }
        }),
{
    reveal(containers_reading);
    let docker = collected(o, "docker ps -a"@);
    let podman = collected(o, "podman ps -a"@);
    let a = match docker {
        Some(text) => container_problems(text),
        None => Seq::empty(),
    };
    let b = match podman {
        Some(text) => container_problems(text),
        None => Seq::empty(),
    };
    let ps = all_problems(docker, podman);
    assert(ps == a + b);
    lemma_restarting(ps);
    if docker is Some {
        lemma_problems(docker->0);
    }
    if podman is Some {
        lemma_problems(podman->0);
    }
    if restarting_count(ps) > 0 {
        let i = choose|i: int| 0 <= i < ps.len() && (#[trigger] ps[i]).1 == "restarting"@;
        if i < a.len() {
            assert(a[i].1 == "restarting"@);
        } else {
            assert(b[i - a.len()].1 == "restarting"@);
        }
        assert(some_container_says(docker, podman, "Restarting"@));
    }
    if exists|k: int| 0 <= k < a.len() && (#[trigger] a[k]).1 == "restarting"@ {
        let k = choose|k: int| 0 <= k < a.len() && (#[trigger] a[k]).1 == "restarting"@;
        assert(ps[k].1 == "restarting"@);
    }
    if exists|k: int| 0 <= k < b.len() && (#[trigger] b[k]).1 == "restarting"@ {
        let k = choose|k: int| 0 <= k < b.len() && (#[trigger] b[k]).1 == "restarting"@;
        assert(ps[a.len() + k].1 == "restarting"@);
    }
}

/// So many seconds make up one unit of time, as container listings name it.
pub open spec fn lasts(unit: Seq<char>, secs: u64) -> bool {
    ||| (unit == "second"@ || unit == "seconds"@) && secs == 1
    ||| (unit == "minute"@ || unit == "minutes"@) && secs == 60
    ||| (unit == "hour"@ || unit == "hours"@) && secs == 60 * 60
    ||| (unit == "day"@ || unit == "days"@) && secs == 24 * 60 * 60
    ||| (unit == "week"@ || unit == "weeks"@) && secs == 7 * 24 * 60 * 60
    ||| (unit == "month"@ || unit == "months"@) && secs == 30 * 24 * 60 * 60
    ||| (unit == "year"@ || unit == "years"@) && secs == 365 * 24 * 60 * 60
}

proof fn lemma_plural(u: Seq<char>)
    requires
        u.len() > 0,
        u.last() != 's',
    ensures
        trim_end_by(u, one_of(seq!['s'])) == u,
        trim_end_by(u + "s"@, one_of(seq!['s'])) == u,
{
    reveal_strlit("s");
    let set = seq!['s'];
    assert(set.contains('s')) by {
        assert(set[0] == 's');
    }
    assert(!set.contains(u.last()));
    let v = u + "s"@;
    assert(v.last() == 's');
    assert(v.drop_last() =~= u);
}

proof fn lemma_lasts(unit: Seq<char>, secs: u64)
    requires
        lasts(unit, secs),
    ensures
        unit_seconds(unit) == Some(secs),
{
    reveal_strlit("s");
    reveal_strlit("second");
    reveal_strlit("seconds");
    reveal_strlit("minute");
    reveal_strlit("minutes");
    reveal_strlit("hour");
    reveal_strlit("hours");
    reveal_strlit("day");
    reveal_strlit("days");
    reveal_strlit("week");
    reveal_strlit("weeks");
    reveal_strlit("month");
    reveal_strlit("months");
    reveal_strlit("year");
    reveal_strlit("years");
    assert("second"@ + "s"@ =~= "seconds"@);
    assert("minute"@ + "s"@ =~= "minutes"@);
    assert("hour"@ + "s"@ =~= "hours"@);
    assert("day"@ + "s"@ =~= "days"@);
    assert("week"@ + "s"@ =~= "weeks"@);
    assert("month"@ + "s"@ =~= "months"@);
    assert("year"@ + "s"@ =~= "years"@);
    lemma_plural("second"@);
    lemma_plural("minute"@);
    lemma_plural("hour"@);
    lemma_plural("day"@);
    lemma_plural("week"@);
    lemma_plural("month"@);
    lemma_plural("year"@);
    assert("second"@[0] == 's' && "minute"@[0] == 'm' && "hour"@[0] == 'h' && "day"@[0] == 'd'
        && "week"@[0] == 'w' && "month"@[1] == 'o' && "minute"@[1] == 'i' && "month"@[0] == 'm'
        && "year"@[0] == 'y');
}

/// Line `raw` lists a container, and word `i` is the first `Up` in it.
pub open spec fn up_at(raw: Seq<char>, i: int) -> bool {
    &&& !starts_with(trim_end(raw), "CONTAINER ID"@)
    &&& 0 <= i < words(raw).len()
    &&& words(raw)[i] == "Up"@
    &&& forall|j: int| 0 <= j < i ==> words(raw)[j] != "Up"@
}

/// A container that is `Up` for a number of units has been up for as many times what the unit
/// lasts; its name is the last word.
pub proof fn law_container_uptime(raw: Seq<char>, i: int, n: u64, unit: Seq<char>, secs: u64)
    requires
        up_at(raw, i),
        lasts(unit, secs),
        i + 2 < words(raw).len(),
    ensures
        words(raw)[i + 1] == digits(n as int) && words(raw)[i + 2] == unit ==> container_uptime(raw)
            == if n * secs <= u64::MAX {
            Some((words(raw).last(), (n * secs) as u64))
        } else {
            None
        },
        (words(raw)[i + 1] == "a"@ || words(raw)[i + 1] == "an"@) && words(raw)[i + 2] == unit
            ==> container_uptime(raw) == Some((words(raw).last(), secs)),
        words(raw)[i + 1] == "About"@ && i + 3 < words(raw).len() && words(raw)[i + 3] == unit
            ==> container_uptime(raw) == Some((words(raw).last(), secs)),
        words(raw)[i + 1] == "Less"@ ==> container_uptime(raw) == Some(
            (words(raw).last(), 0u64),
        ),
{
    reveal_strlit("a");
    reveal_strlit("an");
    reveal_strlit("About");
    reveal_strlit("Less");
    lemma_words_trimmed(raw);
    let ws = words(raw);
    lemma_column(ws, "Up"@);
    if trim_end(raw).len() == 0 {
        assert(trim_start(trim_end(raw)).len() == 0);
        assert(words(trim_end(raw)).len() == 0);
    }
    let rest = ws.skip(i + 1);
    assert(rest[0] == ws[i + 1] && rest[1] == ws[i + 2]);
    if i + 3 < ws.len() {
        assert(rest[2] == ws[i + 3]);
    }
    lemma_lasts(unit, secs);
    assert(1 * secs == secs);
    lemma_digits_value(n);
    lemma_digits_shape(n as int);
    assert("Less"@[0] == 'L' && "About"@[0] == 'A' && "a"@[0] == 'a' && "an"@[0] == 'a');
    assert("Less"@.len() == 4 && "a"@.len() == 1 && "an"@.len() == 2 && "About"@.len() == 5);
    assert('0' <= digits(n as int)[0] <= '9');
}

/// The path is the directory or lies in it.
pub open spec fn lies_in(path: Seq<char>, dir: Seq<char>) -> bool {
    path == dir || (starts_with(path, dir) && path.len() > dir.len() && path[dir.len() as int]
        == '/')
}

proof fn lemma_lies_in(path: Seq<char>, dir: Seq<char>)
    ensures
        lies_in(path, dir) <==> super::parse::under(path, dir),
{
    reveal_strlit("/");
    let n = dir.len() as int;
    let s = dir + "/"@;
    if starts_with(path, s) {
        assert(path.take(n) =~= s.take(n));
        assert(s.take(n) =~= dir);
        assert(path[n] == path.take(n + 1)[n]);
        assert(s[n] == '/');
    }
    if starts_with(path, dir) && path.len() > n && path[n] == '/' {
        assert(path.take(n + 1) =~= s) by {
            assert forall|j: int| 0 <= j < n + 1 implies path.take(n + 1)[j] == s[j] by {
                if j < n {
                    assert(path.take(n)[j] == path[j]);
                }
            }
        }
    }
}

/// A mount is told by the first word of its line, the fifth, a percentage, and those from the
/// sixth on; the kernel's own file systems are left out.
pub proof fn law_mount_is_read(l: Seq<char>, pct: u8)
    requires
        words(l).len() >= 6,
        words(l)[0] != "Filesystem"@,
        words(l)[4] == digits(pct as int) + "%"@,
    ensures
        ({
            let source = words(l)[0];
            let mount = joined(words(l).skip(5), " "@);
            let own = source == "tmpfs"@ || source == "devtmpfs"@ || source == "overlay"@ || source
                == "none"@ || lies_in(mount, "/dev"@) || lies_in(mount, "/run"@) || lies_in(
                mount,
                "/sys"@,
            ) || lies_in(mount, "/proc"@);
            match real_mount(l) {
                None => own,
                Some(m) => !own && m.source == source && m.use_pct == pct && m.mount == mount,
            }
        }),
{
    reveal_strlit("%");
    let d = digits(pct as int);
    let set = seq!['%'];
    assert(set[0] == '%');
    lemma_digits_shape(pct as int);
    lemma_digits_are_read(pct as int);
    assert((d + "%"@).last() == '%');
    assert((d + "%"@).drop_last() =~= d);
    assert('0' <= d[d.len() - 1] <= '9');
    assert(!set.contains(d.last()));
    assert(trim_end_by(d, one_of(set)) == d);
    assert(set.contains('%'));
    assert(trim_end_by(d + "%"@, one_of(set)) == d);
    assert('0' <= d[0] <= '9');
    assert(strip_plus(d) == d);
    assert(u8_of(d) == Some(pct));
    let mount = joined(words(l).skip(5), " "@);
    lemma_lies_in(mount, "/dev"@);
    lemma_lies_in(mount, "/run"@);
    lemma_lies_in(mount, "/sys"@);
    lemma_lies_in(mount, "/proc"@);
}

/// A row of the process table is told by its first four words.
pub proof fn law_process_is_read(l: Seq<char>, pid: u32, cpu: i64, mem: i64)
    requires
        words(l).len() >= 4,
        words(l)[0] == digits(pid as int),
        decimal_of(words(l)[2]) == Some(cpu),
        decimal_of(words(l)[3]) == Some(mem),
    ensures
        process_row(l) matches Some(p) && p.pid == pid && p.comm == words(l)[1] && p.cpu == cpu
            && p.mem == mem,
{
    reveal_strlit("PID");
    lemma_digits_are_read(pid as int);
    lemma_digits_shape(pid as int);
    assert('0' <= digits(pid as int)[0] <= '9');
    assert("PID"@[0] == 'P');
    assert(strip_plus(digits(pid as int)) == digits(pid as int));
}

/// Line `i` is the last with the word `wa`, in column `k`.
pub open spec fn last_heading(ls: Seq<Seq<char>>, i: int, k: int) -> bool {
    &&& 0 <= i < ls.len()
    &&& column(words(ls[i]), "wa"@) == Some(k)
    &&& forall|j: int| i < j < ls.len() ==> column(words(#[trigger] ls[j]), "wa"@) is None
}

/// The line holds nothing but numbers, at least one.
pub open spec fn sample_line(l: Seq<char>) -> bool {
    words(l).len() > 0 && column(words(l), "wa"@) is None && all_decimal(words(l))
}

/// Line `i` is the last one of numbers.
pub open spec fn last_sample(ls: Seq<Seq<char>>, i: int) -> bool {
    &&& 0 <= i < ls.len()
    &&& sample_line(ls[i])
    &&& forall|j: int| i < j < ls.len() ==> !sample_line(#[trigger] ls[j])
}

spec fn vm_end(ls: Seq<Seq<char>>) -> VmScanView {
    ls.fold_left(
        (VmScanView { columns: None, data: None }),
        |st: VmScanView, l: Seq<char>| vm_step(st, l),
    )
}

proof fn lemma_vm(ls: Seq<Seq<char>>, i: int, k: int, j: int)
    ensures
        last_heading(ls, i, k) ==> vm_end(ls).columns == Some(
            (k, column(words(ls[i]), "st"@), column(words(ls[i]), "b"@)),
        ),
        last_sample(ls, j) ==> vm_end(ls).data == Some(super::parse::decimals(words(ls[j]))),
    decreases ls.len(),
{
    if ls.len() > 0 {
        let n = ls.len() - 1;
        let front = ls.drop_last();
        lemma_vm(front, i, k, j);
        assert(vm_end(ls) == vm_step(vm_end(front), ls.last()));
        if last_heading(ls, i, k) {
            if i < n {
                assert(column(words(ls[n]), "wa"@) is None);
                assert forall|m: int| i < m < front.len() implies column(
                    words(#[trigger] front[m]),
                    "wa"@,
                ) is None by {
                    assert(front[m] == ls[m]);
                }
                assert(last_heading(front, i, k));
            } else {
                assert(words(ls[n]).len() > 0);
            }
        }
        if last_sample(ls, j) {
            if j < n {
                assert(!sample_line(ls[n]));
                assert forall|m: int| j < m < front.len() implies !sample_line(
                    #[trigger] front[m],
                ) by {
                    assert(front[m] == ls[m]);
                }
                assert(last_sample(front, j));
            }
        }
    }
}

/// IO wait is the number under `wa` in the last sample, graded by the thresholds.
pub proof fn law_io_wait(
    o: OutputsView,
    thr: Thresholds,
    text: Seq<char>,
    i: int,
    k: int,
    j: int,
    wait: i64,
)
    requires
        collected(o, "vmstat 1 2"@) == Some(text),
        last_heading(lines(text), i, k),
        last_sample(lines(text), j),
        k < words(lines(text)[j]).len(),
        decimal_of(words(lines(text)[j])[k]) == Some(wait),
    ensures
        iowait_reading(o, thr).numeric == Some(wait),
        iowait_reading(o, thr).status == if wait >= thr.iowait_crit_pct {
            HealthStatus::Crit
        } else if wait >= thr.iowait_warn_pct {
            HealthStatus::Warn
        } else {
            HealthStatus::Okay
        },
{
    reveal(iowait_reading);
    let ls = lines(text);
    lemma_vm(ls, i, k, j);
    lemma_column(words(ls[i]), "wa"@);
    assert(vm_stat(text) is Some);
}

/// The blocked processes and the stolen time are the numbers under `b` and `st` in the last sample;
/// without such a column they are none.
pub proof fn law_samples_by_column(text: Seq<char>, i: int, k: int, j: int, c: int, v: i64)
    requires
        last_heading(lines(text), i, k),
        last_sample(lines(text), j),
        k < words(lines(text)[j]).len(),
        0 <= c < words(lines(text)[j]).len(),
        decimal_of(words(lines(text)[j])[c]) == Some(v),
    ensures
        column(words(lines(text)[i]), "st"@) == Some(c) ==> (vm_stat(text) matches Some(s)
            && s.steal == v),
        column(words(lines(text)[i]), "st"@) is None ==> (vm_stat(text) matches Some(s) && s.steal
            == 0),
        column(words(lines(text)[i]), "b"@) == Some(c) && v >= 0 ==> (vm_stat(text) matches Some(s)
            && s.blocked * 1_000_000 <= v < (s.blocked + 1) * 1_000_000),
{
    let ls = lines(text);
    lemma_vm(ls, i, k, j);
    lemma_column(words(ls[i]), "wa"@);
    assert(vm_stat(text) is Some);
}

spec fn socket_end(ls: Seq<Seq<char>>) -> SocketScan {
    ls.fold_left(
        (SocketScan { total: None, tcp_estab: 0 }),
        |st: SocketScan, l: Seq<char>| socket_step(st, l),
    )
}

/// Line `i` is the first to tell the total.
pub open spec fn first_total(ls: Seq<Seq<char>>, i: int, n: u64) -> bool {
    &&& 0 <= i < ls.len()
    &&& number_after(ls[i], "Total:"@) == Some(n)
    &&& forall|j: int| 0 <= j < i ==> number_after(#[trigger] ls[j], "Total:"@) is None
}

/// The line tells how many TCP connections are established.
pub open spec fn tells_established(l: Seq<char>) -> bool {
    starts_with(trim_start(l), "TCP:"@) && number_after(l, "estab "@) is Some
}

/// Line `i` is the last to tell how many TCP connections are established.
pub open spec fn last_established(ls: Seq<Seq<char>>, i: int, n: u64) -> bool {
    &&& 0 <= i < ls.len()
    &&& tells_established(ls[i])
    &&& number_after(ls[i], "estab "@) == Some(n)
    &&& forall|j: int| i < j < ls.len() ==> !tells_established(#[trigger] ls[j])
}

proof fn lemma_sockets(ls: Seq<Seq<char>>, i: int, total: u64, j: int, n: u64)
    ensures
        first_total(ls, i, total) ==> socket_end(ls).total == Some(total),
        (forall|m: int| 0 <= m < ls.len() ==> number_after(#[trigger] ls[m], "Total:"@) is None)
            ==> socket_end(ls).total is None,
        last_established(ls, j, n) ==> socket_end(ls).tcp_estab == n,
    decreases ls.len(),
{
    if ls.len() > 0 {
        let front = ls.drop_last();
        let e = ls.len() - 1;
        lemma_sockets(front, i, total, j, n);
        assert(socket_end(ls) == socket_step(socket_end(front), ls.last()));
        assert forall|m: int| 0 <= m < front.len() implies #[trigger] front[m] == ls[m] by {}
        if first_total(ls, i, total) {
            if i < e {
                assert(first_total(front, i, total));
            } else {
                assert(forall|m: int| 0 <= m < front.len() ==> number_after(#[trigger] front[m], "Total:"@)
                    is None);
            }
        }
        if forall|m: int| 0 <= m < ls.len() ==> number_after(#[trigger] ls[m], "Total:"@) is None {
            assert(number_after(ls[e], "Total:"@) is None);
        }
        if last_established(ls, j, n) {
            if j < e {
                assert(!tells_established(ls[e]));
                assert(last_established(front, j, n));
            }
        }
    }
}

/// Connections are told by the first total and the last number of established ones; they are
/// never a fault.
pub proof fn law_connections(
    o: OutputsView,
    text: Seq<char>,
    i: int,
    total: u64,
    j: int,
    n: u64,
)
    requires
        collected(o, "ss -s"@) == Some(text),
        first_total(lines(text), i, total),
        last_established(lines(text), j, n),
    ensures
        connections_reading(o).status == HealthStatus::Okay,
        connections_reading(o).value == digits(n as int) + " established"@,
        connections_reading(o).detail == digits(total as int) + " sockets total"@,
        n * 1_000_000 <= i64::MAX ==> connections_reading(o).numeric == Some(
            (n * 1_000_000) as i64,
        ),
{
    reveal(connections_reading);
    lemma_sockets(lines(text), i, total, j, n);
    assert(socket_summary(text) is Some);
}

spec fn bits() -> int {
    0x20_0000_0000_0000
}

proof fn lemma_pow2(n: int)
    ensures
        pow2(n) >= 1,
    decreases n,
{
    if n > 0 {
        lemma_pow2(n - 1);
    }
}

/// Doubling stops once the quotient is wide enough.
proof fn lemma_wide(num: int, den: int)
    requires
        num > 0,
        den > 0,
    ensures
        num * pow2(binary_scale(num, den)) >= 0x10_0000_0000_0000 * den,
        binary_scale(num, den) >= 0,
    decreases 0x20_0000_0000_0000 * den - num,
{
    if num < 0x10_0000_0000_0000 * den {
        lemma_wide(2 * num, den);
        let p = pow2(binary_scale(2 * num, den));
        assert(num * (2 * p) == (2 * num) * p) by (nonlinear_arith);
        assert(pow2(binary_scale(num, den)) == 2 * p);
    } else {
        assert(pow2(0) == 1);
        assert(num * 1 == num);
    }
}

/// The mantissa is the scaled quotient, but for one part in twice its width.
proof fn lemma_mantissa(num: int, den: int)
    requires
        num > 0,
        den > 0,
    ensures
        unit(num, den) >= 1,
        mantissa(num, den) > 0,
        (bits() - 1) * (num * unit(num, den)) <= bits() * (mantissa(num, den) * den),
        bits() * (mantissa(num, den) * den) <= (bits() + 1) * (num * unit(num, den)),
{
    lemma_wide(num, den);
    lemma_pow2(binary_scale(num, den));
    let a = num * unit(num, den);
    let m = mantissa(num, den);
    let q = a / den;
    let r = a % den;
    assert(a == den * q + r && 0 <= r < den) by (nonlinear_arith)
        requires
            den > 0,
            q == a / den,
            r == a % den,
    ;
    assert((q + 1) * den == den * q + den) by (nonlinear_arith);
    assert(q * den == den * q) by (nonlinear_arith);
    assert(-den <= 2 * (m * den - a) <= den);
    assert(m > 0) by (nonlinear_arith)
        requires
            -den <= 2 * (m * den - a),
            a >= 0x10_0000_0000_0000 * den,
            den > 0,
    ;
    let e = m * den;
    let k = bits();
    assert((k - 1) * a <= k * e && k * e <= (k + 1) * a) by (nonlinear_arith)
        requires
            k == 0x20_0000_0000_0000,
            -den <= 2 * (e - a) <= den,
            a >= 0x10_0000_0000_0000 * den,
    ;
}

proof fn lemma_covers(m: int, n: int, b: int)
    requires
        m > 0,
        n > 0,
        b > 0,
    ensures
        m * 999_999_999_999 >= (b * n) * 1_000_000_000_000 ==> share_reaches(m, n, b),
        m * 1_000_000_000_000 < (b * n) * 999_999_999_999 ==> !share_reaches(m, n, b),
{
    let k = bits();
    let (m1, u1) = (mantissa(m, 1_000_000), unit(m, 1_000_000));
    lemma_mantissa(m, 1_000_000);
    let (m2, u2) = (mantissa(m1, n), unit(m1, n));
    lemma_mantissa(m1, n);
    let (mb, ub) = (mantissa(b, 1_000_000), unit(b, 1_000_000));
    lemma_mantissa(b, 1_000_000);
    let u = u1 * u2;
    assert(share_mantissa(m, n) == m2 && share_unit(m, n) == u);
    let w = u * ub;
    assert(u >= 1) by (nonlinear_arith)
        requires
            u == u1 * u2,
            u1 >= 1,
            u2 >= 1,
    ;
    assert(w >= 1) by (nonlinear_arith)
        requires
            w == u * ub,
            u >= 1,
            ub >= 1,
    ;
    // The share, with all the units brought to one side.
    let x = m2 * n * 1_000_000;
    assert((k - 1) * ((k - 1) * (m * u)) <= k * (k * x) && k * (k * x) <= (k + 1) * ((k + 1) * (m
        * u))) by {
        let y = m1 * 1_000_000;
        assert(k * x == 1_000_000 * (k * (m2 * n))) by (nonlinear_arith)
            requires
                x == m2 * n * 1_000_000,
        ;
        assert(1_000_000 * (m1 * u2) == y * u2) by (nonlinear_arith)
            requires
                y == m1 * 1_000_000,
        ;
        assert((k - 1) * (y * u2) <= k * x && k * x <= (k + 1) * (y * u2));
        assert(k * (y * u2) == (k * y) * u2) by (nonlinear_arith);
        assert(((k - 1) * (m * u1)) * u2 == (k - 1) * (m * u)) by (nonlinear_arith)
            requires
                u == u1 * u2,
        ;
        assert(((k + 1) * (m * u1)) * u2 == (k + 1) * (m * u)) by (nonlinear_arith)
            requires
                u == u1 * u2,
        ;
        assert((k - 1) * (m * u) <= k * (y * u2)) by (nonlinear_arith)
            requires
                ((k - 1) * (m * u1)) * u2 == (k - 1) * (m * u),
                k * (y * u2) == (k * y) * u2,
                (k - 1) * (m * u1) <= k * y,
                u2 >= 1,
        ;
        assert(k * (y * u2) <= (k + 1) * (m * u)) by (nonlinear_arith)
            requires
                ((k + 1) * (m * u1)) * u2 == (k + 1) * (m * u),
                k * (y * u2) == (k * y) * u2,
                (k + 1) * (m * u1) >= k * y,
                u2 >= 1,
        ;
    }
    let s = m2 * ub;
    let t = mb * u;
    let f = n * 1_000_000;
    assert(s * f == x * ub) by (nonlinear_arith)
        requires
            s == m2 * ub,
            f == n * 1_000_000,
            x == m2 * n * 1_000_000,
    ;
    assert(t * f == (mb * 1_000_000) * (u * n)) by (nonlinear_arith)
        requires
            t == mb * u,
            f == n * 1_000_000,
    ;
    let mw = m * w;
    let bw = (b * n) * w;
    assert((m * u) * ub == mw) by (nonlinear_arith)
        requires
            w == u * ub,
            mw == m * w,
    ;
    assert((k - 1) * ((k - 1) * mw) <= k * (k * (s * f)) && k * (k * (s * f)) <= (k + 1) * ((k + 1)
        * mw)) by {
        let z = m * u;
        assert(((k - 1) * ((k - 1) * z)) * ub == (k - 1) * ((k - 1) * mw)) by (nonlinear_arith)
            requires
                z * ub == mw,
        ;
        assert(((k + 1) * ((k + 1) * z)) * ub == (k + 1) * ((k + 1) * mw)) by (nonlinear_arith)
            requires
                z * ub == mw,
        ;
        assert((k * (k * x)) * ub == k * (k * (s * f))) by (nonlinear_arith)
            requires
                s * f == x * ub,
        ;
        assert(((k - 1) * ((k - 1) * z)) * ub <= (k * (k * x)) * ub && (k * (k * x)) * ub <= ((k + 1)
            * ((k + 1) * z)) * ub) by (nonlinear_arith)
            requires
                (k - 1) * ((k - 1) * z) <= k * (k * x),
                k * (k * x) <= (k + 1) * ((k + 1) * z),
                ub >= 1,
        ;
    }
    assert((k - 1) * bw <= k * (t * f) && k * (t * f) <= (k + 1) * bw) by {
        let z = b * ub;
        let v = mb * 1_000_000;
        let g = u * n;
        assert(g >= 1) by (nonlinear_arith)
            requires
                g == u * n,
                u >= 1,
                n > 0,
        ;
        assert(z * g == bw) by (nonlinear_arith)
            requires
                z == b * ub,
                g == u * n,
                w == u * ub,
                bw == (b * n) * w,
        ;
        assert(((k - 1) * z) * g == (k - 1) * bw) by (nonlinear_arith)
            requires
                z * g == bw,
        ;
        assert(((k + 1) * z) * g == (k + 1) * bw) by (nonlinear_arith)
            requires
                z * g == bw,
        ;
        assert((k * v) * g == k * (t * f)) by (nonlinear_arith)
            requires
                t * f == v * g,
        ;
        assert(((k - 1) * z) * g <= (k * v) * g && (k * v) * g <= ((k + 1) * z) * g)
            by (nonlinear_arith)
            requires
                (k - 1) * z <= k * v,
                k * v <= (k + 1) * z,
                g >= 1,
        ;
    }
    assert(f > 0);
    assert(mw > 0 && bw > 0) by (nonlinear_arith)
        requires
            mw == m * w,
            bw == (b * n) * w,
            m > 0,
            b > 0,
            n > 0,
            w >= 1,
    ;
    if m * 999_999_999_999 >= (b * n) * 1_000_000_000_000 {
        let c = b * n;
        assert(mw * 999_999_999_999 >= bw * 1_000_000_000_000) by (nonlinear_arith)
            requires
                mw == m * w,
                bw == c * w,
                m * 999_999_999_999 >= c * 1_000_000_000_000,
                w >= 1,
        ;
        assert(s * f >= t * f);
        assert(s >= t) by (nonlinear_arith)
            requires
                s * f >= t * f,
                f > 0,
        ;
    }
    if m * 1_000_000_000_000 < (b * n) * 999_999_999_999 {
        let c = b * n;
        assert(mw * 1_000_000_000_000 < bw * 999_999_999_999) by (nonlinear_arith)
            requires
                mw == m * w,
                bw == c * w,
                m * 1_000_000_000_000 < c * 999_999_999_999,
                w >= 1,
        ;
        assert(s * f < t * f);
        assert(s < t) by (nonlinear_arith)
            requires
                s * f < t * f,
                f > 0,
        ;
    }
    assert(t == mb * share_unit(m, n));
}

/// The load is told per core: what it is graded by is the last minute's, over the number of
/// cores, but for one part in a million million.
pub proof fn law_load_per_core(
    o: OutputsView,
    thr: Thresholds,
    up: Seq<char>,
    np: Seq<char>,
    one: i64,
    five: i64,
    fifteen: i64,
    cores: u32,
)
    requires
        collected(o, "uptime"@) == Some(up),
        collected(o, "nproc"@) == Some(np),
        load_average(up) == Some((one, five, fifteen)),
        cpu_count(np) == Some(cores),
        cores > 0,
        one > 0,
        0 < thr.la_per_core_warn <= thr.la_per_core_crit,
    ensures
        ({
            let status = load_reading(o, thr).status;
            let (warn, crit) = (cores * thr.la_per_core_warn, cores * thr.la_per_core_crit);
            &&& one * 999_999_999_999 >= crit * 1_000_000_000_000 ==> status == HealthStatus::Crit
            &&& one * 1_000_000_000_000 < crit * 999_999_999_999 ==> status != HealthStatus::Crit
            &&& one * 999_999_999_999 >= warn * 1_000_000_000_000 ==> status == HealthStatus::Crit
                || status == HealthStatus::Warn
            &&& one * 1_000_000_000_000 < warn * 999_999_999_999 ==> status == HealthStatus::Okay
        }),
{
    reveal(load_reading);
    let (m, n, w, c) = (
        one as int,
        cores as int,
        thr.la_per_core_warn as int,
        thr.la_per_core_crit as int,
    );
    lemma_covers(m, n, w);
    lemma_covers(m, n, c);
    assert(w * n == n * w && c * n == n * c) by (nonlinear_arith);
    assert(n * w <= n * c) by (nonlinear_arith)
        requires
            w <= c,
            n > 0,
    ;
}

/// On a single core, a load of exactly a threshold reaches it.
pub proof fn law_load_at_the_threshold(m: i64)
    requires
        m > 0,
    ensures
        share_reaches(m as int, 1, m as int),
{
    let m1 = mantissa(m as int, 1_000_000);
    lemma_wide(m as int, 1_000_000);
    lemma_mantissa(m as int, 1_000_000);
    let u1 = unit(m as int, 1_000_000);
    assert(m1 >= 0x10_0000_0000_0000) by {
        let a = m * u1;
        let q = a / 1_000_000;
        assert(a >= 0x10_0000_0000_0000 * 1_000_000);
        assert(q >= 0x10_0000_0000_0000);
    }
    assert(binary_scale(m1, 1) == 0);
    assert(unit(m1, 1) == 1 && pow2(0) == 1);
    assert(mantissa(m1, 1) == m1) by {
        assert(m1 * pow2(0) == m1) by (nonlinear_arith)
            requires
                pow2(0) == 1,
        ;
        assert(rounded(m1, 1) == m1);
    }
    assert(share_mantissa(m as int, 1) == m1 && share_unit(m as int, 1) == u1 * 1);
    assert(m1 * u1 >= m1 * (u1 * 1));
}

/// With no load there is nothing wrong, and without a core nothing is known.
pub proof fn law_idle_load(
    o: OutputsView,
    thr: Thresholds,
    up: Seq<char>,
    np: Seq<char>,
    figures: (i64, i64, i64),
    cores: u32,
)
    requires
        collected(o, "uptime"@) == Some(up),
        collected(o, "nproc"@) == Some(np),
        load_average(up) == Some(figures),
        cpu_count(np) == Some(cores),
        0 < thr.la_per_core_warn <= thr.la_per_core_crit,
    ensures
        cores == 0 ==> load_reading(o, thr).status == HealthStatus::Unknown,
        cores > 0 && figures.0 == 0 ==> load_reading(o, thr).status == HealthStatus::Okay
            && load_reading(o, thr).numeric == Some(0i64),
{
    reveal(load_reading);
    if cores > 0 && figures.0 == 0 {
        let n = cores as int;
        assert(mantissa(0, 1_000_000) == 0 && unit(0, 1_000_000) == 1);
        assert(mantissa(0, n) == 0 && unit(0, n) == 1) by {
            assert(binary_scale(0, n) == 0);
            assert(pow2(0) == 1);
            assert(rounded(0, n) == 0) by {
                assert(0int / n == 0 && 0int % n == 0) by (nonlinear_arith)
                    requires
                        n > 0,
                ;
            }
        }
        lemma_mantissa(thr.la_per_core_warn as int, 1_000_000);
        lemma_mantissa(thr.la_per_core_crit as int, 1_000_000);
        let (uw, uc) = (
            unit(thr.la_per_core_warn as int, 1_000_000),
            unit(thr.la_per_core_crit as int, 1_000_000),
        );
        assert(0 * uw == 0 && 0 * uc == 0);
        assert(share_mantissa(0, n) == 0 && share_unit(0, n) == 1);
        assert(!share_reaches(0, n, thr.la_per_core_crit as int));
        assert(!share_reaches(0, n, thr.la_per_core_warn as int));
        assert(share_micros(0, n) == 0);
    }
}

/// The line tells nothing of TCP and holds no bare numbers.
pub open spec fn silent(l: Seq<char>) -> bool {
    !starts_with(trim(l), "TCP:"@) && (trim(l).contains(':') || numbers(words(trim(l))).len() == 0)
}

/// The line holds nothing but these numbers.
pub open spec fn numbers_line(l: Seq<char>, ns: Seq<u64>) -> bool {
    &&& !trim(l).contains(':')
    &&& ns.len() > 0
    &&& words(trim(l)).len() == ns.len()
    &&& forall|i: int| 0 <= i < ns.len() ==> #[trigger] words(trim(l))[i] == digits(ns[i] as int)
}

/// The line gives the figures of the TCP sockets, by name.
pub open spec fn tcp_line(
    l: Seq<char>,
    inuse: u64,
    orphan: u64,
    tw: u64,
    alloc: u64,
    mem: u64,
) -> bool {
    starts_with(trim(l), "TCP:"@) && words(trim(l).skip(4)) == seq![
        "inuse"@,
        digits(inuse as int),
        "orphan"@,
        digits(orphan as int),
        "tw"@,
        digits(tw as int),
        "alloc"@,
        digits(alloc as int),
        "mem"@,
        digits(mem as int),
    ]
}

spec fn socks(ls: Seq<Seq<char>>, n: int) -> SockScanView {
    ls.take(n).fold_left(
        (SockScanView {
            figures: TcpFigures { mem: None, orphan: None, tw: None },
            ceilings: Seq::empty(),
        }),
        |st: SockScanView, l: Seq<char>| sock_step(st, l),
    )
}

proof fn lemma_socks(ls: Seq<Seq<char>>, n: int)
    requires
        0 <= n < ls.len(),
    ensures
        socks(ls, n + 1) == sock_step(socks(ls, n), ls[n]),
{
    lemma_fold_step(
        ls,
        (SockScanView {
            figures: TcpFigures { mem: None, orphan: None, tw: None },
            ceilings: Seq::empty(),
        }),
        |st: SockScanView, l: Seq<char>| sock_step(st, l),
        n,
    );
}

proof fn lemma_silent(ls: Seq<Seq<char>>, from: int, to: int)
    requires
        0 <= from <= to <= ls.len(),
        forall|j: int| from <= j < to ==> silent(#[trigger] ls[j]),
    ensures
        socks(ls, to) == socks(ls, from),
    decreases to - from,
{
    if from < to {
        lemma_silent(ls, from, to - 1);
        lemma_socks(ls, to - 1);
        assert(silent(ls[to - 1]));
    }
}

proof fn lemma_ceiling(ls: Seq<Seq<char>>, n: int, ns: Seq<u64>)
    requires
        0 <= n < ls.len(),
        numbers_line(ls[n], ns),
    ensures
        socks(ls, n + 1).figures == socks(ls, n).figures,
        socks(ls, n + 1).ceilings == socks(ls, n).ceilings.push(ns),
{
    lemma_socks(ls, n);
    let t = trim(ls[n]);
    lemma_numbers(words(t), ns, ns.len() as int);
    lemma_take_all(words(t));
    assert(ns.take(ns.len() as int) =~= ns);
    reveal_strlit("TCP:");
    if starts_with(t, "TCP:"@) {
        assert(t.take(4)[3] == ':');
        assert(t[3] == ':');
    }
}

/// The TCP figures are read by name from the `TCP:` line, and the ceilings from the three lines
/// of numbers behind it: the third number for memory, then that for orphans, then that for
/// sockets in time-wait.
pub proof fn law_socket_figures_are_read(
    text: Seq<char>,
    i: int,
    inuse: u64,
    alloc: u64,
    low: u64,
    pressure: u64,
    s: SockStat,
)
    requires
        0 <= i,
        i + 3 < lines(text).len(),
        tcp_line(lines(text)[i], inuse, s.orphan, s.tw, alloc, s.tcp_mem),
        forall|j: int|
            0 <= j < lines(text).len() - 3 && j != i ==> silent(#[trigger] lines(text)[j]),
        numbers_line(lines(text)[lines(text).len() - 3], seq![low, pressure, s.tcp_mem_max]),
        numbers_line(lines(text)[lines(text).len() - 2], seq![s.max_orphans]),
        numbers_line(lines(text)[lines(text).len() - 1], seq![s.max_tw]),
    ensures
        sock_stat(text) == Some(s),
{
    let ls = lines(text);
    let n = ls.len() as int;
    lemma_silent(ls, 0, i);
    assert(ls.take(0) =~= Seq::<Seq<char>>::empty());
    lemma_socks(ls, i);
    lemma_silent(ls, i + 1, n - 3);
    lemma_ceiling(ls, n - 3, seq![low, pressure, s.tcp_mem_max]);
    lemma_ceiling(ls, n - 2, seq![s.max_orphans]);
    lemma_ceiling(ls, n - 1, seq![s.max_tw]);
    lemma_take_all(ls);
    lemma_digits_value(inuse);
    lemma_digits_value(s.orphan);
    lemma_digits_value(s.tw);
    lemma_digits_value(alloc);
    lemma_digits_value(s.tcp_mem);
    reveal_strlit("TCP:");
    reveal_strlit("inuse");
    reveal_strlit("orphan");
    reveal_strlit("tw");
    reveal_strlit("alloc");
    reveal_strlit("mem");
    assert("inuse"@.len() == 5 && "orphan"@.len() == 6 && "tw"@.len() == 2 && "alloc"@.len() == 5
        && "mem"@.len() == 3);
    let start = TcpFigures { mem: None, orphan: None, tw: None };
    let toks = words(trim(ls[i]).skip(4));
    let st1 = tcp_pair(start, toks[0], toks[1]);
    assert(st1 == start);
    let t2 = toks.skip(2);
    let st2 = TcpFigures { orphan: Some(s.orphan), ..st1 };
    let t3 = t2.skip(2);
    let st3 = TcpFigures { tw: Some(s.tw), ..st2 };
    let t4 = t3.skip(2);
    let t5 = t4.skip(2);
    let st5 = TcpFigures { mem: Some(s.tcp_mem), ..st3 };
    let t6 = t5.skip(2);
    assert(t6.len() == 0);
    assert(tcp_pairs(st5, t6) == st5);
    assert(tcp_pairs(st3, t5) == st5);
    assert(tcp_pairs(st3, t4) == st5);
    assert(tcp_pairs(st2, t3) == st5);
    assert(tcp_pairs(st1, t2) == st5);
    assert(tcp_pairs(start, toks) == st5);
    assert(socks(ls, i + 1).figures == st5);
    let c = socks(ls, n).ceilings;
    assert(c =~= seq![seq![low, pressure, s.tcp_mem_max], seq![s.max_orphans], seq![s.max_tw]]);
}

} // verus!
