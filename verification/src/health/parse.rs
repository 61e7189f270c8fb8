//! Tolerant parsers for the operational-health probes.
//!
//! Same discipline as [`crate::checks::parse`]: dumb readers on the host, all
//! structure recovered here so every probe is judged from captured output alone.
//! Quantities with a fraction are in millionths (see [`crate::text::number`]).

use crate::calendar::{day_number, days_from_date, days_in_month, valid_date};
use crate::text::chars::{
    chars_of, deep, deep_option, digit, is_digit, lemma_deep_empty, lemma_deep_push, text_of,
};
use crate::text::compose::{join_slices, joined};
use crate::text::number::{
    decimal_of, hex_of, parse_decimal, parse_hex, parse_u16, parse_u32, parse_u64, parse_u8, u16_of,
    u32_of, u64_of, u8_of, UNIT,
};
use crate::text::search::{
    after_first, begins, contains_char, contains_text, find_char, index_of, mentions, spells,
    starts_with, starts_with_chars, text_after,
};
use crate::text::split::{
    collect_lines, column, contains_word, count_lines, count_where, cut, fields, find_column,
    fold_lines, lemma_filter_map_step, lemma_run_ends_at, lemma_take_all, lines,
    one_of, run, split_at_char, split_char, split_lines, split_words, trim, trim_end, trim_end_by,
    trim_set, trim_start, trim_start_by, trimmed, trimmed_end, trimmed_end_of, trimmed_of,
    trimmed_start, trimmed_start_of, words,
};
use crate::textmap::{put, TextMap};
use vstd::prelude::*;
use vstd::slice::slice_subrange;

verus! {

/// The numbers that words spell; other words are passed over.
pub open spec fn numbers(ws: Seq<Seq<char>>) -> Seq<u64> {
    ws.filter_map(|w: Seq<char>| u64_of(w))
}

fn parse_numbers(ws: &Vec<&[char]>) -> (r: Vec<u64>)
    ensures
        r@ == numbers(deep(ws@)),
{
    let ghost f = |w: Seq<char>| u64_of(w);
    let mut out: Vec<u64> = Vec::new();
    let mut i: usize = 0;
    while i < ws.len()
        invariant
            i <= ws@.len(),
            f == |w: Seq<char>| u64_of(w),
            out@ == deep(ws@).take(i as int).filter_map(f),
        decreases ws@.len() - i,
    {
        proof {
            lemma_filter_map_step(deep(ws@), f, i as int);
        }
        match parse_u64(ws[i]) {
            Some(n) => {
                out.push(n);
            },
            None => {},
        }
        i = i + 1;
    }
    proof {
        lemma_take_all(deep(ws@));
    }
    out
}

/// The number in field `i`.
pub open spec fn number_at(ws: Seq<Seq<char>>, i: int) -> Option<u64> {
    if 0 <= i < ws.len() {
        u64_of(ws[i])
    } else {
        None
    }
}

fn read_number(ws: &Vec<&[char]>, i: usize) -> (r: Option<u64>)
    ensures
        r == number_at(deep(ws@), i as int),
{
    if i < ws.len() {
        parse_u64(ws[i])
    } else {
        None
    }
}

/// One load figure: separator commas go, and a decimal comma counts as a point.
pub open spec fn load_figure(token: Seq<char>) -> Option<i64> {
    let t = trim_set(token, seq![',']);
    let i = index_of(t, ',');
    if 0 <= i < t.len() {
        decimal_of(t.update(i, '.'))
    } else {
        decimal_of(t)
    }
}

fn read_load_figure(token: &[char]) -> (r: Option<i64>)
    ensures
        r == load_figure(token@),
{
    let comma: [char; 1] = [','];
    proof {
        assert(comma@ == seq![',']);
    }
    let t = trimmed_of(token, &comma);
    let i = find_char(t, ',');
    if i < t.len() {
        let mut copy: Vec<char> = Vec::new();
        let mut j: usize = 0;
        while j < t.len()
            invariant
                j <= t@.len(),
                i < t@.len(),
                copy@ == t@.update(i as int, '.').take(j as int),
            decreases t@.len() - j,
        {
            copy.push(
                if j == i {
                    '.'
                } else {
                    t[j]
                },
            );
            j = j + 1;
        }
        proof {
            lemma_take_all(t@.update(i as int, '.'));
        }
        parse_decimal(copy.as_slice())
    } else {
        parse_decimal(t)
    }
}

/// The load figures behind `load average:`.
pub open spec fn load_figures(tail: Seq<char>) -> Seq<i64> {
    words(tail).filter_map(|w: Seq<char>| load_figure(w))
}

pub open spec fn load_average(output: Seq<char>) -> Option<(i64, i64, i64)> {
    match after_first(output, "load average:"@) {
        Some(tail) => {
            let vals = load_figures(tail);
            if vals.len() >= 3 {
                Some((vals[0], vals[1], vals[2]))
            } else {
                None
            }
        },
        None => None,
    }
}

/// The three load averages (1/5/15 min) from `uptime`, in millionths.
///
/// Tolerant of both `.` and `,` decimals: after `load average:` each of the whitespace
/// tokens is stripped of separator commas and read.
pub fn parse_load_average(output: &str) -> (r: Option<(i64, i64, i64)>)
    ensures
        r == load_average(output@),
{
    let text = chars_of(output);
    let tail = match text_after(text.as_slice(), "load average:") {
        Some(t) => t,
        None => {
            return None;
        },
    };
    let ws = split_words(tail);
    let ghost f = |w: Seq<char>| load_figure(w);
    let mut vals: Vec<i64> = Vec::new();
    let mut i: usize = 0;
    while i < ws.len()
        invariant
            i <= ws@.len(),
            f == |w: Seq<char>| load_figure(w),
            vals@ == deep(ws@).take(i as int).filter_map(f),
        decreases ws@.len() - i,
    {
        proof {
            lemma_filter_map_step(deep(ws@), f, i as int);
        }
        match read_load_figure(ws[i]) {
            Some(v) => {
                vals.push(v);
            },
            None => {},
        }
        i = i + 1;
    }
    proof {
        lemma_take_all(deep(ws@));
    }
    if vals.len() >= 3 {
        Some((vals[0], vals[1], vals[2]))
    } else {
        None
    }
}

pub open spec fn cpu_count(output: Seq<char>) -> Option<u32> {
    let ls = lines(trim(output));
    if ls.len() == 0 {
        None
    } else {
        u32_of(trim(ls[0]))
    }
}

/// CPU count from `nproc`.
pub fn parse_nproc(output: &str) -> (r: Option<u32>)
    ensures
        r == cpu_count(output@),
{
    let text = chars_of(output);
    let ls = split_lines(trimmed(text.as_slice()));
    if ls.len() == 0 {
        None
    } else {
        parse_u32(trimmed(ls[0]))
    }
}

/// The unit on a line of failed units: its first word behind the status bullet, if that
/// word holds a dot.
pub open spec fn failed_unit(line: Seq<char>) -> Option<Seq<char>> {
    let ws = words(trim_start_by(trim(line), one_of(seq!['●', '*', ' '])));
    if ws.len() > 0 && ws[0].contains('.') {
        Some(ws[0])
    } else {
        None
    }
}

pub open spec fn failed_units(output: Seq<char>) -> Seq<Seq<char>> {
    lines(output).filter_map(|l: Seq<char>| failed_unit(l))
}

fn failed_unit_line(line: &[char]) -> (r: Option<String>)
    ensures
        deep_option(r) == failed_unit(line@),
{
    let bullets: [char; 3] = ['●', '*', ' '];
    proof {
        assert(bullets@ == seq!['●', '*', ' ']);
    }
    let ws = split_words(trimmed_start_of(trimmed(line), &bullets));
    if ws.len() > 0 && contains_char(ws[0], '.') {
        Some(text_of(ws[0]))
    } else {
        None
    }
}

/// Names of failed systemd units from `systemctl list-units --state=failed
/// --no-legend`. Each line is `UNIT LOAD ACTIVE SUB DESCRIPTION`, optionally
/// prefixed with a status bullet (`●`/`*`); the unit name is the first token and
/// always contains a `.` (e.g. `nginx.service`). Blank lines and any stray
/// non-unit line are skipped, so empty output (no failed units) yields `[]`.
pub fn parse_failed_units(output: &str) -> (r: Vec<String>)
    ensures
        deep(r@) == failed_units(output@),
{
    collect_lines(output, failed_unit_line, Ghost(|l: Seq<char>| failed_unit(l)))
}

/// The name and the state of a broken container on a row.
pub open spec fn container_problem(raw: Seq<char>) -> Option<(Seq<char>, Seq<char>)> {
    let line = trim_end(raw);
    let ws = words(line);
    if line.len() == 0 || starts_with(line, "CONTAINER ID"@) || ws.len() == 0 {
        None
    } else if mentions(line, "Restarting"@) {
        Some((ws.last(), "restarting"@))
    } else if mentions(line, "(unhealthy)"@) {
        Some((ws.last(), "unhealthy"@))
    } else {
        None
    }
}

pub open spec fn container_problems(output: Seq<char>) -> Seq<(Seq<char>, Seq<char>)> {
    lines(output).filter_map(|l: Seq<char>| container_problem(l))
}

fn container_problem_line(raw: &[char]) -> (r: Option<(String, &'static str)>)
    ensures
        deep_option(r) == container_problem(raw@),
{
    let line = trimmed_end(raw);
    let ws = split_words(line);
    if line.len() == 0 || begins(line, "CONTAINER ID") || ws.len() == 0 {
        return None;
    }
    let name = ws[ws.len() - 1];
    proof {
        assert(words(line@).last() == name@);
    }
    if contains_text(line, "Restarting") {
        Some((text_of(name), "restarting"))
    } else if contains_text(line, "(unhealthy)") {
        Some((text_of(name), "unhealthy"))
    } else {
        None
    }
}

/// Containers in a broken state from `docker ps -a` / `podman ps -a` table
/// output. Returns `(name, state)` where state is `"restarting"` (crash loop) or
/// `"unhealthy"` (failing healthcheck). The container name is the last column;
/// the STATUS keywords are matched anywhere on the line, so exact column
/// alignment doesn't matter (STATUS/PORTS contain spaces and resist splitting).
/// The header and healthy/stopped (`Up`/`Exited`) containers are skipped.
pub fn parse_container_problems(output: &str) -> (r: Vec<(String, &'static str)>)
    ensures
        deep(r@) == container_problems(output@),
{
    collect_lines(output, container_problem_line, Ghost(|l: Seq<char>| container_problem(l)))
}

/// The seconds in a unit of time, whose plural `s` does not count.
pub open spec fn unit_seconds(unit: Seq<char>) -> Option<u64> {
    let u = trim_end_by(unit, one_of(seq!['s']));
    if u == "second"@ {
        Some(1)
    } else if u == "minute"@ {
        Some(60)
    } else if u == "hour"@ {
        Some(3_600)
    } else if u == "day"@ {
        Some(86_400)
    } else if u == "week"@ {
        Some(604_800)
    } else if u == "month"@ {
        Some(2_592_000)
    } else if u == "year"@ {
        Some(31_536_000)
    } else {
        None
    }
}

fn read_unit_seconds(unit: &[char]) -> (r: Option<u64>)
    ensures
        r == unit_seconds(unit@),
{
    let plural: [char; 1] = ['s'];
    proof {
        assert(plural@ == seq!['s']);
    }
    let u = trimmed_end_of(unit, &plural);
    if spells(u, "second") {
        Some(1)
    } else if spells(u, "minute") {
        Some(60)
    } else if spells(u, "hour") {
        Some(3_600)
    } else if spells(u, "day") {
        Some(86_400)
    } else if spells(u, "week") {
        Some(604_800)
    } else if spells(u, "month") {
        Some(2_592_000)
    } else if spells(u, "year") {
        Some(31_536_000)
    } else {
        None
    }
}

/// The quantity and the unit of a duration in words.
pub open spec fn up_parts(rest: Seq<Seq<char>>) -> Option<(u64, Seq<char>)> {
    if rest.len() == 0 {
        None
    } else if rest[0] == "About"@ {
        if rest.len() > 2 {
            Some((1u64, rest[2]))
        } else {
            None
        }
    } else {
        let qty = if rest[0] == "a"@ || rest[0] == "an"@ {
            Some(1u64)
        } else {
            u64_of(rest[0])
        };
        match qty {
            Some(n) => if rest.len() > 1 {
                Some((n, rest[1]))
            } else {
                None
            },
            None => None,
        }
    }
}

/// The seconds in a duration such as `2 days`, `a minute`, `About an hour` or
/// `Less than a second`. Units are approximate (month = 30 days, year = 365 days). A shape
/// that is not known, or a number of seconds past what a `u64` holds, gives nothing.
pub open spec fn up_duration(rest: Seq<Seq<char>>) -> Option<u64> {
    if rest.len() > 0 && rest[0] == "Less"@ {
        Some(0)
    } else {
        match up_parts(rest) {
            Some((qty, unit)) => match unit_seconds(unit) {
                Some(per) => if qty * per <= u64::MAX {
                    Some((qty * per) as u64)
                } else {
                    None
                },
                None => None,
            },
            None => None,
        }
    }
}

fn parse_up_duration(rest: &[&[char]]) -> (r: Option<u64>)
    ensures
        r == up_duration(deep(rest@)),
{
    if rest.len() == 0 {
        return None;
    }
    if spells(rest[0], "Less") {
        return Some(0);
    }
    let (qty, unit): (u64, &[char]) = if spells(rest[0], "About") {
        if rest.len() > 2 {
            (1, rest[2])
        } else {
            return None;
        }
    } else {
        let qty: u64 = if spells(rest[0], "a") || spells(rest[0], "an") {
            1
        } else {
            match parse_u64(rest[0]) {
                Some(n) => n,
                None => {
                    return None;
                },
            }
        };
        if rest.len() > 1 {
            (qty, rest[1])
        } else {
            return None;
        }
    };
    match read_unit_seconds(unit) {
        Some(per) => qty.checked_mul(per),
        None => None,
    }
}

/// The name and the uptime of a running container on a row.
pub open spec fn container_uptime(raw: Seq<char>) -> Option<(Seq<char>, u64)> {
    let line = trim_end(raw);
    let ws = words(line);
    if line.len() == 0 || starts_with(line, "CONTAINER ID"@) {
        None
    } else {
        match column(ws, "Up"@) {
            Some(i) => match up_duration(ws.skip(i + 1)) {
                Some(secs) => Some((ws.last(), secs)),
                None => None,
            },
            None => None,
        }
    }
}

pub open spec fn container_uptimes(output: Seq<char>) -> Seq<(Seq<char>, u64)> {
    lines(output).filter_map(|l: Seq<char>| container_uptime(l))
}

fn container_uptime_line(raw: &[char]) -> (r: Option<(String, u64)>)
    ensures
        deep_option(r) == container_uptime(raw@),
{
    let line = trimmed_end(raw);
    if line.len() == 0 || begins(line, "CONTAINER ID") {
        return None;
    }
    let ws = split_words(line);
    match find_column(&ws, "Up") {
        Some(i) => {
            let end: usize = ws.len();
            let rest = slice_subrange(ws.as_slice(), i + 1, end);
            proof {
                assert(deep(rest@) =~= deep(ws@).skip(i + 1));
                assert(words(line@).last() == ws@[ws@.len() - 1]@);
            }
            match parse_up_duration(rest) {
                Some(secs) => Some((text_of(ws[ws.len() - 1]), secs)),
                None => None,
            }
        },
        None => None,
    }
}

/// Uptime in whole seconds for the running containers in `docker ps -a` /
/// `podman ps -a` output: `(name, uptime_secs)` for every `Up` container. The
/// value is coarse, since docker humanizes the STATUS (`Up 2 days`, `Up About an
/// hour`, `Up 40 seconds`), but a restart resets it to a small value, so a drop
/// versus the previous snapshot reveals a restart. Non-running containers
/// (Exited/Restarting/Created) have no stable uptime and are skipped.
pub fn parse_container_uptimes(output: &str) -> (r: Vec<(String, u64)>)
    ensures
        deep(r@) == container_uptimes(output@),
{
    collect_lines(output, container_uptime_line, Ghost(|l: Seq<char>| container_uptime(l)))
}

/// Memory and swap totals in bytes, from `free -b`.
#[derive(Debug, Clone, Copy, PartialEq, Eq, Structural)]
pub struct MemInfo {
    pub mem_total: u64,
    pub mem_used: u64,
    /// `available` column (modern procps); 0 if the column is absent.
    pub mem_available: u64,
    pub swap_total: u64,
    pub swap_used: u64,
}

/// What is known after some lines of `free -b`.
#[derive(Debug, Clone, Copy)]
pub struct FreeScan {
    pub mem_total: Option<u64>,
    pub mem_used: Option<u64>,
    pub mem_available: u64,
    pub swap_total: u64,
    pub swap_used: u64,
}

impl View for FreeScan {
    type V = FreeScan;

    open spec fn view(&self) -> FreeScan {
        *self
    }
}

pub open spec fn or_zero(n: Option<u64>) -> u64 {
    match n {
        Some(v) => v,
        None => 0,
    }
}

pub open spec fn free_step(st: FreeScan, line: Seq<char>) -> FreeScan {
    let ws = words(line);
    if ws.len() > 0 && ws[0] == "Mem:"@ {
        FreeScan {
            mem_total: number_at(ws, 1),
            mem_used: number_at(ws, 2),
            mem_available: or_zero(number_at(ws, 6)),
            ..st
        }
    } else if ws.len() > 0 && ws[0] == "Swap:"@ {
        FreeScan {
            swap_total: or_zero(number_at(ws, 1)),
            swap_used: or_zero(number_at(ws, 2)),
            ..st
        }
    } else {
        st
    }
}

pub open spec fn free_info(output: Seq<char>) -> Option<MemInfo> {
    let end = lines(output).fold_left(
        (FreeScan {
            mem_total: None,
            mem_used: None,
            mem_available: 0,
            swap_total: 0,
            swap_used: 0,
        }),
        |st: FreeScan, l: Seq<char>| free_step(st, l),
    );
    match (end.mem_total, end.mem_used) {
        (Some(mem_total), Some(mem_used)) => Some(
            MemInfo {
                mem_total,
                mem_used,
                mem_available: end.mem_available,
                swap_total: end.swap_total,
                swap_used: end.swap_used,
            },
        ),
        _ => None,
    }
}

fn zero_if_none(n: Option<u64>) -> (r: u64)
    ensures
        r == or_zero(n),
{
    match n {
        Some(v) => v,
        None => 0,
    }
}

fn free_line(st: FreeScan, line: &[char]) -> (r: FreeScan)
    ensures
        r@ == free_step(st@, line@),
{
    let ws = split_words(line);
    if ws.len() > 0 && spells(ws[0], "Mem:") {
        FreeScan {
            mem_total: read_number(&ws, 1),
            mem_used: read_number(&ws, 2),
            mem_available: zero_if_none(read_number(&ws, 6)),
            swap_total: st.swap_total,
            swap_used: st.swap_used,
        }
    } else if ws.len() > 0 && spells(ws[0], "Swap:") {
        FreeScan {
            mem_total: st.mem_total,
            mem_used: st.mem_used,
            mem_available: st.mem_available,
            swap_total: zero_if_none(read_number(&ws, 1)),
            swap_used: zero_if_none(read_number(&ws, 2)),
        }
    } else {
        st
    }
}

/// Parses `free -b` (`Mem:`/`Swap:` rows). Columns:
/// `total used free shared buff/cache available`.
pub fn parse_free(output: &str) -> (r: Option<MemInfo>)
    ensures
        r == free_info(output@),
{
    let end = fold_lines(
        output,
        FreeScan {
            mem_total: None,
            mem_used: None,
            mem_available: 0,
            swap_total: 0,
            swap_used: 0,
        },
        free_line,
        Ghost(|st: FreeScan, l: Seq<char>| free_step(st, l)),
    );
    match (end.mem_total, end.mem_used) {
        (Some(mem_total), Some(mem_used)) => Some(
            MemInfo {
                mem_total,
                mem_used,
                mem_available: end.mem_available,
                swap_total: end.swap_total,
                swap_used: end.swap_used,
            },
        ),
        _ => None,
    }
}

/// One filesystem row from `df -P`.
#[derive(Debug, Clone, PartialEq, Eq)]
pub struct Mount {
    pub source: String,
    pub use_pct: u8,
    pub mount: String,
}

/// The model of a [`Mount`].
pub ghost struct MountView {
    pub source: Seq<char>,
    pub use_pct: u8,
    pub mount: Seq<char>,
}

impl View for Mount {
    type V = MountView;

    open spec fn view(&self) -> MountView {
        MountView { source: self.source@, use_pct: self.use_pct, mount: self.mount@ }
    }
}

/// A source that is not real storage.
pub open spec fn pseudo_source(source: Seq<char>) -> bool {
    source == "tmpfs"@ || source == "devtmpfs"@ || source == "overlay"@ || source == "none"@
}

/// The path is `dir` or stands below it.
pub open spec fn under(path: Seq<char>, dir: Seq<char>) -> bool {
    path == dir || starts_with(path, dir + "/"@)
}

/// A mount point of a pseudo-filesystem.
pub open spec fn pseudo_mount(mount: Seq<char>) -> bool {
    under(mount, "/dev"@) || under(mount, "/run"@) || under(mount, "/sys"@) || under(
        mount,
        "/proc"@,
    )
}

/// The filesystem on a row, if it is real storage.
pub open spec fn real_mount(line: Seq<char>) -> Option<MountView> {
    let f = words(line);
    if f.len() < 6 || f[0] == "Filesystem"@ {
        None
    } else {
        let mount = joined(f.skip(5), " "@);
        match u8_of(trim_end_by(f[4], one_of(seq!['%']))) {
            Some(use_pct) => if pseudo_source(f[0]) || pseudo_mount(mount) {
                None
            } else {
                Some(MountView { source: f[0], use_pct, mount })
            },
            None => None,
        }
    }
}

pub open spec fn real_mounts(output: Seq<char>) -> Seq<MountView> {
    lines(output).filter_map(|l: Seq<char>| real_mount(l))
}

fn is_under(path: &[char], dir: &str) -> (r: bool)
    ensures
        r == under(path@, dir@),
{
    let mut d = chars_of(dir);
    if spells(path, dir) {
        return true;
    }
    d.push('/');
    proof {
        reveal_strlit("/");
        assert(d@ == dir@ + "/"@);
    }
    starts_with_chars(path, d.as_slice())
}

fn real_mount_line(line: &[char]) -> (r: Option<Mount>)
    ensures
        deep_option(r) == real_mount(line@),
{
    let f = split_words(line);
    if f.len() < 6 || spells(f[0], "Filesystem") {
        return None;
    }
    let percent: [char; 1] = ['%'];
    let use_pct: u8 = match parse_u8(trimmed_end_of(f[4], &percent)) {
        Some(n) => n,
        None => {
            proof {
                assert(percent@ == seq!['%']);
            }
            return None;
        },
    };
    let rest = slice_subrange(f.as_slice(), 5, f.len());
    let mount = join_slices(rest, " ");
    proof {
        assert(percent@ == seq!['%']);
        assert(deep(rest@) =~= deep(f@).skip(5));
    }
    let source = f[0];
    if spells(source, "tmpfs") || spells(source, "devtmpfs") || spells(source, "overlay") || spells(
        source,
        "none",
    ) {
        return None;
    }
    let path = chars_of(mount.as_str());
    if is_under(path.as_slice(), "/dev") || is_under(path.as_slice(), "/run") || is_under(
        path.as_slice(),
        "/sys",
    ) || is_under(path.as_slice(), "/proc") {
        return None;
    }
    Some(Mount { source: text_of(source), use_pct, mount })
}

/// Parses `df -P` and drops pseudo-filesystems (tmpfs/overlay/`/dev`, `/run`,
/// `/sys`, `/proc` mounts) so disk pressure reflects real storage.
pub fn parse_df(output: &str) -> (r: Vec<Mount>)
    ensures
        deep(r@) == real_mounts(output@),
{
    collect_lines(output, real_mount_line, Ghost(|l: Seq<char>| real_mount(l)))
}

/// Two numbers, if both are there.
pub open spec fn both(a: Option<u64>, b: Option<u64>) -> Option<(u64, u64)> {
    match (a, b) {
        (Some(x), Some(y)) => Some((x, y)),
        _ => None,
    }
}

pub open spec fn file_nr(output: Seq<char>) -> Option<(u64, u64)> {
    both(number_at(words(output), 0), number_at(words(output), 2))
}

/// Parses `/proc/sys/fs/file-nr` (`allocated  unused  max`) into
/// `(allocated, max)` open file descriptors. `unused` is ignored (it is 0 on
/// modern kernels). `None` if the two numbers can't be read.
pub fn parse_file_nr(output: &str) -> (r: Option<(u64, u64)>)
    ensures
        r == file_nr(output@),
{
    let text = chars_of(output);
    let f = split_words(text.as_slice());
    match (read_number(&f, 0), read_number(&f, 2)) {
        (Some(allocated), Some(max)) => Some((allocated, max)),
        _ => None,
    }
}

/// The number that a line holds.
pub open spec fn bare_number(line: Seq<char>) -> Option<u64> {
    u64_of(trim(line))
}

fn bare_number_line(line: &[char]) -> (r: Option<u64>)
    ensures
        deep_option(r) == bare_number(line@),
{
    parse_u64(trimmed(line))
}

pub open spec fn conntrack_fill(output: Seq<char>) -> Option<(u64, u64)> {
    let nums = lines(output).filter_map(|l: Seq<char>| bare_number(l));
    if nums.len() >= 2 {
        Some((nums[0], nums[1]))
    } else {
        None
    }
}

/// Parses the two-line `cat nf_conntrack_count nf_conntrack_max` output into
/// `(count, max)` tracked connections. `None` if either number is missing (e.g.
/// the conntrack module isn't loaded, so the files don't exist).
pub fn parse_conntrack(output: &str) -> (r: Option<(u64, u64)>)
    ensures
        r == conntrack_fill(output@),
{
    let nums: Vec<u64> = collect_lines(
        output,
        bare_number_line,
        Ghost(|l: Seq<char>| bare_number(l)),
    );
    proof {
        assert(deep(nums@) == nums@);
    }
    if nums.len() >= 2 {
        Some((nums[0], nums[1]))
    } else {
        None
    }
}

/// The total of loadavg's `running/total` field.
pub open spec fn task_total(loadavg: Seq<char>) -> Option<u64> {
    let f = words(loadavg);
    if f.len() < 4 {
        None
    } else {
        number_at(fields(f[3], '/'), 1)
    }
}

pub open spec fn pid_usage(output: Seq<char>) -> Option<(u64, u64)> {
    let ls = lines(output);
    if ls.len() < 2 {
        None
    } else {
        both(task_total(ls[0]), u64_of(trim(ls[1])))
    }
}

/// Parses the `cat /proc/loadavg /proc/sys/kernel/pid_max` output into
/// `(tasks, pid_max)`. `tasks` is the total of loadavg's `running/total` field
/// (kernel scheduling entities: processes + threads), which consume PIDs;
/// `pid_max` is the ceiling they approach. `None` if either can't be read.
pub fn parse_pid_usage(output: &str) -> (r: Option<(u64, u64)>)
    ensures
        r == pid_usage(output@),
{
    let text = chars_of(output);
    let ls = split_lines(text.as_slice());
    if ls.len() < 2 {
        return None;
    }
    let f = split_words(ls[0]);
    if f.len() < 4 {
        return None;
    }
    let parts = split_char(f[3], '/');
    match (read_number(&parts, 1), parse_u64(trimmed(ls[1]))) {
        (Some(tasks), Some(pid_max)) => Some((tasks, pid_max)),
        _ => None,
    }
}


/// Current TCP socket/memory usage and its ceilings, from `/proc/net/sockstat`
/// concatenated with `tcp_mem`, `tcp_max_orphans`, `tcp_max_tw_buckets`.
#[derive(Debug, Clone, Copy, PartialEq, Eq, Structural)]
pub struct SockStat {
    /// TCP memory in pages (from `sockstat` `TCP: … mem N`).
    pub tcp_mem: u64,
    /// Max TCP memory in pages (3rd value of `tcp_mem`: min/pressure/max).
    pub tcp_mem_max: u64,
    pub orphan: u64,
    pub max_orphans: u64,
    pub tw: u64,
    pub max_tw: u64,
}

/// The three figures of the `TCP:` line that are of interest.
#[derive(Debug, Clone, Copy)]
pub struct TcpFigures {
    pub mem: Option<u64>,
    pub orphan: Option<u64>,
    pub tw: Option<u64>,
}

/// Takes in one `name value` pair.
pub open spec fn tcp_pair(st: TcpFigures, k: Seq<char>, v: Seq<char>) -> TcpFigures {
    match u64_of(v) {
        Some(n) => if k == "mem"@ {
            TcpFigures { mem: Some(n), ..st }
        } else if k == "orphan"@ {
            TcpFigures { orphan: Some(n), ..st }
        } else if k == "tw"@ {
            TcpFigures { tw: Some(n), ..st }
        } else {
            st
        },
        None => st,
    }
}

/// Takes in the words of a `TCP:` line pair by pair; an odd word at the end is left out.
pub open spec fn tcp_pairs(st: TcpFigures, toks: Seq<Seq<char>>) -> TcpFigures
    decreases toks.len(),
{
    if toks.len() < 2 {
        st
    } else {
        tcp_pairs(tcp_pair(st, toks[0], toks[1]), toks.skip(2))
    }
}

fn read_tcp_pairs(st: TcpFigures, toks: &Vec<&[char]>) -> (r: TcpFigures)
    ensures
        r == tcp_pairs(st, deep(toks@)),
{
    let mut out = st;
    let mut i: usize = 0;
    let len: usize = toks.len();
    proof {
        assert(deep(toks@).skip(0) == deep(toks@));
    }
    while i < len && len - i >= 2
        invariant
            len == toks@.len(),
            i <= len,
            tcp_pairs(st, deep(toks@)) == tcp_pairs(out, deep(toks@).skip(i as int)),
        decreases toks@.len() - i,
    {
        proof {
            let rest = deep(toks@).skip(i as int);
            assert(rest[0] == toks@[i as int]@);
            assert(rest[1] == toks@[i + 1]@);
            assert(rest.skip(2) == deep(toks@).skip(i + 2));
        }
        match parse_u64(toks[i + 1]) {
            Some(n) => {
                if spells(toks[i], "mem") {
                    out = TcpFigures { mem: Some(n), orphan: out.orphan, tw: out.tw };
                } else if spells(toks[i], "orphan") {
                    out = TcpFigures { mem: out.mem, orphan: Some(n), tw: out.tw };
                } else if spells(toks[i], "tw") {
                    out = TcpFigures { mem: out.mem, orphan: out.orphan, tw: Some(n) };
                }
            },
            None => {},
        }
        i = i + 2;
    }
    out
}

/// What is known after some lines of the combined output.
pub struct SockScan {
    pub figures: TcpFigures,
    pub ceilings: Vec<Vec<u64>>,
}

/// The model of a [`SockScan`].
pub ghost struct SockScanView {
    pub figures: TcpFigures,
    pub ceilings: Seq<Seq<u64>>,
}

impl View for SockScan {
    type V = SockScanView;

    open spec fn view(&self) -> SockScanView {
        SockScanView { figures: self.figures, ceilings: deep(self.ceilings@) }
    }
}

/// A `TCP:` line gives figures; a line of bare numbers gives the next ceiling.
pub open spec fn sock_step(st: SockScanView, raw: Seq<char>) -> SockScanView {
    let line = trim(raw);
    if starts_with(line, "TCP:"@) {
        SockScanView {
            figures: tcp_pairs(st.figures, words(line.skip("TCP:"@.len() as int))),
            ..st
        }
    } else if !line.contains(':') && numbers(words(line)).len() > 0 {
        SockScanView { ceilings: st.ceilings.push(numbers(words(line))), ..st }
    } else {
        st
    }
}

pub open spec fn sock_scan(output: Seq<char>) -> SockScanView {
    lines(output).fold_left(
        (SockScanView {
            figures: TcpFigures { mem: None, orphan: None, tw: None },
            ceilings: Seq::empty(),
        }),
        |st: SockScanView, l: Seq<char>| sock_step(st, l),
    )
}

pub open spec fn sock_stat(output: Seq<char>) -> Option<SockStat> {
    let end = sock_scan(output);
    let c = end.ceilings;
    match (end.figures.mem, end.figures.orphan, end.figures.tw) {
        (Some(tcp_mem), Some(orphan), Some(tw)) => if c.len() >= 3 && c[0].len() >= 3 && c[1].len()
            >= 1 && c[2].len() >= 1 {
            Some(
                SockStat {
                    tcp_mem,
                    tcp_mem_max: c[0][2],
                    orphan,
                    max_orphans: c[1][0],
                    tw,
                    max_tw: c[2][0],
                },
            )
        } else {
            None
        },
        _ => None,
    }
}

fn sock_line(st: SockScan, raw: &[char]) -> (r: SockScan)
    ensures
        r@ == sock_step(st@, raw@),
{
    broadcast use lemma_deep_push;

    let line = trimmed(raw);
    proof {
        reveal_strlit("TCP:");
    }
    if begins(line, "TCP:") {
        let rest = slice_subrange(line, 4, line.len());
        proof {
            assert(rest@ == line@.skip(4));
        }
        let toks = split_words(rest);
        SockScan { figures: read_tcp_pairs(st.figures, &toks), ceilings: st.ceilings }
    } else if !contains_char(line, ':') {
        let ws = split_words(line);
        let nums = parse_numbers(&ws);
        if nums.len() > 0 {
            let mut ceilings = st.ceilings;
            ceilings.push(nums);
            SockScan { figures: st.figures, ceilings }
        } else {
            st
        }
    } else {
        st
    }
}

/// Parses the combined `cat /proc/net/sockstat <tcp_mem> <tcp_max_orphans>
/// <tcp_max_tw_buckets>` output. The `sockstat` lines are `Label: k v …`; the
/// three ceilings follow as bare number lines (no `:`), in that order. `None` if
/// the `TCP:` line or any ceiling is missing.
pub fn parse_sockstat(output: &str) -> (r: Option<SockStat>)
    ensures
        r == sock_stat(output@),
{
    broadcast use lemma_deep_empty;

    let end = fold_lines(
        output,
        SockScan {
            figures: TcpFigures { mem: None, orphan: None, tw: None },
            ceilings: Vec::new(),
        },
        sock_line,
        Ghost(|st: SockScanView, l: Seq<char>| sock_step(st, l)),
    );
    let c = &end.ceilings;
    match (end.figures.mem, end.figures.orphan, end.figures.tw) {
        (Some(tcp_mem), Some(orphan), Some(tw)) => {
            if c.len() >= 3 && c[0].len() >= 3 && c[1].len() >= 1 && c[2].len() >= 1 {
                Some(
                    SockStat {
                        tcp_mem,
                        tcp_mem_max: c[0][2],
                        orphan,
                        max_orphans: c[1][0],
                        tw,
                        max_tw: c[2][0],
                    },
                )
            } else {
                None
            }
        },
        _ => None,
    }
}

/// The words behind a section's prefix.
pub open spec fn section_row(line: Seq<char>, prefix: Seq<char>) -> Option<Seq<Seq<char>>> {
    if starts_with(line, prefix) {
        Some(words(line.skip(prefix.len() as int)))
    } else {
        None
    }
}

pub open spec fn section_rows(output: Seq<char>, prefix: Seq<char>) -> Seq<Seq<Seq<char>>> {
    lines(output).filter_map(|l: Seq<char>| section_row(l, prefix))
}

/// A section's column names and its values: its first two rows.
pub open spec fn section(output: Seq<char>, prefix: Seq<char>) -> Option<
    (Seq<Seq<char>>, Seq<Seq<char>>),
> {
    let rows = section_rows(output, prefix);
    if rows.len() >= 2 {
        Some((rows[0], rows[1]))
    } else {
        None
    }
}

proof fn lemma_filter_map_prefix<A, B>(s: Seq<A>, f: spec_fn(A) -> Option<B>, i: int, k: int)
    requires
        0 <= i <= s.len(),
        0 <= k < s.take(i).filter_map(f).len(),
    ensures
        s.take(i).filter_map(f).len() <= s.filter_map(f).len(),
        s.take(i).filter_map(f)[k] == s.filter_map(f)[k],
    decreases s.len(),
{
    if i == s.len() {
        lemma_take_all(s);
    } else {
        assert(s.drop_last().take(i) == s.take(i));
        lemma_filter_map_prefix(s.drop_last(), f, i, k);
    }
}

fn find_section<'a>(ls: &Vec<&'a [char]>, prefix: &str, Ghost(output): Ghost<Seq<char>>) -> (r:
    Option<(Vec<&'a [char]>, Vec<&'a [char]>)>)
    requires
        deep(ls@) == lines(output),
    ensures
        match r {
            Some((names, values)) => section(output, prefix@) == Some(
                (deep(names@), deep(values@)),
            ),
            None => section(output, prefix@).is_none(),
        },
{
    let p = chars_of(prefix);
    let n: usize = p.len();
    let ghost f = |l: Seq<char>| section_row(l, prefix@);
    let ghost dl = deep(ls@);
    let mut names: Option<Vec<&'a [char]>> = None;
    let mut i: usize = 0;
    while i < ls.len()
        invariant
            i <= ls@.len(),
            p@ == prefix@,
            n == p@.len(),
            dl == deep(ls@),
            dl == lines(output),
            f == |l: Seq<char>| section_row(l, prefix@),
            dl.take(i as int).filter_map(f) == match names {
                Some(row) => seq![deep(row@)],
                None => Seq::empty(),
            },
        decreases ls@.len() - i,
    {
        proof {
            lemma_filter_map_step(dl, f, i as int);
            assert(dl[i as int] == ls@[i as int]@);
        }
        if starts_with_chars(ls[i], p.as_slice()) {
            let rest = slice_subrange(ls[i], n, ls[i].len());
            proof {
                assert(rest@ == ls@[i as int]@.skip(n as int));
            }
            let row = split_words(rest);
            match names {
                Some(cols) => {
                    proof {
                        let two = dl.take(i + 1).filter_map(f);
                        assert(two == seq![deep(cols@), deep(row@)]);
                        lemma_filter_map_prefix(dl, f, i + 1, 0);
                        lemma_filter_map_prefix(dl, f, i + 1, 1);
                    }
                    return Some((cols, row));
                },
                None => {
                    proof {
                        assert(dl.take(i + 1).filter_map(f) == seq![deep(row@)]);
                    }
                    names = Some(row);
                },
            }
        }
        i = i + 1;
    }
    proof {
        lemma_take_all(dl);
    }
    None
}

/// The number in the column of that name.
pub open spec fn named(sec: (Seq<Seq<char>>, Seq<Seq<char>>), name: Seq<char>) -> Option<u64> {
    match column(sec.0, name) {
        Some(i) => number_at(sec.1, i),
        None => None,
    }
}

fn read_named(names: &Vec<&[char]>, values: &Vec<&[char]>, name: &str) -> (r: Option<u64>)
    ensures
        r == named((deep(names@), deep(values@)), name@),
{
    match find_column(names, name) {
        Some(i) => read_number(values, i),
        None => None,
    }
}

pub open spec fn listen_counters(output: Seq<char>) -> Option<(u64, u64)> {
    match section(output, "TcpExt:"@) {
        Some(sec) => both(named(sec, "ListenOverflows"@), named(sec, "ListenDrops"@)),
        None => None,
    }
}

/// Parses `ListenOverflows` and `ListenDrops` from `/proc/net/netstat` into
/// `(overflows, drops)` cumulative counts. The file has header/value line pairs
/// per section (`TcpExt:` names, then `TcpExt:` values); the columns are found by
/// name so kernel-version column shifts don't matter. `None` if the `TcpExt`
/// pair or either column is absent.
pub fn parse_netstat_listen(output: &str) -> (r: Option<(u64, u64)>)
    ensures
        r == listen_counters(output@),
{
    let text = chars_of(output);
    let ls = split_lines(text.as_slice());
    match find_section(&ls, "TcpExt:", Ghost(output@)) {
        Some((names, values)) => match (
            read_named(&names, &values, "ListenOverflows"),
            read_named(&names, &values, "ListenDrops"),
        ) {
            (Some(a), Some(b)) => Some((a, b)),
            _ => None,
        },
        None => None,
    }
}

pub open spec fn tcp_error_counters(output: Seq<char>) -> Option<(u64, u64, u64)> {
    match section(output, "TcpExt:"@) {
        Some(sec) => Some(
            (
                or_zero(named(sec, "TCPAbortOnMemory"@)),
                or_zero(named(sec, "PruneCalled"@)),
                or_zero(named(sec, "TCPRcvQDrop"@)),
            ),
        ),
        None => None,
    }
}

/// Parses TCP stack-pressure counters from `/proc/net/netstat` into cumulative
/// `(abort_on_memory, prune_called, rcvq_drop)`. Same `TcpExt:` header/value pair
/// shape as [`parse_netstat_listen`], columns found by name. Tolerant: a column an
/// older kernel lacks contributes 0, so `None` means only that the `TcpExt` value
/// line is absent entirely.
pub fn parse_netstat_tcp_errors(output: &str) -> (r: Option<(u64, u64, u64)>)
    ensures
        r == tcp_error_counters(output@),
{
    let text = chars_of(output);
    let ls = split_lines(text.as_slice());
    match find_section(&ls, "TcpExt:", Ghost(output@)) {
        Some((names, values)) => Some(
            (
                zero_if_none(read_named(&names, &values, "TCPAbortOnMemory")),
                zero_if_none(read_named(&names, &values, "PruneCalled")),
                zero_if_none(read_named(&names, &values, "TCPRcvQDrop")),
            ),
        ),
        None => None,
    }
}

pub open spec fn retransmits(output: Seq<char>) -> Option<u64> {
    match section(output, "Tcp:"@) {
        Some(sec) => named(sec, "RetransSegs"@),
        None => None,
    }
}

/// Parses `Tcp: RetransSegs` (cumulative TCP retransmitted segments) from
/// `/proc/net/snmp`. The file has a `Tcp:` name line then a `Tcp:` value line;
/// the `RetransSegs` column is found by name. `None` if the pair or column is
/// absent.
pub fn parse_snmp_tcp(output: &str) -> (r: Option<u64>)
    ensures
        r == retransmits(output@),
{
    let text = chars_of(output);
    let ls = split_lines(text.as_slice());
    match find_section(&ls, "Tcp:", Ghost(output@)) {
        Some((names, values)) => read_named(&names, &values, "RetransSegs"),
        None => None,
    }
}

/// The sum, held to what a `u64` can take.
pub open spec fn sum_capped(a: int, b: int) -> int {
    if a + b <= u64::MAX {
        a + b
    } else {
        u64::MAX as int
    }
}

/// The hexadecimal number in a column; 0 where the column or the number is missing.
pub open spec fn hex_at(row: Seq<Seq<char>>, col: Option<int>) -> u64 {
    match col {
        Some(i) => if 0 <= i < row.len() {
            match hex_of(row[i]) {
                Some(n) => n,
                None => 0,
            }
        } else {
            0
        },
        None => 0,
    }
}

/// The sum of a column over the rows, held to what a `u64` can take.
pub open spec fn column_sum(rows: Seq<Seq<char>>, col: Option<int>) -> int
    decreases rows.len(),
{
    if rows.len() == 0 {
        0
    } else {
        sum_capped(column_sum(rows.drop_last(), col), hex_at(words(rows.last()), col) as int)
    }
}

/// Some line holds a word.
pub open spec fn any_data(rows: Seq<Seq<char>>) -> bool {
    exists|i: int| 0 <= i < rows.len() && words(#[trigger] rows[i]).len() > 0
}

pub open spec fn conntrack_drops(output: Seq<char>) -> Option<(u64, u64, u64)> {
    let ls = lines(output);
    if ls.len() == 0 {
        None
    } else {
        let header = words(ls[0]);
        let rows = ls.skip(1);
        let d = column(header, "drop"@);
        let e = column(header, "early_drop"@);
        let i = column(header, "insert_failed"@);
        if (d.is_some() || e.is_some() || i.is_some()) && any_data(rows) {
            Some(
                (
                    column_sum(rows, d) as u64,
                    column_sum(rows, e) as u64,
                    column_sum(rows, i) as u64,
                ),
            )
        } else {
            None
        }
    }
}

fn read_hex_at(row: &Vec<&[char]>, col: Option<usize>) -> (r: u64)
    ensures
        r == hex_at(
            deep(row@),
            match col {
                Some(i) => Some(i as int),
                None => None,
            },
        ),
{
    match col {
        Some(i) => {
            if i < row.len() {
                match parse_hex(row[i]) {
                    Some(n) => n,
                    None => 0,
                }
            } else {
                0
            }
        },
        None => 0,
    }
}

pub open spec fn as_int(i: Option<usize>) -> Option<int> {
    match i {
        Some(i) => Some(i as int),
        None => None,
    }
}

/// Parses `/proc/net/stat/nf_conntrack` into cumulative `(drop, early_drop,
/// insert_failed)` summed across CPUs. The first line is the column names, then
/// one hex-value line per CPU in the same order; columns are found by name (like
/// [`parse_netstat_listen`]) so kernel-version shifts don't matter, and values
/// are hex. `None` if none of the three drop-related columns exist or there are
/// no data rows. A missing column contributes 0 (older kernels lack some). A sum
/// past what a `u64` holds stays at the largest.
pub fn parse_conntrack_drops(output: &str) -> (r: Option<(u64, u64, u64)>)
    ensures
        r == conntrack_drops(output@),
{
    let text = chars_of(output);
    let ls = split_lines(text.as_slice());
    if ls.len() == 0 {
        return None;
    }
    let header = split_words(ls[0]);
    let di = find_column(&header, "drop");
    let ei = find_column(&header, "early_drop");
    let ii = find_column(&header, "insert_failed");
    if di.is_none() && ei.is_none() && ii.is_none() {
        return None;
    }
    let mut drop: u64 = 0;
    let mut early: u64 = 0;
    let mut failed: u64 = 0;
    let mut any: bool = false;
    let ghost rows = deep(ls@).skip(1);
    let mut i: usize = 1;
    while i < ls.len()
        invariant
            1 <= i <= ls@.len(),
            rows == deep(ls@).skip(1),
            drop == column_sum(rows.take(i - 1), as_int(di)),
            early == column_sum(rows.take(i - 1), as_int(ei)),
            failed == column_sum(rows.take(i - 1), as_int(ii)),
            any == any_data(rows.take(i - 1)),
        decreases ls@.len() - i,
    {
        let f = split_words(ls[i]);
        proof {
            assert(rows.take(i as int).drop_last() == rows.take(i - 1));
            assert(rows.take(i as int).last() == ls@[i as int]@);
            if any_data(rows.take(i - 1)) {
                let k = choose|k: int|
                    0 <= k < rows.take(i - 1).len() && words(#[trigger] rows.take(i - 1)[k]).len()
                        > 0;
                assert(rows.take(i as int)[k] == rows.take(i - 1)[k]);
            }
            if f@.len() > 0 {
                assert(words(rows.take(i as int)[i - 1]).len() > 0);
            }
            if any_data(rows.take(i as int)) && f@.len() == 0 {
                let k = choose|k: int|
                    0 <= k < rows.take(i as int).len() && words(
                        #[trigger] rows.take(i as int)[k],
                    ).len() > 0;
                assert(rows.take(i - 1)[k] == rows.take(i as int)[k]);
            }
        }
        any = any || f.len() > 0;
        drop = drop.saturating_add(read_hex_at(&f, di));
        early = early.saturating_add(read_hex_at(&f, ei));
        failed = failed.saturating_add(read_hex_at(&f, ii));
        i = i + 1;
    }
    proof {
        lemma_take_all(rows);
    }
    if any {
        Some((drop, early, failed))
    } else {
        None
    }
}

/// One kernel-log category with its hit count and most-recent matching line.
#[derive(Debug, Clone, PartialEq)]
pub struct KernelEventCategory {
    pub label: &'static str,
    pub count: usize,
    pub last_line: String,
    pub critical: bool,
}

/// The model of a [`KernelEventCategory`].
pub ghost struct KernelEventCategoryView {
    pub label: Seq<char>,
    pub count: int,
    pub last_line: Seq<char>,
    pub critical: bool,
}

impl View for KernelEventCategory {
    type V = KernelEventCategoryView;

    open spec fn view(&self) -> KernelEventCategoryView {
        KernelEventCategoryView {
            label: self.label@,
            count: self.count as int,
            last_line: self.last_line@,
            critical: self.critical,
        }
    }
}

/// Result of scanning the kernel ring buffer for curated failure signatures.
#[derive(Debug, Clone, PartialEq)]
pub struct KernelEvents {
    /// Matched categories, in signature order (only non-empty ones appear).
    pub categories: Vec<KernelEventCategory>,
}

impl View for KernelEvents {
    type V = Seq<KernelEventCategoryView>;

    open spec fn view(&self) -> Seq<KernelEventCategoryView> {
        deep(self.categories@)
    }
}

/// The matched lines of all categories together, held to what a `usize` can take.
pub open spec fn event_total(cats: Seq<KernelEventCategoryView>) -> int
    decreases cats.len(),
{
    if cats.len() == 0 {
        0
    } else {
        let t = event_total(cats.drop_last()) + cats.last().count;
        if t <= usize::MAX {
            t
        } else {
            usize::MAX as int
        }
    }
}

/// Some category is a critical fault.
pub open spec fn event_critical(cats: Seq<KernelEventCategoryView>) -> bool {
    exists|i: int| 0 <= i < cats.len() && (#[trigger] cats[i]).critical
}

impl KernelEvents {
    /// Total matched lines across all categories.
    pub fn total(&self) -> (r: usize)
        ensures
            r == event_total(self@),
    {
        let mut n: usize = 0;
        let mut i: usize = 0;
        while i < self.categories.len()
            invariant
                i <= self.categories@.len(),
                n == event_total(self@.take(i as int)),
            decreases self.categories@.len() - i,
        {
            proof {
                assert(self@.take(i + 1).drop_last() == self@.take(i as int));
            }
            n = n.saturating_add(self.categories[i].count);
            i = i + 1;
        }
        proof {
            lemma_take_all(self@);
        }
        n
    }

    /// Whether any matched category is a critical (Crit-worthy) fault.
    pub fn any_critical(&self) -> (r: bool)
        ensures
            r == event_critical(self@),
    {
        let mut i: usize = 0;
        while i < self.categories.len()
            invariant
                i <= self.categories@.len(),
                forall|j: int| 0 <= j < i ==> !(#[trigger] self@[j]).critical,
            decreases self.categories@.len() - i,
        {
            if self.categories[i].critical {
                proof {
                    assert(self@[i as int].critical);
                }
                return true;
            }
            i = i + 1;
        }
        false
    }
}

/// Curated kernel-log signatures: `(substring, category label, critical)`.
/// Deliberately conservative: kernel wording drifts across versions, so each
/// needle is chosen to avoid benign lines (e.g. the boot-time `Machine check
/// events logged` note is *not* matched; only an actual `Machine Check Exception`
/// / `Hardware Error` is). OOM kills are covered by `health-oom`, not here.
pub const KERNEL_SIGNATURES: [(&'static str, &'static str, bool); 11] = [
    ("soft lockup", "soft lockup", true),
    ("blocked for more than", "hung task", true),
    ("Kernel panic", "kernel panic", true),
    ("Hardware Error", "hardware error (MCE)", true),
    ("Machine Check Exception", "machine check exception", true),
    ("Oops", "kernel oops", true),
    ("BUG:", "kernel BUG", true),
    ("nf_conntrack: table full", "conntrack table full", false),
    ("neighbour table overflow", "neighbour table overflow", false),
    ("EXT4-fs error", "ext4 filesystem error", false),
    ("blk_update_request", "block I/O error", false),
];

/// The first signature, from position `i` on, that the line holds.
pub open spec fn signature_from(line: Seq<char>, i: int) -> Option<int>
    decreases KERNEL_SIGNATURES@.len() - i,
{
    if i < 0 || i >= KERNEL_SIGNATURES@.len() {
        None
    } else if mentions(line, KERNEL_SIGNATURES@[i].0@) {
        Some(i)
    } else {
        signature_from(line, i + 1)
    }
}

fn find_signature(line: &[char]) -> (r: Option<usize>)
    ensures
        as_int(r) == signature_from(line@, 0),
        r matches Some(i) ==> i < KERNEL_SIGNATURES@.len(),
{
    let all = KERNEL_SIGNATURES;
    let mut i: usize = 0;
    while i < all.len()
        invariant
            all == KERNEL_SIGNATURES,
            i <= all@.len(),
            signature_from(line@, 0) == signature_from(line@, i as int),
        decreases all@.len() - i,
    {
        if contains_text(line, all[i].0) {
            return Some(i);
        }
        i = i + 1;
    }
    None
}

/// The lines that count under the signature at place `k`: those that match it and none
/// before it.
pub open spec fn lines_under(ls: Seq<Seq<char>>, k: int) -> Seq<Seq<char>> {
    ls.filter(|l: Seq<char>| signature_from(l, 0) == Some(k))
}

/// The category of the signature at place `k`, where a line counts under it: how many do, and
/// the last of them.
pub open spec fn event_category(ls: Seq<Seq<char>>, k: int) -> Option<KernelEventCategoryView> {
    let hits = lines_under(ls, k);
    if hits.len() == 0 {
        None
    } else {
        Some(
            KernelEventCategoryView {
                label: KERNEL_SIGNATURES@[k].1@,
                count: hits.len() as int,
                last_line: trim(hits.last()),
                critical: KERNEL_SIGNATURES@[k].2,
            },
        )
    }
}

/// The categories of the first `n` signatures, in their order.
pub open spec fn events_upto(ls: Seq<Seq<char>>, n: int) -> Seq<KernelEventCategoryView>
    decreases n,
{
    if n <= 0 {
        Seq::empty()
    } else {
        match event_category(ls, n - 1) {
            Some(c) => events_upto(ls, n - 1).push(c),
            None => events_upto(ls, n - 1),
        }
    }
}

/// The matched categories of a kernel log, in signature order.
pub open spec fn kernel_events(output: Seq<char>) -> Seq<KernelEventCategoryView> {
    events_upto(lines(output), KERNEL_SIGNATURES@.len() as int)
}

fn find_signatures(ls: &Vec<&[char]>) -> (r: Vec<Option<usize>>)
    ensures
        r@.len() == ls@.len(),
        forall|j: int|
            0 <= j < r@.len() ==> as_int(#[trigger] r@[j]) == signature_from(deep(ls@)[j], 0),
{
    let mut r: Vec<Option<usize>> = Vec::new();
    let mut i: usize = 0;
    while i < ls.len()
        invariant
            i <= ls@.len(),
            r@.len() == i,
            forall|j: int|
                0 <= j < i ==> as_int(#[trigger] r@[j]) == signature_from(deep(ls@)[j], 0),
        decreases ls@.len() - i,
    {
        r.push(find_signature(ls[i]));
        i = i + 1;
    }
    r
}

fn gather_category(ls: &Vec<&[char]>, found: &Vec<Option<usize>>, k: usize) -> (r: Option<
    KernelEventCategory,
>)
    requires
        k < KERNEL_SIGNATURES@.len(),
        found@.len() == ls@.len(),
        forall|j: int|
            0 <= j < found@.len() ==> as_int(#[trigger] found@[j]) == signature_from(
                deep(ls@)[j],
                0,
            ),
    ensures
        (match r {
            Some(c) => Some(c@),
            None => None,
        }) == event_category(deep(ls@), k as int),
{
    let ghost dl = deep(ls@);
    let ghost under = |l: Seq<char>| signature_from(l, 0) == Some(k as int);
    let mut count: usize = 0;
    let mut last: usize = 0;
    let mut i: usize = 0;
    while i < ls.len()
        invariant
            i <= ls@.len(),
            dl == deep(ls@),
            found@.len() == ls@.len(),
            under == |l: Seq<char>| signature_from(l, 0) == Some(k as int),
            forall|j: int|
                0 <= j < found@.len() ==> as_int(#[trigger] found@[j]) == signature_from(dl[j], 0),
            count == dl.take(i as int).filter(under).len(),
            count <= i,
            count > 0 ==> last < i && dl.take(i as int).filter(under).last() == dl[last as int],
        decreases ls@.len() - i,
    {
        proof {
            reveal(Seq::filter);
            assert(dl.take(i + 1).drop_last() == dl.take(i as int));
            assert(as_int(found@[i as int]) == signature_from(dl[i as int], 0));
        }
        let here = match found[i] {
            Some(n) => n == k,
            None => false,
        };
        if here {
            count = count + 1;
            last = i;
        }
        i = i + 1;
    }
    proof {
        lemma_take_all(dl);
        assert(lines_under(dl, k as int) == dl.filter(under));
    }
    if count == 0 {
        return None;
    }
    let sigs = KERNEL_SIGNATURES;
    Some(
        KernelEventCategory {
            label: sigs[k].1,
            count,
            last_line: text_of(trimmed(ls[last])),
            critical: sigs[k].2,
        },
    )
}

/// Scans `dmesg` output for the curated [`KERNEL_SIGNATURES`]. Each line is counted
/// under the first signature it matches (specific patterns are ordered first), so
/// a `BUG: soft lockup` line lands in `soft lockup`, not `kernel BUG`. The most
/// recent matching line per category is kept for the report detail.
pub fn parse_kernel_events(output: &str) -> (r: KernelEvents)
    ensures
        r@ == kernel_events(output@),
{
    broadcast use lemma_deep_empty;

    let text = chars_of(output);
    let ls = split_lines(text.as_slice());
    let found = find_signatures(&ls);
    let mut cats: Vec<KernelEventCategory> = Vec::new();
    let ghost dl = deep(ls@);
    let mut k: usize = 0;
    while k < KERNEL_SIGNATURES.len()
        invariant
            k <= KERNEL_SIGNATURES@.len(),
            dl == deep(ls@),
            found@.len() == ls@.len(),
            forall|j: int|
                0 <= j < found@.len() ==> as_int(#[trigger] found@[j]) == signature_from(dl[j], 0),
            deep(cats@) == events_upto(dl, k as int),
        decreases KERNEL_SIGNATURES@.len() - k,
    {
        broadcast use lemma_deep_push;

        match gather_category(&ls, &found, k) {
            Some(c) => {
                cats.push(c);
            },
            None => {},
        }
        k = k + 1;
    }
    KernelEvents { categories: cats }
}

/// One process row from `ps -eo pid,comm,pcpu,pmem`; the shares are in millionths of a
/// percent.
#[derive(Debug, Clone, PartialEq)]
pub struct ProcInfo {
    pub pid: u32,
    pub comm: String,
    pub cpu: i64,
    pub mem: i64,
}

/// The model of a [`ProcInfo`].
pub ghost struct ProcInfoView {
    pub pid: u32,
    pub comm: Seq<char>,
    pub cpu: i64,
    pub mem: i64,
}

impl View for ProcInfo {
    type V = ProcInfoView;

    open spec fn view(&self) -> ProcInfoView {
        ProcInfoView { pid: self.pid, comm: self.comm@, cpu: self.cpu, mem: self.mem }
    }
}

impl ProcInfo {
    pub fn copy(&self) -> (r: ProcInfo)
        ensures
            r@ == self@,
    {
        ProcInfo { pid: self.pid, comm: self.comm.clone(), cpu: self.cpu, mem: self.mem }
    }
}

pub open spec fn process_row(line: Seq<char>) -> Option<ProcInfoView> {
    let f = words(line);
    if f.len() < 4 || f[0] == "PID"@ {
        None
    } else {
        match (u32_of(f[0]), decimal_of(f[2]), decimal_of(f[3])) {
            (Some(pid), Some(cpu), Some(mem)) => Some(
                ProcInfoView { pid, comm: f[1], cpu, mem },
            ),
            _ => None,
        }
    }
}

pub open spec fn process_rows(output: Seq<char>) -> Seq<ProcInfoView> {
    lines(output).filter_map(|l: Seq<char>| process_row(l))
}

fn process_line(line: &[char]) -> (r: Option<ProcInfo>)
    ensures
        deep_option(r) == process_row(line@),
{
    let f = split_words(line);
    if f.len() < 4 || spells(f[0], "PID") {
        return None;
    }
    match (parse_u32(f[0]), parse_decimal(f[2]), parse_decimal(f[3])) {
        (Some(pid), Some(cpu), Some(mem)) => Some(
            ProcInfo { pid, comm: text_of(f[1]), cpu, mem },
        ),
        _ => None,
    }
}

/// Parses `ps -eo pid,comm,pcpu,pmem --sort=-pcpu`.
pub fn parse_ps(output: &str) -> (r: Vec<ProcInfo>)
    ensures
        deep(r@) == process_rows(output@),
{
    collect_lines(output, process_line, Ghost(|l: Seq<char>| process_row(l)))
}

pub open spec fn oom_kill(line: Seq<char>) -> bool {
    mentions(line, "Out of memory: Kill"@)
}

fn is_oom_kill(line: &[char]) -> (r: bool)
    ensures
        r == oom_kill(line@),
{
    contains_text(line, "Out of memory: Kill")
}

/// Counts OOM-killer kills in `dmesg` output. The kernel logs one
/// `Out of memory: Kill process ...` / `Out of memory: Killed process ...` line
/// per victim (wording varies by kernel version), so counting that prefix counts
/// the kills. Matching `Out of memory: Kill` covers both spellings.
pub fn parse_oom_kills(output: &str) -> (r: usize)
    ensures
        r == count_where(lines(output@), |l: Seq<char>| oom_kill(l)),
{
    count_lines(output, is_oom_kill, Ghost(|l: Seq<char>| oom_kill(l)))
}

pub open spec fn zombie(line: Seq<char>) -> bool {
    let t = trim_start(line);
    t.len() > 0 && t[0] == 'Z'
}

fn is_zombie(line: &[char]) -> (r: bool)
    ensures
        r == zombie(line@),
{
    let t = trimmed_start(line);
    t.len() > 0 && t[0] == 'Z'
}

/// Counts zombie (defunct) processes in `ps -eo stat --no-headers` output. Each
/// line is a process's STAT field; the state is the leading letter, so `Z`
/// (optionally with modifiers like `Z+`, `Zl`) marks a zombie. Blank lines are
/// skipped.
pub fn parse_zombie_count(output: &str) -> (r: usize)
    ensures
        r == count_where(lines(output@), |l: Seq<char>| zombie(l)),
{
    count_lines(output, is_zombie, Ghost(|l: Seq<char>| zombie(l)))
}

/// Cumulative RX/TX counters for one interface, from `/proc/net/dev`: bytes,
/// packets, errors and drops per direction.
#[derive(Debug, Clone, Copy, PartialEq, Eq, Structural)]
pub struct NetCounters {
    pub rx_bytes: u64,
    pub rx_packets: u64,
    pub rx_errs: u64,
    pub rx_drop: u64,
    pub tx_bytes: u64,
    pub tx_packets: u64,
    pub tx_errs: u64,
    pub tx_drop: u64,
}

impl View for NetCounters {
    type V = NetCounters;

    open spec fn view(&self) -> NetCounters {
        *self
    }
}

/// The interface on a line and its counters.
pub open spec fn interface_row(line: Seq<char>) -> Option<(Seq<char>, NetCounters)> {
    match cut(line, ':') {
        None => None,
        Some((name, rest)) => {
            let iface = trim(name);
            let nums = numbers(words(rest));
            if iface.len() == 0 || iface == "lo"@ || nums.len() < 12 {
                None
            } else {
                Some(
                    (
                        iface,
                        NetCounters {
                            rx_bytes: nums[0],
                            rx_packets: nums[1],
                            rx_errs: nums[2],
                            rx_drop: nums[3],
                            tx_bytes: nums[8],
                            tx_packets: nums[9],
                            tx_errs: nums[10],
                            tx_drop: nums[11],
                        },
                    ),
                )
            }
        },
    }
}

pub open spec fn interface_step(m: Seq<(Seq<char>, NetCounters)>, line: Seq<char>) -> Seq<
    (Seq<char>, NetCounters),
> {
    match interface_row(line) {
        Some((name, c)) => put(m, name, c),
        None => m,
    }
}

pub open spec fn interfaces(output: Seq<char>) -> Seq<(Seq<char>, NetCounters)> {
    lines(output).fold_left(
        Seq::empty(),
        |m: Seq<(Seq<char>, NetCounters)>, l: Seq<char>| interface_step(m, l),
    )
}

fn interface_line(m: TextMap<NetCounters>, line: &[char]) -> (r: TextMap<NetCounters>)
    ensures
        r@ == interface_step(m@, line@),
{
    let (name, rest) = match split_at_char(line, ':') {
        Some(pair) => pair,
        None => {
            return m;
        },
    };
    let iface = trimmed(name);
    if iface.len() == 0 || spells(iface, "lo") {
        return m;
    }
    let ws = split_words(rest);
    let nums = parse_numbers(&ws);
    if nums.len() < 12 {
        return m;
    }
    let mut out = m;
    out.insert(
        text_of(iface),
        NetCounters {
            rx_bytes: nums[0],
            rx_packets: nums[1],
            rx_errs: nums[2],
            rx_drop: nums[3],
            tx_bytes: nums[8],
            tx_packets: nums[9],
            tx_errs: nums[10],
            tx_drop: nums[11],
        },
    );
    out
}

/// Parses `cat /proc/net/dev` into `iface -> counters`. The two header lines and
/// the loopback interface are skipped. Columns after the `iface:` are receive
/// (`bytes` 0, `packets` 1, `errs` 2, `drop` 3, ...) then transmit (`bytes` 8,
/// `packets` 9, `errs` 10, `drop` 11, ...).
pub fn parse_net_dev(output: &str) -> (r: TextMap<NetCounters>)
    ensures
        r@ == interfaces(output@),
{
    fold_lines(
        output,
        TextMap::new(),
        interface_line,
        Ghost(|m: Seq<(Seq<char>, NetCounters)>, l: Seq<char>| interface_step(m, l)),
    )
}

/// Socket totals from `ss -s`.
#[derive(Debug, Clone, Copy, PartialEq, Eq, Structural)]
pub struct SocketSummary {
    pub total: u64,
    pub tcp_estab: u64,
}

/// A character that is a decimal digit.
pub open spec fn is_digit_fn() -> spec_fn(char) -> bool {
    |c: char| digit(c).is_some()
}

/// The number directly behind the first `needle`.
pub open spec fn number_after(hay: Seq<char>, needle: Seq<char>) -> Option<u64> {
    match after_first(hay, needle) {
        Some(rest) => {
            let t = trim_start(rest);
            u64_of(t.take(run(t, is_digit_fn())))
        },
        None => None,
    }
}

fn read_number_after(hay: &[char], needle: &str) -> (r: Option<u64>)
    ensures
        r == number_after(hay@, needle@),
{
    match text_after(hay, needle) {
        Some(rest) => {
            let t = trimmed_start(rest);
            let mut n: usize = 0;
            while n < t.len() && is_digit(t[n])
                invariant
                    n <= t@.len(),
                    forall|j: int| 0 <= j < n ==> digit(#[trigger] t@[j]).is_some(),
                decreases t@.len() - n,
            {
                n = n + 1;
            }
            let head = slice_subrange(t, 0, n);
            proof {
                lemma_run_ends_at(t@, is_digit_fn(), n as int);
                assert(head@ == t@.take(n as int));
            }
            parse_u64(head)
        },
        None => None,
    }
}

/// What is known after some lines of `ss -s`.
#[derive(Debug, Clone, Copy)]
pub struct SocketScan {
    pub total: Option<u64>,
    pub tcp_estab: u64,
}

impl View for SocketScan {
    type V = SocketScan;

    open spec fn view(&self) -> SocketScan {
        *self
    }
}

/// The first `Total:` counts; the last `TCP:` line with `estab` counts.
pub open spec fn socket_step(st: SocketScan, line: Seq<char>) -> SocketScan {
    SocketScan {
        total: match st.total {
            Some(n) => Some(n),
            None => number_after(line, "Total:"@),
        },
        tcp_estab: match number_after(line, "estab "@) {
            Some(n) => if starts_with(trim_start(line), "TCP:"@) {
                n
            } else {
                st.tcp_estab
            },
            None => st.tcp_estab,
        },
    }
}

pub open spec fn socket_summary(output: Seq<char>) -> Option<SocketSummary> {
    let end = lines(output).fold_left(
        (SocketScan { total: None, tcp_estab: 0 }),
        |st: SocketScan, l: Seq<char>| socket_step(st, l),
    );
    match end.total {
        Some(total) => Some(SocketSummary { total, tcp_estab: end.tcp_estab }),
        None => None,
    }
}

fn socket_line(st: SocketScan, line: &[char]) -> (r: SocketScan)
    ensures
        r@ == socket_step(st@, line@),
{
    let total: Option<u64> = match st.total {
        Some(n) => Some(n),
        None => read_number_after(line, "Total:"),
    };
    let mut tcp_estab: u64 = st.tcp_estab;
    if begins(trimmed_start(line), "TCP:") {
        match read_number_after(line, "estab ") {
            Some(n) => {
                tcp_estab = n;
            },
            None => {},
        }
    }
    SocketScan { total, tcp_estab }
}

/// Parses `ss -s` (`Total: N` and the `TCP:` line's `estab N`).
pub fn parse_ss_summary(output: &str) -> (r: Option<SocketSummary>)
    ensures
        r == socket_summary(output@),
{
    let end = fold_lines(
        output,
        SocketScan { total: None, tcp_estab: 0 },
        socket_line,
        Ghost(|st: SocketScan, l: Seq<char>| socket_step(st, l)),
    );
    match end.total {
        Some(total) => Some(SocketSummary { total, tcp_estab: end.tcp_estab }),
        None => None,
    }
}

/// CPU-pressure figures from the current (second) sample of `vmstat 1 2`.
#[derive(Debug, Clone, Copy, PartialEq, Eq, Structural)]
pub struct VmStat {
    /// `wa`: percent of CPU time waiting on I/O, in millionths.
    pub iowait: i64,
    /// `st`: percent of CPU time stolen by the hypervisor, in millionths (0 if absent).
    pub steal: i64,
    /// `b`: processes blocked on I/O.
    pub blocked: u64,
}

/// The columns of `wa`, `st` and `b`, and the last data row.
pub struct VmScan {
    pub columns: Option<(usize, Option<usize>, Option<usize>)>,
    pub data: Option<Vec<i64>>,
}

/// The model of a [`VmScan`].
pub ghost struct VmScanView {
    pub columns: Option<(int, Option<int>, Option<int>)>,
    pub data: Option<Seq<i64>>,
}

impl View for VmScan {
    type V = VmScanView;

    open spec fn view(&self) -> VmScanView {
        VmScanView {
            columns: match self.columns {
                Some((wa, st, b)) => Some((wa as int, as_int(st), as_int(b))),
                None => None,
            },
            data: deep_option(self.data),
        }
    }
}

/// All words are decimal numbers.
pub open spec fn all_decimal(ws: Seq<Seq<char>>) -> bool {
    forall|i: int| 0 <= i < ws.len() ==> decimal_of(#[trigger] ws[i]).is_some()
}

pub open spec fn decimals(ws: Seq<Seq<char>>) -> Seq<i64> {
    ws.map_values(
        |w: Seq<char>|
            match decimal_of(w) {
                Some(v) => v,
                None => 0i64,
            },
    )
}

/// A row that names the `wa` column is the header; a row of numbers is data.
pub open spec fn vm_step(st: VmScanView, line: Seq<char>) -> VmScanView {
    let ws = words(line);
    if ws.len() == 0 {
        st
    } else {
        match column(ws, "wa"@) {
            Some(wa) => VmScanView {
                columns: Some((wa, column(ws, "st"@), column(ws, "b"@))),
                ..st
            },
            None => if all_decimal(ws) {
                VmScanView { data: Some(decimals(ws)), ..st }
            } else {
                st
            },
        }
    }
}

pub open spec fn vm_scan(output: Seq<char>) -> VmScanView {
    lines(output).fold_left(
        (VmScanView { columns: None, data: None }),
        |st: VmScanView, l: Seq<char>| vm_step(st, l),
    )
}

/// The value in a column; 0 where there is none.
pub open spec fn cell(data: Seq<i64>, col: Option<int>) -> i64 {
    match col {
        Some(i) => if 0 <= i < data.len() {
            data[i]
        } else {
            0
        },
        None => 0,
    }
}

/// The whole units in a quantity; nothing below zero.
pub open spec fn whole_units(m: i64) -> u64 {
    if m <= 0 {
        0
    } else {
        (m / UNIT) as u64
    }
}

pub open spec fn vm_stat(output: Seq<char>) -> Option<VmStat> {
    let end = vm_scan(output);
    match (end.columns, end.data) {
        (Some((wa, st, b)), Some(data)) => if 0 <= wa < data.len() {
            Some(
                VmStat {
                    iowait: data[wa],
                    steal: cell(data, st),
                    blocked: whole_units(cell(data, b)),
                },
            )
        } else {
            None
        },
        _ => None,
    }
}

fn read_decimals(ws: &Vec<&[char]>) -> (r: Option<Vec<i64>>)
    ensures
        match r {
            Some(v) => all_decimal(deep(ws@)) && v@ == decimals(deep(ws@)),
            None => !all_decimal(deep(ws@)),
        },
{
    let mut out: Vec<i64> = Vec::new();
    let mut i: usize = 0;
    while i < ws.len()
        invariant
            i <= ws@.len(),
            out@ == decimals(deep(ws@)).take(i as int),
            forall|j: int| 0 <= j < i ==> decimal_of(#[trigger] deep(ws@)[j]).is_some(),
        decreases ws@.len() - i,
    {
        match parse_decimal(ws[i]) {
            Some(v) => {
                out.push(v);
            },
            None => {
                proof {
                    assert(decimal_of(deep(ws@)[i as int]).is_none());
                }
                return None;
            },
        }
        proof {
            assert(decimals(deep(ws@)).take(i + 1) == decimals(deep(ws@)).take(i as int).push(
                decimals(deep(ws@))[i as int],
            ));
        }
        i = i + 1;
    }
    proof {
        lemma_take_all(decimals(deep(ws@)));
    }
    Some(out)
}

fn vm_line(st: VmScan, line: &[char]) -> (r: VmScan)
    ensures
        r@ == vm_step(st@, line@),
{
    let ws = split_words(line);
    if ws.len() == 0 {
        return st;
    }
    match find_column(&ws, "wa") {
        Some(wa) => VmScan {
            columns: Some((wa, find_column(&ws, "st"), find_column(&ws, "b"))),
            data: st.data,
        },
        None => match read_decimals(&ws) {
            Some(data) => VmScan { columns: st.columns, data: Some(data) },
            None => st,
        },
    }
}

fn read_cell(data: &Vec<i64>, col: Option<usize>) -> (r: i64)
    ensures
        r == cell(data@, as_int(col)),
{
    match col {
        Some(i) => {
            if i < data.len() {
                data[i]
            } else {
                0
            }
        },
        None => 0,
    }
}

/// Parses `vmstat 1 2`. The column header (`... us sy id wa st`) is located by
/// name, so field order variations are tolerated, and the *last* all-numeric row
/// is used: the one-second delta, not the since-boot average in row one.
pub fn parse_vmstat(output: &str) -> (r: Option<VmStat>)
    ensures
        r == vm_stat(output@),
{
    let end = fold_lines(
        output,
        VmScan { columns: None, data: None },
        vm_line,
        Ghost(|st: VmScanView, l: Seq<char>| vm_step(st, l)),
    );
    match (end.columns, end.data) {
        (Some((wa, st, b)), Some(data)) => {
            if wa < data.len() {
                let waiting = read_cell(&data, b);
                let blocked: u64 = if waiting <= 0 {
                    0
                } else {
                    (waiting / UNIT) as u64
                };
                Some(VmStat { iowait: data[wa], steal: read_cell(&data, st), blocked })
            } else {
                None
            }
        },
        _ => None,
    }
}

/// What follows `NTPSynchronized=` on a line.
pub open spec fn synced_field(line: Seq<char>) -> Option<Seq<char>> {
    let t = trim(line);
    if starts_with(t, "NTPSynchronized="@) {
        Some(t.skip("NTPSynchronized="@.len() as int))
    } else {
        None
    }
}

pub open spec fn clock_synced(output: Seq<char>) -> Option<bool> {
    let found = lines(output).filter_map(|l: Seq<char>| synced_field(l));
    if found.len() == 0 {
        None
    } else if found[0] == "yes"@ {
        Some(true)
    } else if found[0] == "no"@ {
        Some(false)
    } else {
        None
    }
}

fn synced_line(line: &[char]) -> (r: Option<String>)
    ensures
        deep_option(r) == synced_field(line@),
{
    let t = trimmed(line);
    let n: usize = chars_of("NTPSynchronized=").len();
    if begins(t, "NTPSynchronized=") {
        let rest = slice_subrange(t, n, t.len());
        proof {
            assert(rest@ == t@.skip(n as int));
        }
        Some(text_of(rest))
    } else {
        None
    }
}

/// Whether the system clock is synchronized, from the `NTPSynchronized=yes/no` field of
/// `timedatectl show`. `None` if the field is not reported.
pub fn parse_timedatectl_synced(output: &str) -> (r: Option<bool>)
    ensures
        r == clock_synced(output@),
{
    let found: Vec<String> = collect_lines(
        output,
        synced_line,
        Ghost(|l: Seq<char>| synced_field(l)),
    );
    if found.len() == 0 {
        None
    } else if crate::text::search::eq_text(found[0].as_str(), "yes") {
        Some(true)
    } else if crate::text::search::eq_text(found[0].as_str(), "no") {
        Some(false)
    } else {
        None
    }
}

pub open spec fn reboot_flag(line: Seq<char>) -> bool {
    trim(line) == "reboot-required"@
}

fn is_reboot_flag(line: &[char]) -> (r: bool)
    ensures
        r == reboot_flag(line@),
{
    spells(trimmed(line), "reboot-required")
}

/// The listing shows the `reboot-required` flag file.
pub open spec fn reboot_required(output: Seq<char>) -> bool {
    count_where(lines(output), |l: Seq<char>| reboot_flag(l)) > 0
}

/// Whether the `/run` listing shows the `reboot-required` flag file.
pub fn parse_reboot_required(output: &str) -> (r: bool)
    ensures
        r == reboot_required(output@),
{
    count_lines(output, is_reboot_flag, Ghost(|l: Seq<char>| reboot_flag(l))) > 0
}

/// A filesystem type that is writable unless something went wrong.
pub open spec fn writable_type(t: Seq<char>) -> bool {
    starts_with(t, "ext"@) || t == "xfs"@ || t == "btrfs"@
}

/// The mount point and the device of a disk filesystem that is mounted read-only.
pub open spec fn readonly_mount(line: Seq<char>) -> Option<(Seq<char>, Seq<char>)> {
    let f = words(line);
    if f.len() >= 4 && starts_with(f[0], "/dev/"@) && writable_type(f[2]) && fields(
        f[3],
        ',',
    ).contains("ro"@) {
        Some((f[1], f[0]))
    } else {
        None
    }
}

pub open spec fn readonly_mounts(output: Seq<char>) -> Seq<(Seq<char>, Seq<char>)> {
    lines(output).filter_map(|l: Seq<char>| readonly_mount(l))
}

fn readonly_line(line: &[char]) -> (r: Option<(String, String)>)
    ensures
        deep_option(r) == readonly_mount(line@),
{
    let f = split_words(line);
    if f.len() < 4 {
        return None;
    }
    let opts = split_char(f[3], ',');
    if begins(f[0], "/dev/") && (begins(f[2], "ext") || spells(f[2], "xfs") || spells(
        f[2],
        "btrfs",
    )) && contains_word(&opts, "ro") {
        Some((text_of(f[1]), text_of(f[0])))
    } else {
        None
    }
}

/// Normally-writable disk filesystems (ext*/xfs/btrfs on a `/dev/*` device) that
/// `/proc/mounts` shows as read-only, as `(mountpoint, device)`. Read-only-by-design
/// filesystems (squashfs snaps, iso9660) are not among them.
pub fn parse_readonly_mounts(output: &str) -> (r: Vec<(String, String)>)
    ensures
        deep(r@) == readonly_mounts(output@),
{
    collect_lines(output, readonly_line, Ghost(|l: Seq<char>| readonly_mount(l)))
}

/// The month names that `openssl` writes.
pub const MONTHS: [&'static str; 12] = [
    "Jan",
    "Feb",
    "Mar",
    "Apr",
    "May",
    "Jun",
    "Jul",
    "Aug",
    "Sep",
    "Oct",
    "Nov",
    "Dec",
];

/// The number of the month of that name, looked for from position `i` on.
pub open spec fn month_from(name: Seq<char>, i: int) -> Option<int>
    decreases MONTHS@.len() - i,
{
    if i < 0 || i >= MONTHS@.len() {
        None
    } else if MONTHS@[i]@ == name {
        Some(i + 1)
    } else {
        month_from(name, i + 1)
    }
}

fn read_month(name: &[char]) -> (r: Option<u32>)
    ensures
        match r {
            Some(m) => month_from(name@, 0) == Some(m as int) && 1 <= m <= 12,
            None => month_from(name@, 0).is_none(),
        },
{
    let all = MONTHS;
    let mut i: usize = 0;
    while i < all.len()
        invariant
            all == MONTHS,
            i <= all@.len(),
            month_from(name@, 0) == month_from(name@, i as int),
        decreases all@.len() - i,
    {
        if spells(name, all[i]) {
            return Some(i as u32 + 1);
        }
        i = i + 1;
    }
    None
}

/// The second of the day that `HH:MM:SS` names.
pub open spec fn clock_time(text: Seq<char>) -> Option<int> {
    let f = fields(text, ':');
    if f.len() != 3 {
        None
    } else {
        match (u8_of(f[0]), u8_of(f[1]), u8_of(f[2])) {
            (Some(h), Some(m), Some(s)) => if h < 24 && m < 60 && s < 60 {
                Some(h * 3600 + m * 60 + s)
            } else {
                None
            },
            _ => None,
        }
    }
}

fn read_clock_time(text: &[char]) -> (r: Option<i64>)
    ensures
        match r {
            Some(t) => clock_time(text@) == Some(t as int) && 0 <= t < 86_400,
            None => clock_time(text@).is_none(),
        },
{
    let f = split_char(text, ':');
    if f.len() != 3 {
        return None;
    }
    match (parse_u8(f[0]), parse_u8(f[1]), parse_u8(f[2])) {
        (Some(h), Some(m), Some(s)) => {
            if h < 24 && m < 60 && s < 60 {
                Some(h as i64 * 3600 + m as i64 * 60 + s as i64)
            } else {
                None
            }
        },
        _ => None,
    }
}

/// The unix time of a date such as `Nov 15 12:00:00 2026 GMT`.
pub open spec fn cert_date(text: Seq<char>) -> Option<int> {
    let w = words(text);
    if w.len() < 4 {
        None
    } else {
        match (month_from(w[0], 0), u8_of(w[1]), clock_time(w[2]), u16_of(w[3])) {
            (Some(m), Some(d), Some(t), Some(y)) => if valid_date(y as int, m, d as int) {
                Some(day_number(y as int, m, d as int) * 86_400 + t)
            } else {
                None
            },
            _ => None,
        }
    }
}

/// What follows `notAfter=` on a line.
pub open spec fn notafter_field(line: Seq<char>) -> Option<Seq<char>> {
    let t = trim(line);
    if starts_with(t, "notAfter="@) {
        Some(t.skip("notAfter="@.len() as int))
    } else {
        None
    }
}

pub open spec fn cert_notafter(output: Seq<char>) -> Option<int> {
    let found = lines(output).filter_map(|l: Seq<char>| notafter_field(l));
    if found.len() == 0 {
        None
    } else {
        cert_date(found[0])
    }
}

fn notafter_line(line: &[char]) -> (r: Option<String>)
    ensures
        deep_option(r) == notafter_field(line@),
{
    let t = trimmed(line);
    let n: usize = chars_of("notAfter=").len();
    if begins(t, "notAfter=") {
        let rest = slice_subrange(t, n, t.len());
        proof {
            assert(rest@ == t@.skip(n as int));
        }
        Some(text_of(rest))
    } else {
        None
    }
}

/// The end of a certificate's validity in unix seconds, from the `notAfter=` line of
/// `openssl x509 -noout -enddate`. `None` if there is no such line or its date cannot be read.
pub fn parse_cert_notafter(output: &str) -> (r: Option<i64>)
    ensures
        match r {
            Some(t) => cert_notafter(output@) == Some(t as int) && -62_135_596_800 <= t
                <= 2_006_208_086_400,
            None => cert_notafter(output@).is_none(),
        },
{
    let found: Vec<String> = collect_lines(
        output,
        notafter_line,
        Ghost(|l: Seq<char>| notafter_field(l)),
    );
    if found.len() == 0 {
        return None;
    }
    let text = chars_of(found[0].as_str());
    let w = split_words(text.as_slice());
    if w.len() < 4 {
        return None;
    }
    match (read_month(w[0]), parse_u8(w[1]), read_clock_time(w[2]), parse_u16(w[3])) {
        (Some(m), Some(d), Some(t), Some(y)) => {
            if y >= 1 && d >= 1 && d as u32 <= days_in_month(y as u64, m) {
                Some(days_from_date(y, m, d as u32) * 86_400 + t)
            } else {
                None
            }
        },
        _ => None,
    }
}

} // verus!
