//! Persistence of operational-health snapshots per target.
//!
//! Append-only JSONL, one file per target alias (`<alias>.jsonl`), one snapshot
//! per line. Deliberately file-based, with no database dependency, so that the
//! history is human-inspectable and trivially mounted as a volume.
//!
//! This module only frames, keeps and lists history; the baselining/anomaly detection
//! over it lives in [`crate::anomaly`].

pub use crate::calendar::fmt_utc;

use crate::calendar::utc;
use crate::catalog::lemma_trim_identity;
use crate::config::copy_texts;
use crate::health::report::{status_name, status_text};
use crate::health::{HealthReport, HealthReportView, HealthStatus, MetricView};
use crate::json::{
    decimal_value, each, exact, field, group_merged, held, list, list_each, merged, object,
    reads_back, text_list, text_list_value, text_value, whole_value, Fields, FieldsView, JsonView,
};
use crate::json_text::{compact, keys_sorted, laid_out, line_of, pretty_ordered, JsonError};
use crate::snapshot_text::{lemma_by_key_all, lemma_snapshot_back, line_for, ordered, storable};
use crate::text::chars::{
    ascii_alphanumeric, chars_of, deep, deep_option, is_ascii_alphanumeric, lemma_deep_empty,
    lemma_deep_push, text_of,
};
use crate::text::compose::{
    align_left, align_right, append_all, join_texts, joined, left_aligned, right_aligned, written,
};
use crate::text::debug::{quote, quoted};
use crate::text::number::{
    digits, format_micros, format_usize, micros_text, parse_unsigned, unsigned,
};
use crate::text::order::{
    ascending, before, lemma_before_total, lemma_before_transitive, lemma_sorted, sort_texts,
    sorted,
};
use crate::text::search::{begins, eq_text, index_of, lemma_index_of, starts_with};
use crate::text::split::{
    collect_lines, ends_in_line_break, lemma_filter_map_step, lemma_fold_step, lemma_lines_concat,
    lemma_one_line, lemma_take_all, lines, strip_cr, trim, trimmed,
};
use crate::textmap::{distinct_keys, lemma_lookup_put, lemma_put_distinct, lookup, put, TextMap};
use vstd::prelude::*;
use vstd::slice::slice_subrange;
use vstd::string::StringExecFns;

verus! {

/// Default cap on stored snapshots per target; override with
/// `$LINUX_AUDIT_HISTORY_MAX` (`0` disables trimming). At an hourly cadence 1000
/// snapshots is about six weeks.
pub const DEFAULT_MAX: usize = 1000;

/// One persisted health reading: when it was taken (unix seconds), the overall
/// verdict, and the primary numeric value (in millionths) of each metric that had one,
/// keyed by metric id (e.g. `health-load` -> load per core). The state that the next run
/// compares with rides along: container uptimes, failed units and event counters.
#[derive(Debug, Clone)]
pub struct Snapshot {
    pub ts: u64,
    pub overall: HealthStatus,
    pub metrics: TextMap<i64>,
    pub containers: TextMap<u64>,
    pub failed_units: Vec<String>,
    pub event_counters: TextMap<u64>,
}

/// The model of a [`Snapshot`].
pub ghost struct SnapshotView {
    pub ts: u64,
    pub overall: HealthStatus,
    pub metrics: Seq<(Seq<char>, i64)>,
    pub containers: Seq<(Seq<char>, u64)>,
    pub failed_units: Seq<Seq<char>>,
    pub event_counters: Seq<(Seq<char>, u64)>,
}

impl View for Snapshot {
    type V = SnapshotView;

    open spec fn view(&self) -> SnapshotView {
        SnapshotView {
            ts: self.ts,
            overall: self.overall,
            metrics: self.metrics@,
            containers: self.containers@,
            failed_units: deep(self.failed_units@),
            event_counters: self.event_counters@,
        }
    }
}

/// One more metric: its number, if it has one, under its id.
pub open spec fn reading_step(m: Seq<(Seq<char>, i64)>, metric: MetricView) -> Seq<
    (Seq<char>, i64),
> {
    match metric.numeric {
        Some(v) => put(m, metric.id, v),
        None => m,
    }
}

/// The numbers of the metrics that have one.
pub open spec fn numeric_readings(metrics: Seq<MetricView>) -> Seq<(Seq<char>, i64)> {
    metrics.fold_left(
        Seq::empty(),
        |m: Seq<(Seq<char>, i64)>, x: MetricView| reading_step(m, x),
    )
}

/// What is kept of a report.
pub open spec fn snapshot_of_report(r: HealthReportView, ts: u64) -> SnapshotView {
    SnapshotView {
        ts,
        overall: r.overall,
        metrics: numeric_readings(r.metrics),
        containers: r.container_uptimes,
        failed_units: r.failed_units,
        event_counters: r.event_counters,
    }
}

/// What is kept of a report has no reading twice.
pub proof fn law_readings_are_distinct(metrics: Seq<MetricView>)
    ensures
        distinct_keys(numeric_readings(metrics)),
    decreases metrics.len(),
{
    let step = |m: Seq<(Seq<char>, i64)>, x: MetricView| reading_step(m, x);
    let empty = Seq::<(Seq<char>, i64)>::empty();
    if metrics.len() > 0 {
        law_readings_are_distinct(metrics.drop_last());
        let before = metrics.drop_last().fold_left(empty, step);
        assert(metrics.fold_left(empty, step) == reading_step(before, metrics.last()));
        match metrics.last().numeric {
            Some(v) => lemma_put_distinct(before, metrics.last().id, v),
            None => {},
        }
    } else {
        assert(metrics.fold_left(empty, step) == empty);
    }
}

fn copy_counts(m: &TextMap<u64>) -> (r: TextMap<u64>)
    ensures
        r@ == m@,
{
    broadcast use lemma_deep_empty;

    let mut entries: Vec<(String, u64)> = Vec::new();
    let mut i: usize = 0;
    while i < m.entries.len()
        invariant
            i <= m.entries@.len(),
            deep(entries@) == m@.take(i as int),
        decreases m.entries@.len() - i,
    {
        broadcast use lemma_deep_push;

        entries.push((m.entries[i].0.clone(), m.entries[i].1));
        proof {
            assert(m@.take(i + 1) == m@.take(i as int).push(m@[i as int]));
        }
        i = i + 1;
    }
    proof {
        lemma_take_all(m@);
    }
    TextMap { entries }
}

impl Snapshot {
    /// Derives a snapshot from a report and a collection timestamp. `Unknown`
    /// metrics carry no number and are simply absent from the map.
    pub fn from_report(report: &HealthReport, ts: u64) -> (r: Self)
        ensures
            r@ == snapshot_of_report(report@, ts),
    {
        let ghost step = |m: Seq<(Seq<char>, i64)>, x: MetricView| reading_step(m, x);
        let mut metrics: TextMap<i64> = TextMap::new();
        let mut i: usize = 0;
        while i < report.metrics.len()
            invariant
                i <= report.metrics@.len(),
                step == |m: Seq<(Seq<char>, i64)>, x: MetricView| reading_step(m, x),
                metrics@ == report@.metrics.take(i as int).fold_left(Seq::empty(), step),
            decreases report.metrics@.len() - i,
        {
            proof {
                lemma_fold_step(report@.metrics, Seq::empty(), step, i as int);
            }
            match report.metrics[i].numeric {
                Some(v) => {
                    metrics.insert(report.metrics[i].id.to_string(), v);
                },
                None => {},
            }
            i = i + 1;
        }
        proof {
            lemma_take_all(report@.metrics);
        }
        Snapshot {
            ts,
            overall: report.overall,
            metrics,
            containers: copy_counts(&report.container_uptimes),
            failed_units: copy_texts(&report.failed_units),
            event_counters: copy_counts(&report.event_counters),
        }
    }
}

/// The retention cap that a setting gives; the default where it is missing or no number.
pub open spec fn retention_cap(setting: Option<Seq<char>>) -> usize {
    match setting {
        Some(s) => match unsigned(s, 10, usize::MAX as int) {
            Some(n) => n as usize,
            None => DEFAULT_MAX,
        },
        None => DEFAULT_MAX,
    }
}

/// Configured retention cap (`$LINUX_AUDIT_HISTORY_MAX`), else [`DEFAULT_MAX`].
pub fn max_snapshots(setting: Option<&str>) -> (r: usize)
    ensures
        r == retention_cap(deep_option(setting)),
{
    match setting {
        Some(s) => {
            let text = chars_of(s);
            match parse_unsigned(text.as_slice(), 10, usize::MAX as u64) {
                Some(n) => n as usize,
                None => DEFAULT_MAX,
            }
        },
        None => DEFAULT_MAX,
    }
}

pub open spec fn alias_char(c: char) -> bool {
    ascii_alphanumeric(c) || c == '.' || c == '_' || c == '-'
}

/// An alias that can be a filename of its own.
pub open spec fn file_safe(alias: Seq<char>) -> bool {
    &&& alias.len() > 0
    &&& alias != "."@
    &&& alias != ".."@
    &&& forall|i: int| 0 <= i < alias.len() ==> alias_char(#[trigger] alias[i])
}

pub open spec fn unsafe_alias_text(alias: Seq<char>) -> Seq<char> {
    "alias "@ + quoted(alias) + " is not a safe history filename (allowed: A-Z a-z 0-9 . _ -)"@
}

/// Rejects aliases that would escape the history directory or collide once mapped
/// to a filename. Aliases come from the operator config, but a stray `/` or `..`
/// must never become a path, so this is an allowlist rather than silent mangling (which
/// could map two aliases onto one file).
pub fn safe_alias(alias: &str) -> (r: Result<(), String>)
    ensures
        match r {
            Ok(_) => file_safe(alias@),
            Err(e) => !file_safe(alias@) && e@ == unsafe_alias_text(alias@),
        },
{
    let s = chars_of(alias);
    let mut ok = s.len() > 0 && !eq_text(alias, ".") && !eq_text(alias, "..");
    let mut i: usize = 0;
    while ok && i < s.len()
        invariant
            s@ == alias@,
            i <= s@.len(),
            ok ==> s@.len() > 0 && alias@ != "."@ && alias@ != ".."@ && forall|j: int|
                0 <= j < i ==> alias_char(#[trigger] s@[j]),
            !ok ==> !file_safe(alias@),
        decreases s@.len() - i, ok as int,
    {
        let c = s[i];
        if is_ascii_alphanumeric(c) || c == '.' || c == '_' || c == '-' {
            i = i + 1;
        } else {
            ok = false;
        }
    }
    if ok {
        Ok(())
    } else {
        let mut e = "alias ".to_string();
        e.append(quote(alias).as_str());
        e.append(" is not a safe history filename (allowed: A-Z a-z 0-9 . _ -)");
        Err(e)
    }
}

/// The name of a target's history file.
pub fn file_name(alias: &str) -> (r: Result<String, String>)
    ensures
        match r {
            Ok(name) => file_safe(alias@) && name@ == alias@ + ".jsonl"@,
            Err(e) => !file_safe(alias@) && e@ == unsafe_alias_text(alias@),
        },
{
    match safe_alias(alias) {
        Ok(_) => {
            let mut name = alias.to_string();
            name.append(".jsonl");
            Ok(name)
        },
        Err(e) => Err(e),
    }
}

/// The line, if it is not blank.
pub open spec fn entry_of(line: Seq<char>) -> Option<Seq<char>> {
    if trim(line).len() > 0 {
        Some(line)
    } else {
        None
    }
}

/// The entries of a history file: its lines that are not blank.
pub open spec fn entries(text: Seq<char>) -> Seq<Seq<char>> {
    lines(text).filter_map(|l: Seq<char>| entry_of(l))
}

/// The entries of a history file: its lines that are not blank.
pub fn history_lines(text: &str) -> (r: Vec<String>)
    ensures
        deep(r@) == entries(text@),
{
    collect_lines(text, entry_line, Ghost(|l: Seq<char>| entry_of(l)))
}

fn entry_line(line: &[char]) -> (r: Option<String>)
    ensures
        deep_option(r) == entry_of(line@),
{
    if trimmed(line).len() > 0 {
        Some(text_of(line))
    } else {
        None
    }
}

/// The last `n` items.
pub open spec fn newest<A>(s: Seq<A>, n: int) -> Seq<A> {
    if 0 <= n < s.len() {
        s.skip(s.len() - n)
    } else {
        s
    }
}

/// What a history file is cut down to; `None` where it may stay as it is.
pub open spec fn trimmed_history(text: Seq<char>, max: usize) -> Option<Seq<char>> {
    if max == 0 || entries(text).len() <= max {
        None
    } else {
        Some(joined(newest(entries(text), max as int), "\n"@) + "\n"@)
    }
}

/// Keeps only the last `max` entries of a history file (`max == 0` keeps everything): the
/// new content, or `None` where nothing has to go.
pub fn trim_history(text: &str, max: usize) -> (r: Option<String>)
    ensures
        deep_option(r) == trimmed_history(text@, max),
{
    let all = history_lines(text);
    if max == 0 || all.len() <= max {
        return None;
    }
    let tail = copy_tail(&all, max);
    let mut s = join_texts(&tail, "\n");
    s.append("\n");
    Some(s)
}

fn copy_tail(all: &Vec<String>, n: usize) -> (r: Vec<String>)
    requires
        n < all@.len(),
    ensures
        deep(r@) == newest(deep(all@), n as int),
{
    broadcast use lemma_deep_empty;

    let start: usize = all.len() - n;
    let ghost tail = deep(all@).skip(start as int);
    let mut out: Vec<String> = Vec::new();
    let mut i: usize = start;
    while i < all.len()
        invariant
            start <= i <= all@.len(),
            tail == deep(all@).skip(start as int),
            deep(out@) == tail.take(i - start),
        decreases all@.len() - i,
    {
        broadcast use lemma_deep_push;

        out.push(all[i].clone());
        proof {
            assert(tail.take(i + 1 - start) == tail.take(i - start).push(tail[i - start]));
        }
        i = i + 1;
    }
    proof {
        lemma_take_all(tail);
    }
    out
}

/// The most recent `limit` snapshots in chronological order; all where `limit` is 0.
pub open spec fn most_recent<A>(s: Seq<A>, limit: usize) -> Seq<A> {
    if limit == 0 {
        s
    } else {
        newest(s, limit as int)
    }
}

/// The most recent `limit` snapshots in chronological order; `limit == 0` gives everything.
pub fn recent(snaps: Vec<Snapshot>, limit: usize) -> (r: Vec<Snapshot>)
    ensures
        r@ == most_recent(snaps@, limit),
{
    if limit == 0 || snaps.len() <= limit {
        return snaps;
    }
    let mut all = snaps;
    let n: usize = all.len();
    let tail = all.split_off(n - limit);
    proof {
        assert(tail@ =~= snaps@.skip(n - limit));
    }
    tail
}

/// The id without its `health-` prefix.
pub open spec fn short_name(id: Seq<char>) -> Seq<char> {
    if starts_with(id, "health-"@) {
        id.skip("health-"@.len() as int)
    } else {
        id
    }
}

/// Drops the `health-` prefix for compact column headers.
pub fn short_id(id: &str) -> (r: String)
    ensures
        r@ == short_name(id@),
{
    let text = chars_of(id);
    let n: usize = chars_of("health-").len();
    if begins(text.as_slice(), "health-") {
        let rest = slice_subrange(text.as_slice(), n, text.len());
        proof {
            assert(rest@ == id@.skip(n as int));
        }
        text_of(rest)
    } else {
        id.to_string()
    }
}

/// The keys of all snapshots, one after the other.
pub open spec fn all_keys(snaps: Seq<SnapshotView>) -> Seq<Seq<char>>
    decreases snaps.len(),
{
    if snaps.len() == 0 {
        Seq::empty()
    } else {
        all_keys(snaps.drop_last()) + snaps.last().metrics.map_values(
            |e: (Seq<char>, i64)| e.0,
        )
    }
}

/// The texts without those that repeat the one before.
pub open spec fn without_repeats(s: Seq<Seq<char>>) -> Seq<Seq<char>>
    decreases s.len(),
{
    if s.len() < 2 {
        s
    } else if s[s.len() - 1] == s[s.len() - 2] {
        without_repeats(s.drop_last())
    } else {
        without_repeats(s.drop_last()).push(s.last())
    }
}

/// The metric ids seen in the snapshots, in ascending order and each once.
pub open spec fn columns(snaps: Seq<SnapshotView>) -> Seq<Seq<char>> {
    without_repeats(sorted(all_keys(snaps)))
}

fn collect_keys(snaps: &[Snapshot]) -> (r: Vec<String>)
    ensures
        deep(r@) == all_keys(deep(snaps@)),
{
    broadcast use lemma_deep_empty;

    let ghost all = deep(snaps@);
    let mut out: Vec<String> = Vec::new();
    let mut i: usize = 0;
    while i < snaps.len()
        invariant
            all == deep(snaps@),
            i <= snaps@.len(),
            deep(out@) == all_keys(all.take(i as int)),
        decreases snaps@.len() - i,
    {
        let ghost before = deep(out@);
        let ghost keys = snaps@[i as int]@.metrics.map_values(|e: (Seq<char>, i64)| e.0);
        proof {
            assert(all.take(i + 1).drop_last() =~= all.take(i as int));
            assert(before + keys.take(0) =~= before);
        }
        let mut k: usize = 0;
        while k < snaps[i as usize].metrics.entries.len()
            invariant
                i < snaps@.len(),
                keys == snaps@[i as int]@.metrics.map_values(|e: (Seq<char>, i64)| e.0),
                k <= keys.len(),
                deep(out@) == before + keys.take(k as int),
            decreases keys.len() - k,
        {
            broadcast use lemma_deep_push;

            out.push(snaps[i].metrics.entries[k].0.clone());
            proof {
                assert(deep(out@) =~= before + keys.take(k + 1));
            }
            k = k + 1;
        }
        proof {
            lemma_take_all(keys);
        }
        i = i + 1;
    }
    proof {
        lemma_take_all(all);
    }
    out
}

fn drop_repeats(v: &Vec<String>) -> (r: Vec<String>)
    ensures
        deep(r@) == without_repeats(deep(v@)),
{
    broadcast use lemma_deep_empty;

    let ghost all = deep(v@);
    let mut out: Vec<String> = Vec::new();
    let mut i: usize = 0;
    while i < v.len()
        invariant
            all == deep(v@),
            i <= v@.len(),
            deep(out@) == without_repeats(all.take(i as int)),
        decreases v@.len() - i,
    {
        broadcast use lemma_deep_push;

        proof {
            assert(all.take(i + 1).drop_last() =~= all.take(i as int));
            if i == 0 {
                assert(all.take(1) =~= Seq::<Seq<char>>::empty().push(v@[0]@));
            }
        }
        if i == 0 || !eq_text(v[i].as_str(), v[i - 1].as_str()) {
            out.push(v[i].clone());
        }
        i = i + 1;
    }
    proof {
        lemma_take_all(all);
    }
    out
}

pub open spec fn header_cell(id: Seq<char>) -> Seq<char> {
    " "@ + right_aligned(short_name(id), 14)
}

/// The value of a metric in a snapshot, or a dash.
pub open spec fn value_cell(s: SnapshotView, id: Seq<char>) -> Seq<char> {
    " "@ + right_aligned(
        match lookup(s.metrics, id) {
            Some(v) => micros_text(v as int, 2),
            None => "-"@,
        },
        14,
    )
}

/// One row of the table.
pub open spec fn history_row(s: SnapshotView, ids: Seq<Seq<char>>) -> Seq<char> {
    "  "@ + left_aligned(utc(s.ts as int), 20) + " "@ + left_aligned(s.overall.tag_text(), 5)
        + written(ids, |id: Seq<char>| value_cell(s, id)) + "\n"@
}

/// The whole table.
pub open spec fn history_text(alias: Seq<char>, snaps: Seq<SnapshotView>) -> Seq<char> {
    if snaps.len() == 0 {
        "No health history recorded for '"@ + alias + "'.\n"@
    } else {
        let ids = columns(snaps);
        "Health history of '"@ + alias + "' ("@ + digits(snaps.len() as int)
            + " snapshot(s), operational, not a security score):\n"@ + "  "@ + left_aligned(
            "time (UTC)"@,
            20,
        ) + " "@ + left_aligned("stat"@, 5) + written(ids, |id: Seq<char>| header_cell(id))
            + "\n"@ + written(snaps, |s: SnapshotView| history_row(s, ids))
    }
}

fn format_header(id: &String) -> (r: String)
    ensures
        r@ == header_cell(id@),
{
    let mut s = " ".to_string();
    s.append(align_right(short_id(id.as_str()).as_str(), 14).as_str());
    s
}

fn format_value(snap: &Snapshot, id: &str) -> (r: String)
    ensures
        r@ == value_cell(snap@, id@),
{
    let shown = match snap.metrics.get(id) {
        Some(v) => format_micros(*v, 2),
        None => "-".to_string(),
    };
    let mut s = " ".to_string();
    s.append(align_right(shown.as_str(), 14).as_str());
    s
}

fn format_row(snap: &Snapshot, ids: &Vec<String>) -> (r: String)
    ensures
        r@ == history_row(snap@, deep(ids@)),
{
    let ghost sv = snap@;
    let mut s = "  ".to_string();
    s.append(align_left(fmt_utc(snap.ts).as_str(), 20).as_str());
    s.append(" ");
    s.append(align_left(snap.overall.tag(), 5).as_str());
    let cell = |id: &String| -> (c: String)
        ensures
            c@ == value_cell(snap@, id@),
        { format_value(snap, id.as_str()) };
    append_all(&mut s, ids.as_slice(), cell, Ghost(|id: Seq<char>| value_cell(sv, id)));
    s.append("\n");
    s
}

/// Human-readable history table: one row per snapshot, columns are the union of
/// metric ids seen (sorted), plus time and overall status.
pub fn text(alias: &str, snaps: &[Snapshot]) -> (r: String)
    ensures
        r@ == history_text(alias@, deep(snaps@)),
{
    if snaps.len() == 0 {
        let mut s = "No health history recorded for '".to_string();
        s.append(alias);
        s.append("'.\n");
        return s;
    }
    let ids = drop_repeats(&sort_texts(collect_keys(snaps)));
    let ghost idv = deep(ids@);
    let mut out = "Health history of '".to_string();
    out.append(alias);
    out.append("' (");
    out.append(format_usize(snaps.len()).as_str());
    out.append(" snapshot(s), operational, not a security score):\n");
    out.append("  ");
    out.append(align_left("time (UTC)", 20).as_str());
    out.append(" ");
    out.append(align_left("stat", 5).as_str());
    append_all(
        &mut out,
        ids.as_slice(),
        format_header,
        Ghost(|id: Seq<char>| header_cell(id)),
    );
    out.append("\n");
    let row = |s: &Snapshot| -> (c: String)
        ensures
            c@ == history_row(s@, deep(ids@)),
        { format_row(s, &ids) };
    append_all(&mut out, snaps, row, Ghost(|s: SnapshotView| history_row(s, idv)));
    out
}

/// The entries of a map in the order of their keys.
pub open spec fn by_key<V>(m: Seq<(Seq<char>, V)>) -> Seq<(Seq<char>, V)> {
    sorted(m.map_values(|e: (Seq<char>, V)| e.0)).filter_map(|k: Seq<char>| entry_under(m, k))
}

/// A key with what is under it.
pub open spec fn entry_under<V>(m: Seq<(Seq<char>, V)>, k: Seq<char>) -> Option<(Seq<char>, V)> {
    match lookup(m, k) {
        Some(v) => Some((k, v)),
        None => None,
    }
}

pub open spec fn reading_json(e: (Seq<char>, i64)) -> (Seq<char>, JsonView) {
    (e.0, decimal_value(e.1))
}

pub open spec fn counter_json(e: (Seq<char>, u64)) -> (Seq<char>, JsonView) {
    (e.0, whole_value(e.1 as int))
}

/// Readings as an object, in the order of their names.
pub open spec fn readings_json(m: Seq<(Seq<char>, i64)>) -> JsonView {
    object(by_key(m).map_values(|e: (Seq<char>, i64)| reading_json(e)))
}

/// Counters as an object, in the order of their names.
pub open spec fn counters_json(m: Seq<(Seq<char>, u64)>) -> JsonView {
    object(by_key(m).map_values(|e: (Seq<char>, u64)| counter_json(e)))
}

/// A snapshot as JSON.
pub open spec fn snapshot_json(s: SnapshotView) -> JsonView {
    object(
        field("ts"@, whole_value(s.ts as int)) + field("overall"@, text_value(status_name(s.overall)))
            + field("metrics"@, readings_json(s.metrics)) + field(
            "containers"@,
            counters_json(s.containers),
        ) + field("failed_units"@, text_list_value(s.failed_units)) + field(
            "event_counters"@,
            counters_json(s.event_counters),
        ),
    )
}

/// `{ target, kind: "health-history", count, snapshots }`.
pub open spec fn history_json(alias: Seq<char>, snaps: Seq<SnapshotView>) -> JsonView {
    object(
        field("target"@, text_value(alias)) + field("kind"@, text_value("health-history"@)) + field(
            "count"@,
            whole_value(snaps.len() as int),
        ) + field("snapshots"@, list(each(snaps, |s: SnapshotView| snapshot_json(s)))),
    )
}

fn keys_of<V: View>(m: &TextMap<V>) -> (r: Vec<String>)
    ensures
        deep(r@) == sorted(m@.map_values(|e: (Seq<char>, V::V)| e.0)),
{
    broadcast use lemma_deep_empty;

    let ghost keys = m@.map_values(|e: (Seq<char>, V::V)| e.0);
    let mut out: Vec<String> = Vec::new();
    let mut i: usize = 0;
    while i < m.entries.len()
        invariant
            i <= m.entries@.len(),
            keys == m@.map_values(|e: (Seq<char>, V::V)| e.0),
            deep(out@) == keys.take(i as int),
        decreases m.entries@.len() - i,
    {
        broadcast use lemma_deep_push;

        out.push(m.entries[i].0.clone());
        proof {
            assert(keys.take(i + 1) == keys.take(i as int).push(keys[i as int]));
        }
        i = i + 1;
    }
    proof {
        lemma_take_all(keys);
    }
    sort_texts(out)
}

fn readings_document(m: &TextMap<i64>) -> (r: serde_json::Value)
    ensures
        held(r) == readings_json(m@),
        forall|i: int|
            0 <= i < by_key(m@).len() && exact((#[trigger] by_key(m@)[i]).1) ==> reads_back(
                by_key(m@)[i].1,
            ),
{
    let keys = keys_of(m);
    let ghost ks = deep(keys@);
    let ghost map = m@;
    let ghost f = |k: Seq<char>| entry_under(map, k);
    let ghost g = |e: (Seq<char>, i64)| reading_json(e);
    let mut fields = Fields::new();
    let mut i: usize = 0;
    proof {
        assert(ks.take(0).filter_map(f).map_values(g) == FieldsView::empty());
    }
    while i < keys.len()
        invariant
            i <= keys@.len(),
            ks == deep(keys@),
            map == m@,
            f == |k: Seq<char>| entry_under(map, k),
            g == |e: (Seq<char>, i64)| reading_json(e),
            fields@ == merged(Seq::empty(), ks.take(i as int).filter_map(f).map_values(g)),
            forall|j: int|
                0 <= j < ks.take(i as int).filter_map(f).len() && exact(
                    (#[trigger] ks.take(i as int).filter_map(f)[j]).1,
                ) ==> reads_back(ks.take(i as int).filter_map(f)[j].1),
        decreases keys@.len() - i,
    {
        let ghost before = ks.take(i as int).filter_map(f);
        proof {
            lemma_filter_map_step(ks, f, i as int);
        }
        match m.get(keys[i].as_str()) {
            Some(v) => {
                let ghost e = (ks[i as int], *v);
                fields = fields.decimal(keys[i].as_str(), *v);
                proof {
                    lemma_merged_push(before.map_values(g), g(e));
                    assert(before.push(e).map_values(g) =~= before.map_values(g).push(g(e)));
                    assert forall|j: int|
                        0 <= j < before.push(e).len() && exact(
                            (#[trigger] before.push(e)[j]).1,
                        ) implies reads_back(before.push(e)[j].1) by {
                        if j < before.len() {
                            assert(before.push(e)[j] == before[j]);
                        }
                    }
                }
            },
            None => {},
        }
        i = i + 1;
    }
    proof {
        lemma_take_all(ks);
    }
    fields.close()
}

proof fn lemma_merged_push(fields: FieldsView, e: (Seq<char>, JsonView))
    ensures
        merged(FieldsView::empty(), fields.push(e)) == put(
            merged(FieldsView::empty(), fields),
            e.0,
            e.1,
        ),
{
    assert(fields.push(e).drop_last() =~= fields);
}

fn counters_document(m: &TextMap<u64>) -> (r: serde_json::Value)
    ensures
        held(r) == counters_json(m@),
{
    let keys = keys_of(m);
    let ghost ks = deep(keys@);
    let ghost map = m@;
    let ghost f = |k: Seq<char>| entry_under(map, k);
    let ghost g = |e: (Seq<char>, u64)| counter_json(e);
    let mut fields = Fields::new();
    let mut i: usize = 0;
    proof {
        assert(ks.take(0).filter_map(f).map_values(g) == FieldsView::empty());
    }
    while i < keys.len()
        invariant
            i <= keys@.len(),
            ks == deep(keys@),
            map == m@,
            f == |k: Seq<char>| entry_under(map, k),
            g == |e: (Seq<char>, u64)| counter_json(e),
            fields@ == merged(Seq::empty(), ks.take(i as int).filter_map(f).map_values(g)),
        decreases keys@.len() - i,
    {
        let ghost before = ks.take(i as int).filter_map(f);
        proof {
            lemma_filter_map_step(ks, f, i as int);
        }
        match m.get(keys[i].as_str()) {
            Some(v) => {
                let ghost e = (ks[i as int], *v);
                fields = fields.whole(keys[i].as_str(), *v);
                proof {
                    lemma_merged_push(before.map_values(g), g(e));
                    assert(before.push(e).map_values(g) =~= before.map_values(g).push(g(e)));
                }
            },
            None => {},
        }
        i = i + 1;
    }
    proof {
        lemma_take_all(ks);
    }
    fields.close()
}

fn snapshot_document(s: &Snapshot) -> (r: serde_json::Value)
    ensures
        held(r) == snapshot_json(s@),
        forall|i: int|
            0 <= i < by_key(s@.metrics).len() && exact((#[trigger] by_key(s@.metrics)[i]).1)
                ==> reads_back(by_key(s@.metrics)[i].1),
{
    broadcast use group_merged;

    let fields = Fields::new().whole("ts", s.ts).text("overall", status_text(s.overall)).put(
        "metrics",
        readings_document(&s.metrics),
    );
    fields.put("containers", counters_document(&s.containers)).put(
        "failed_units",
        text_list(&s.failed_units),
    ).put("event_counters", counters_document(&s.event_counters)).close()
}

/// The JSON listing: `{ target, kind: "health-history", count, snapshots }`.
pub fn document(alias: &str, snaps: &[Snapshot]) -> (r: serde_json::Value)
    ensures
        held(r) == history_json(alias@, deep(snaps@)),
{
    broadcast use group_merged;

    let all = list_each(snaps, snapshot_document, Ghost(|s: SnapshotView| snapshot_json(s)));
    Fields::new().text("target", alias).text("kind", "health-history").whole(
        "count",
        snaps.len() as u64,
    ).put("snapshots", all).close()
}

/// Machine-readable history: `{ target, kind: "health-history", count, snapshots }`.
pub fn json(alias: &str, snaps: &[Snapshot]) -> (r: Result<String, JsonError>)
    ensures
        r is Ok,
        r->Ok_0@ == laid_out(keys_sorted(history_json(alias@, deep(snaps@)))),
{
    pretty_ordered(document(alias, snaps))
}

/// One line of a history file, without its line break: the snapshot as JSON, with the entries of
/// its maps in the order of their keys. Whatever its texts hold, a snapshot makes one entry: its
/// line is not blank and nothing in it ends the line. What is read from it is the snapshot, with
/// the entries of its maps in the order of their keys.
pub fn snapshot_line(s: &Snapshot) -> (r: String)
    ensures
        r@ == line_of(snapshot_json(s@)),
        one_entry(r@),
        storable(s@) ==> line_for(r@, ordered(s@)),
{
    let value = snapshot_document(s);
    let line = compact(&value);
    proof {
        if storable(s@) {
            lemma_by_key_all(s@.metrics, |m: i64| exact(m));
            lemma_snapshot_back(s@);
        }
        lemma_trim_identity(line@);
        assert forall|i: int| 0 <= i < line@.len() implies line@[i] != '\n' by {
            assert(line@[i] >= ' ');
        }
    }
    line
}

/// A text that can be one line of a history file: not blank, and nothing in it ends the line.
pub open spec fn one_entry(line: Seq<char>) -> bool {
    &&& trim(line).len() > 0
    &&& line.last() != '\r'
    &&& forall|i: int| 0 <= i < line.len() ==> line[i] != '\n'
}

/// Appending an entry to a history file leaves the entries that are there and adds the new one
/// behind them, so that reading gives back what was written, in the order of writing.
pub proof fn law_append_adds_the_entry(text: Seq<char>, line: Seq<char>)
    requires
        ends_in_line_break(text),
        one_entry(line),
    ensures
        entries(text + line + "\n"@) == entries(text).push(line),
        ends_in_line_break(text + line + "\n"@),
{
    reveal_strlit("\n");
    let f = |l: Seq<char>| entry_of(l);
    let old = lines(text);
    lemma_lines_concat(text, line + "\n"@);
    lemma_one_line(line);
    assert(text + (line + "\n"@) == text + line + "\n"@);
    let new = old.push(line);
    assert(lines(text + line + "\n"@) == new);
    lemma_filter_map_step(new, f, old.len() as int);
    assert(new.take(old.len() as int) == old);
    lemma_take_all(new);
}

proof fn lemma_lines_have_no_break(s: Seq<char>, k: int)
    requires
        0 <= k < lines(s).len(),
    ensures
        forall|j: int| 0 <= j < lines(s)[k].len() ==> lines(s)[k][j] != '\n',
    decreases s.len(),
{
    if s.len() > 0 {
        lemma_index_of(s, '\n');
        let i = index_of(s, '\n');
        if i < s.len() {
            if k > 0 {
                lemma_lines_have_no_break(s.skip(i + 1), k - 1);
                assert(lines(s)[k] == lines(s.skip(i + 1))[k - 1]);
            } else {
                assert(lines(s)[0] == strip_cr(s.take(i)));
            }
        }
    }
}

proof fn lemma_entry_from_line(ls: Seq<Seq<char>>, k: int) -> (i: int)
    requires
        0 <= k < ls.filter_map(|l: Seq<char>| entry_of(l)).len(),
    ensures
        0 <= i < ls.len(),
        ls.filter_map(|l: Seq<char>| entry_of(l))[k] == ls[i],
        entry_of(ls[i]).is_some(),
    decreases ls.len(),
{
    let f = |l: Seq<char>| entry_of(l);
    let n = ls.len() - 1;
    if ls.len() == 0 {
        assert(ls.filter_map(f).len() == 0);
        return 0;
    }
    lemma_filter_map_step(ls, f, n);
    lemma_take_all(ls);
    let before = ls.take(n);
    if k < before.filter_map(f).len() {
        let i = lemma_entry_from_line(before, k);
        assert(ls[i] == before[i]);
        i
    } else {
        n
    }
}

proof fn lemma_entries_are_kept(ls: Seq<Seq<char>>)
    requires
        forall|i: int| 0 <= i < ls.len() ==> entry_of(#[trigger] ls[i]).is_some(),
    ensures
        ls.filter_map(|l: Seq<char>| entry_of(l)) == ls,
    decreases ls.len(),
{
    let f = |l: Seq<char>| entry_of(l);
    if ls.len() > 0 {
        let n = ls.len() - 1;
        lemma_filter_map_step(ls, f, n);
        lemma_take_all(ls);
        assert forall|i: int| 0 <= i < n implies entry_of(#[trigger] ls.take(n)[i]).is_some() by {
            assert(ls.take(n)[i] == ls[i]);
        }
        lemma_entries_are_kept(ls.take(n));
        assert(ls == ls.take(n).push(ls[n]));
    }
}

proof fn lemma_lines_of_joined(parts: Seq<Seq<char>>)
    requires
        parts.len() > 0,
        forall|i: int| 0 <= i < parts.len() ==> one_entry(#[trigger] parts[i]),
    ensures
        lines(joined(parts, "\n"@) + "\n"@) == parts,
    decreases parts.len(),
{
    reveal_strlit("\n");
    let last = parts.last();
    assert(one_entry(parts[parts.len() - 1]));
    lemma_one_line(last);
    if parts.len() == 1 {
        assert(parts == seq![last]);
    } else {
        let front = parts.drop_last();
        assert forall|i: int| 0 <= i < front.len() implies one_entry(#[trigger] front[i]) by {
            assert(front[i] == parts[i]);
        }
        lemma_lines_of_joined(front);
        let a = joined(front, "\n"@) + "\n"@;
        lemma_lines_concat(a, last + "\n"@);
        assert(joined(parts, "\n"@) + "\n"@ == a + (last + "\n"@));
        assert(parts == front + seq![last]);
    }
}

/// Cutting a history file down keeps exactly its newest `max` entries, in their order.
pub proof fn law_retention_keeps_newest(text: Seq<char>, max: usize)
    requires
        forall|i: int| 0 <= i < entries(text).len() ==> (#[trigger] entries(text)[i]).last() != '\r',
    ensures
        match trimmed_history(text, max) {
            Some(t) => {
                &&& entries(t) == newest(entries(text), max as int)
                &&& entries(t).len() == max
                &&& ends_in_line_break(t)
            },
            None => max == 0 || entries(text).len() <= max,
        },
{
    reveal_strlit("\n");
    let all = entries(text);
    if max != 0 && all.len() > max {
        let tail = newest(all, max as int);
        assert forall|i: int| 0 <= i < tail.len() implies one_entry(#[trigger] tail[i])
            && entry_of(tail[i]).is_some() by {
            let k = all.len() - max + i;
            assert(tail[i] == all[k]);
            let j = lemma_entry_from_line(lines(text), k);
            lemma_lines_have_no_break(text, j);
        }
        lemma_lines_of_joined(tail);
        lemma_entries_are_kept(tail);
    }
}

/// A history file after one more line was recorded and the file cut down to `max` entries.
pub open spec fn recorded(text: Seq<char>, line: Seq<char>, max: usize) -> Seq<char> {
    match trimmed_history(text + line + "\n"@, max) {
        Some(t) => t,
        None => text + line + "\n"@,
    }
}

/// A new history file after all the lines were recorded, one after the other.
pub open spec fn all_recorded(ls: Seq<Seq<char>>, max: usize) -> Seq<char>
    decreases ls.len(),
{
    if ls.len() == 0 {
        Seq::empty()
    } else {
        recorded(all_recorded(ls.drop_last(), max), ls.last(), max)
    }
}

/// The lesser of two limits, of which 0 stands for none.
pub open spec fn lesser_limit(a: usize, b: usize) -> usize {
    if a == 0 || (b != 0 && b < a) {
        b
    } else {
        a
    }
}

/// Whatever lines were recorded are kept: the file holds the newest `max` of them, in the order
/// of recording, and a limit leaves the newest of those.
pub proof fn law_recorded_lines_are_kept(ls: Seq<Seq<char>>, max: usize, limit: usize)
    requires
        forall|i: int| 0 <= i < ls.len() ==> one_entry(#[trigger] ls[i]),
    ensures
        entries(all_recorded(ls, max)) == most_recent(ls, max),
        most_recent(entries(all_recorded(ls, max)), limit) == most_recent(
            ls,
            lesser_limit(max, limit),
        ),
{
    lemma_all_recorded(ls, max);
    assert(most_recent(most_recent(ls, max), limit) =~= most_recent(ls, lesser_limit(max, limit)));
}

proof fn lemma_all_recorded(ls: Seq<Seq<char>>, max: usize)
    requires
        forall|i: int| 0 <= i < ls.len() ==> one_entry(#[trigger] ls[i]),
    ensures
        entries(all_recorded(ls, max)) == most_recent(ls, max),
        ends_in_line_break(all_recorded(ls, max)),
    decreases ls.len(),
{
    if ls.len() == 0 {
        assert(lines(Seq::<char>::empty()).len() == 0);
        assert(entries(Seq::<char>::empty()) =~= ls);
    } else {
        let front = ls.drop_last();
        let line = ls.last();
        assert forall|i: int| 0 <= i < front.len() implies one_entry(#[trigger] front[i]) by {
            assert(front[i] == ls[i]);
        }
        lemma_all_recorded(front, max);
        let text = all_recorded(front, max);
        assert(one_entry(ls[ls.len() - 1]));
        law_append_adds_the_entry(text, line);
        let now = text + line + "\n"@;
        let all = most_recent(front, max).push(line);
        assert(entries(now) == all);
        assert forall|i: int| 0 <= i < all.len() implies (#[trigger] all[i]).last() != '\r' by {
            let k = ls.len() - all.len() + i;
            assert(all[i] == ls[k]);
            assert(one_entry(ls[k]));
        }
        law_retention_keeps_newest(now, max);
        if trimmed_history(now, max) is Some {
            assert(newest(all, max as int) =~= most_recent(ls, max));
        } else {
            assert(all =~= most_recent(ls, max));
        }
    }
}

/// Two aliases never share a file, so that recording for one leaves the other's history alone.
pub proof fn law_each_alias_has_its_file(a: Seq<char>, b: Seq<char>)
    requires
        a + ".jsonl"@ == b + ".jsonl"@,
    ensures
        a == b,
{
    assert(a == (a + ".jsonl"@).take(a.len() as int));
    assert(b == (b + ".jsonl"@).take(b.len() as int));
}

/// What a safe alias names is a file of the history directory itself: no path separator, and
/// neither the directory nor its parent.
pub proof fn law_safe_alias_stays_inside(alias: Seq<char>)
    requires
        file_safe(alias),
    ensures
        !(alias + ".jsonl"@).contains('/'),
        !(alias + ".jsonl"@).contains('\\'),
        alias + ".jsonl"@ != "."@,
        alias + ".jsonl"@ != ".."@,
{
    reveal_strlit(".jsonl");
    reveal_strlit(".");
    reveal_strlit("..");
    let name = alias + ".jsonl"@;
    assert forall|i: int| 0 <= i < name.len() implies name[i] != '/' && name[i] != '\\' by {
        if i < alias.len() {
            assert(alias_char(alias[i]));
        }
    }
    assert(name.len() > 2);
}

/// No two aliases share a history file.
pub proof fn law_aliases_do_not_share_files(a: Seq<char>, b: Seq<char>)
    requires
        a != b,
    ensures
        a + ".jsonl"@ != b + ".jsonl"@,
{
    let s = ".jsonl"@;
    if a + s == b + s {
        assert((a + s).take(a.len() as int) == a);
        assert((b + s).take(b.len() as int) == b);
        assert((a + s).len() == (b + s).len());
    }
}

proof fn lemma_without_repeats(s: Seq<Seq<char>>)
    requires
        ascending(s),
    ensures
        without_repeats(s).len() > 0 <==> s.len() > 0,
        s.len() > 0 ==> without_repeats(s).last() == s.last(),
        forall|x: Seq<char>| without_repeats(s).contains(x) <==> s.contains(x),
        strictly_ascending(without_repeats(s)),
    decreases s.len(),
{
    let w = without_repeats(s);
    if s.len() >= 2 {
        let front = s.drop_last();
        assert(ascending(front));
        lemma_without_repeats(front);
        let v = without_repeats(front);
        let n = s.len() - 1;
        assert(front.last() == s[n - 1]);
        assert forall|x: Seq<char>| w.contains(x) <==> s.contains(x) by {
            if w.contains(x) {
                let i = choose|i: int| 0 <= i < w.len() && w[i] == x;
                if w == v || i < v.len() {
                    assert(v[i] == x);
                    assert(v.contains(x));
                    assert(front.contains(x));
                    let j = choose|j: int| 0 <= j < front.len() && front[j] == x;
                    assert(s[j] == x);
                } else {
                    assert(s[n] == x);
                }
            }
            if s.contains(x) {
                let j = choose|j: int| 0 <= j < s.len() && s[j] == x;
                if j < n {
                    assert(front[j] == x);
                    assert(front.contains(x));
                    assert(v.contains(x));
                    let i = choose|i: int| 0 <= i < v.len() && v[i] == x;
                    assert(w[i] == x);
                } else if s[n] == s[n - 1] {
                    assert(w[w.len() - 1] == x);
                } else {
                    assert(w[v.len() as int] == x);
                }
            }
        }
        if s[n] != s[n - 1] {
            lemma_before_total(s[n], s[n - 1]);
            assert(before(s[n - 1], s[n]));
            assert forall|i: int, j: int| 0 <= i < j < w.len() implies before(
                #[trigger] w[i],
                #[trigger] w[j],
            ) by {
                if j < v.len() {
                    assert(before(v[i], v[j]));
                } else if i < v.len() - 1 {
                    assert(before(v[i], v[v.len() - 1]));
                    lemma_before_transitive(v[i], s[n - 1], s[n]);
                }
            }
        }
    } else if s.len() == 1 {
        assert(w == s);
    }
}

/// Every text comes before those behind it.
pub open spec fn strictly_ascending(s: Seq<Seq<char>>) -> bool {
    forall|i: int, j: int| 0 <= i < j < s.len() ==> before(#[trigger] s[i], #[trigger] s[j])
}

/// The columns of the history table are the ids that some snapshot has, each once and in
/// ascending order.
pub proof fn law_columns_are_the_ids_seen(snaps: Seq<SnapshotView>)
    ensures
        strictly_ascending(columns(snaps)),
        forall|id: Seq<char>| columns(snaps).contains(id) <==> all_keys(snaps).contains(id),
{
    broadcast use vstd::seq_lib::group_to_multiset_ensures;

    let keys = all_keys(snaps);
    lemma_sorted(keys);
    lemma_without_repeats(sorted(keys));
    assert forall|id: Seq<char>| columns(snaps).contains(id) <==> keys.contains(id) by {
        assert(sorted(keys).contains(id) <==> sorted(keys).to_multiset().count(id) > 0);
        assert(keys.contains(id) <==> keys.to_multiset().count(id) > 0);
    }
}

/// A metric without a number is absent from the snapshot; one with a number is found under its
/// id.
pub proof fn law_snapshot_holds_the_numbers(metrics: Seq<MetricView>, k: int)
    requires
        0 <= k < metrics.len(),
        forall|i: int, j: int|
            0 <= i < j < metrics.len() ==> (#[trigger] metrics[i]).id != (#[trigger] metrics[j]).id,
    ensures
        lookup(numeric_readings(metrics), metrics[k].id) == metrics[k].numeric,
{
    lemma_reading_of(metrics, metrics[k].id, k, metrics.len() as int);
    lemma_take_all(metrics);
}

proof fn lemma_reading_of(metrics: Seq<MetricView>, id: Seq<char>, k: int, n: int)
    requires
        0 <= n <= metrics.len(),
        0 <= k < metrics.len(),
        id == metrics[k].id,
        forall|i: int, j: int|
            0 <= i < j < metrics.len() ==> (#[trigger] metrics[i]).id != (#[trigger] metrics[j]).id,
    ensures
        lookup(numeric_readings(metrics.take(n)), id) == if k < n {
            metrics[k].numeric
        } else {
            None
        },
    decreases n,
{
    let step = |m: Seq<(Seq<char>, i64)>, x: MetricView| reading_step(m, x);
    if n > 0 {
        lemma_reading_of(metrics, id, k, n - 1);
        lemma_fold_step(metrics, Seq::empty(), step, n - 1);
        let before = numeric_readings(metrics.take(n - 1));
        match metrics[n - 1].numeric {
            Some(v) => {
                lemma_lookup_put(before, metrics[n - 1].id, v, id);
            },
            None => {},
        }
    }
}

} // verus!
