//! What a fresh health reading is told about the host's own past: readings that deviate from
//! its recent norm, and what changed since the last run.
//!
//! Both must run before the new snapshot is recorded, so that the current run is not part of
//! its own baseline and "previous" is genuinely the prior run. Both are informational: they
//! never change `overall` nor the exit code.

use super::{HealthOutcome, HealthOutcomeView};
use crate::anomaly::{anomalies_of, detect, AnomalyConfig};
use crate::config::{lists, resolution, Config, ConfigView};
use crate::health::{HealthReport, HealthReportView};
use crate::history::{most_recent, Snapshot, SnapshotView};
use crate::text::chars::{deep, lemma_deep_empty, lemma_deep_push};
use crate::text::number::{digits, format_u64, format_usize};
use crate::text::order::{sort_texts, sorted};
use crate::text::split::{lemma_filter_map_step, lemma_take_all};
use crate::textmap::{distinct_keys, lemma_slot_is, lookup};
use vstd::prelude::*;
use vstd::slice::slice_subrange;
use vstd::string::StringExecFns;

verus! {

/// The note that a baseline is still too short.
pub open spec fn warming_up(have: int, need: int) -> Seq<char> {
    "baseline warming up ("@ + digits(have) + "/"@ + digits(need) + ")"@
}

/// A report compared with the host's stored history; `None` where that could not be read.
pub open spec fn compared(
    r: HealthReportView,
    cfg: AnomalyConfig,
    stored: Option<Seq<SnapshotView>>,
) -> HealthReportView {
    if !cfg.enabled {
        HealthReportView { anomaly_note: Some("anomaly detection disabled"@), ..r }
    } else {
        match stored {
            None => HealthReportView {
                anomaly_note: Some("baseline unavailable (history not readable)"@),
                ..r
            },
            Some(all) => {
                let h = most_recent(all, cfg.window);
                if h.len() < cfg.min_samples {
                    HealthReportView {
                        anomaly_note: Some(warming_up(h.len() as int, cfg.min_samples as int)),
                        ..r
                    }
                } else {
                    HealthReportView { anomalies: anomalies_of(r.metrics, h, cfg), ..r }
                }
            },
        }
    }
}

/// Fills in the anomalies of a report from the host's stored history, or notes why there can
/// be none yet.
pub fn compare_report(
    report: &mut HealthReport,
    cfg: &AnomalyConfig,
    stored: Option<&Vec<Snapshot>>,
)
    ensures
        final(report)@ == compared(
            old(report)@,
            *cfg,
            match stored {
                Some(all) => Some(deep(all@)),
                None => None,
            },
        ),
{
    if !cfg.enabled {
        report.anomaly_note = Some("anomaly detection disabled".to_string());
        return;
    }
    let all = match stored {
        Some(all) => all,
        None => {
            report.anomaly_note = Some("baseline unavailable (history not readable)".to_string());
            return;
        },
    };
    let n: usize = all.len();
    let start: usize = if cfg.window > 0 && n > cfg.window {
        n - cfg.window
    } else {
        0
    };
    let h = slice_subrange(all.as_slice(), start, n);
    proof {
        assert(deep(h@) =~= most_recent(deep(all@), cfg.window));
    }
    if h.len() < cfg.min_samples {
        let mut note = "baseline warming up (".to_string();
        note.append(format_usize(h.len()).as_str());
        note.append("/");
        note.append(format_usize(cfg.min_samples).as_str());
        note.append(")");
        report.anomaly_note = Some(note);
        return;
    }
    let found = detect(report, h, cfg);
    report.anomalies = found;
}

/// What the stored history tells of one outcome. Where the alias does not resolve, the note
/// says so; a host that failed is left alone.
pub open spec fn with_anomalies(
    c: ConfigView,
    o: HealthOutcomeView,
    stored: Option<Seq<SnapshotView>>,
) -> HealthOutcomeView {
    match (o.result, resolution(c, o.alias)) {
        (Ok(r), Ok(t)) => HealthOutcomeView {
            result: Ok(compared(r, t.anomaly, stored)),
            ..o
        },
        (Ok(r), Err(_)) => HealthOutcomeView {
            result: Ok(
                HealthReportView {
                    anomaly_note: Some("baseline unavailable (alias does not resolve)"@),
                    ..r
                },
            ),
            ..o
        },
        (Err(_), _) => o,
    }
}

/// The stored history of each host: the snapshots, or `None` where they could not be read.
pub open spec fn histories(stored: Seq<Option<Vec<Snapshot>>>) -> Seq<Option<Seq<SnapshotView>>> {
    stored.map_values(
        |h: Option<Vec<Snapshot>>|
            match h {
                Some(all) => Some(deep(all@)),
                None => None,
            },
    )
}

/// Fills in the anomalies of each successful outcome by comparing the fresh reading against
/// the stored history of the host at the same place.
///
/// Best-effort: a history that could not be read, an unresolvable alias, or a warming-up
/// baseline leaves the anomalies empty (with a note) and never fails the run.
pub fn annotate_anomalies(
    cfg: &Config,
    outcomes: &mut Vec<HealthOutcome>,
    stored: &Vec<Option<Vec<Snapshot>>>,
)
    requires
        stored@.len() == old(outcomes)@.len(),
    ensures
        deep(final(outcomes)@) == Seq::new(
            old(outcomes)@.len(),
            |i: int|
                with_anomalies(cfg@, deep(old(outcomes)@)[i], histories(stored@)[i]),
        ),
{
    let ghost before = deep(outcomes@);
    let mut i: usize = 0;
    while i < outcomes.len()
        invariant
            i <= outcomes@.len(),
            outcomes@.len() == before.len(),
            stored@.len() == before.len(),
            forall|j: int|
                0 <= j < i ==> (#[trigger] outcomes@[j])@ == with_anomalies(
                    cfg@,
                    before[j],
                    histories(stored@)[j],
                ),
            forall|j: int| i <= j < before.len() ==> (#[trigger] outcomes@[j])@ == before[j],
        decreases outcomes@.len() - i,
    {
        let settled = cfg.resolve(outcomes[i].alias.as_str());
        let o = &mut outcomes[i];
        match &mut o.result {
            Ok(report) => match settled {
                Ok(target) => {
                    compare_report(report, &target.anomaly, stored[i].as_ref());
                },
                Err(_) => {
                    report.anomaly_note = Some(
                        "baseline unavailable (alias does not resolve)".to_string(),
                    );
                },
            },
            Err(_) => {},
        }
        i = i + 1;
    }
}

/// A compact human duration of whole seconds: whole days, hours or minutes, whichever is the
/// first to reach one.
pub open spec fn duration_text(secs: int) -> Seq<char> {
    if secs >= 86_400 {
        digits(secs / 86_400) + "d"@
    } else if secs >= 3_600 {
        digits(secs / 3_600) + "h"@
    } else if secs >= 60 {
        digits(secs / 60) + "m"@
    } else {
        digits(secs) + "s"@
    }
}

/// Compact human duration for whole seconds (`90` -> `1m`, `172800` -> `2d`).
/// Coarse on purpose: it only annotates a restart note.
pub fn fmt_dur(secs: u64) -> (r: String)
    ensures
        r@ == duration_text(secs as int),
{
    let (n, unit): (u64, &str) = if secs >= 86_400 {
        (secs / 86_400, "d")
    } else if secs >= 3_600 {
        (secs / 3_600, "h")
    } else if secs >= 60 {
        (secs / 60, "m")
    } else {
        (secs, "s")
    };
    let mut s = format_u64(n);
    s.append(unit);
    s
}

/// The change that a container's uptime shows: uptime is monotonic within a container's life,
/// so a drop since the last check is a restart.
pub open spec fn restart_change(
    now: (Seq<char>, u64),
    prev: Seq<(Seq<char>, u64)>,
) -> Option<Seq<char>> {
    match lookup(prev, now.0) {
        Some(was) => if now.1 < was {
            Some(
                "container "@ + now.0 + " restarted since last check (up "@ + duration_text(
                    now.1 as int,
                ) + ", was up "@ + duration_text(was as int) + ")"@,
            )
        } else {
            None
        },
        None => None,
    }
}

/// The change that a failed unit is: it was not failed at the last check.
pub open spec fn failure_change(unit: Seq<char>, prev: Seq<Seq<char>>) -> Option<Seq<char>> {
    if prev.contains(unit) {
        None
    } else {
        Some("unit "@ + unit + " newly failed since last check"@)
    }
}

/// The change that a cumulative event counter shows: by how much it rose. A counter that fell
/// was reset by a reboot. One that was not there before counts as fully new, but only where
/// the last check tracked counters at all.
pub open spec fn event_change(
    now: (Seq<char>, u64),
    prev: Seq<(Seq<char>, u64)>,
) -> Option<Seq<char>> {
    match lookup(prev, now.0) {
        Some(was) => if now.1 > was {
            Some("since last check: +"@ + digits(now.1 - was) + " "@ + now.0)
        } else {
            None
        },
        None => if prev.len() > 0 && now.1 > 0 {
            Some("since last check: +"@ + digits(now.1 as int) + " "@ + now.0 + " (new)"@)
        } else {
            None
        },
    }
}

/// Everything that changed since a snapshot, sorted.
pub open spec fn changes_since(r: HealthReportView, prev: SnapshotView) -> Seq<Seq<char>> {
    sorted(
        r.container_uptimes.filter_map(
            |e: (Seq<char>, u64)| restart_change(e, prev.containers),
        ) + r.failed_units.filter_map(|u: Seq<char>| failure_change(u, prev.failed_units))
            + r.event_counters.filter_map(
            |e: (Seq<char>, u64)| event_change(e, prev.event_counters),
        ),
    )
}

fn note_restarts(report: &HealthReport, prev: &Snapshot) -> (r: Vec<String>)
    ensures
        deep(r@) == report@.container_uptimes.filter_map(
            |e: (Seq<char>, u64)| restart_change(e, prev@.containers),
        ),
{
    broadcast use lemma_deep_empty;

    let ghost was = prev@.containers;
    let ghost all = report@.container_uptimes;
    let ghost f = |e: (Seq<char>, u64)| restart_change(e, was);
    let mut out: Vec<String> = Vec::new();
    let mut i: usize = 0;
    while i < report.container_uptimes.entries.len()
        invariant
            was == prev@.containers,
            all == report@.container_uptimes,
            f == |e: (Seq<char>, u64)| restart_change(e, was),
            i <= all.len(),
            deep(out@) == all.take(i as int).filter_map(f),
        decreases all.len() - i,
    {
        broadcast use lemma_deep_push;

        proof {
            lemma_filter_map_step(all, f, i as int);
        }
        let name = report.container_uptimes.entries[i].0.as_str();
        let up: u64 = report.container_uptimes.entries[i].1;
        match prev.containers.get(name) {
            Some(before) => {
                if up < *before {
                    let mut s = "container ".to_string();
                    s.append(name);
                    s.append(" restarted since last check (up ");
                    s.append(fmt_dur(up).as_str());
                    s.append(", was up ");
                    s.append(fmt_dur(*before).as_str());
                    s.append(")");
                    out.push(s);
                }
            },
            None => {},
        }
        i = i + 1;
    }
    proof {
        lemma_take_all(all);
    }
    out
}

fn note_failures(report: &HealthReport, prev: &Snapshot) -> (r: Vec<String>)
    ensures
        deep(r@) == report@.failed_units.filter_map(
            |u: Seq<char>| failure_change(u, prev@.failed_units),
        ),
{
    broadcast use lemma_deep_empty;

    let ghost was = prev@.failed_units;
    let ghost all = report@.failed_units;
    let ghost f = |u: Seq<char>| failure_change(u, was);
    let mut out: Vec<String> = Vec::new();
    let mut i: usize = 0;
    while i < report.failed_units.len()
        invariant
            was == prev@.failed_units,
            all == report@.failed_units,
            f == |u: Seq<char>| failure_change(u, was),
            i <= all.len(),
            deep(out@) == all.take(i as int).filter_map(f),
        decreases all.len() - i,
    {
        broadcast use lemma_deep_push;

        proof {
            lemma_filter_map_step(all, f, i as int);
        }
        let unit = report.failed_units[i].as_str();
        if !lists(&prev.failed_units, unit) {
            let mut s = "unit ".to_string();
            s.append(unit);
            s.append(" newly failed since last check");
            out.push(s);
        }
        i = i + 1;
    }
    proof {
        lemma_take_all(all);
    }
    out
}

fn note_events(report: &HealthReport, prev: &Snapshot) -> (r: Vec<String>)
    ensures
        deep(r@) == report@.event_counters.filter_map(
            |e: (Seq<char>, u64)| event_change(e, prev@.event_counters),
        ),
{
    broadcast use lemma_deep_empty;

    let ghost was = prev@.event_counters;
    let ghost all = report@.event_counters;
    let ghost f = |e: (Seq<char>, u64)| event_change(e, was);
    let prev_tracked = !prev.event_counters.is_empty();
    let mut out: Vec<String> = Vec::new();
    let mut i: usize = 0;
    while i < report.event_counters.entries.len()
        invariant
            was == prev@.event_counters,
            all == report@.event_counters,
            f == |e: (Seq<char>, u64)| event_change(e, was),
            prev_tracked == (was.len() > 0),
            i <= all.len(),
            deep(out@) == all.take(i as int).filter_map(f),
        decreases all.len() - i,
    {
        broadcast use lemma_deep_push;

        proof {
            lemma_filter_map_step(all, f, i as int);
        }
        let key = report.event_counters.entries[i].0.as_str();
        let cur: u64 = report.event_counters.entries[i].1;
        match prev.event_counters.get(key) {
            Some(before) => {
                if cur > *before {
                    let mut s = "since last check: +".to_string();
                    s.append(format_u64(cur - *before).as_str());
                    s.append(" ");
                    s.append(key);
                    out.push(s);
                }
            },
            None => {
                if prev_tracked && cur > 0 {
                    let mut s = "since last check: +".to_string();
                    s.append(format_u64(cur).as_str());
                    s.append(" ");
                    s.append(key);
                    s.append(" (new)");
                    out.push(s);
                }
            },
        }
        i = i + 1;
    }
    proof {
        lemma_take_all(all);
    }
    out
}

/// Everything that changed in a fresh reading since the host's last snapshot, sorted.
pub fn changes_from(report: &HealthReport, prev: &Snapshot) -> (r: Vec<String>)
    ensures
        deep(r@) == changes_since(report@, prev@),
{
    let mut changes = note_restarts(report, prev);
    let mut failures = note_failures(report, prev);
    let mut events = note_events(report, prev);
    let ghost (a, b, c) = (changes@, failures@, events@);
    changes.append(&mut failures);
    changes.append(&mut events);
    proof {
        assert(deep(a + b + c) =~= deep(a) + deep(b) + deep(c));
    }
    sort_texts(changes)
}

/// An outcome with what changed since the last of the stored snapshots; without one, or where
/// the host failed, it is left alone.
pub open spec fn with_changes(
    o: HealthOutcomeView,
    stored: Option<Seq<SnapshotView>>,
) -> HealthOutcomeView {
    match (o.result, stored) {
        (Ok(r), Some(h)) => if h.len() > 0 {
            HealthOutcomeView {
                result: Ok(HealthReportView { changes: changes_since(r, h.last()), ..r }),
                ..o
            }
        } else {
            o
        },
        _ => o,
    }
}

/// Flags between-run changes for each successful outcome by comparing the fresh reading
/// against the most recent stored snapshot of the host at the same place: a container whose
/// uptime dropped (restarted since the last check), a systemd unit that newly entered the
/// failed state, or an event counter that rose.
///
/// Best-effort: no history yet (first run) or one that could not be read leaves the changes
/// empty and never fails the run.
pub fn annotate_changes(
    outcomes: &mut Vec<HealthOutcome>,
    stored: &Vec<Option<Vec<Snapshot>>>,
)
    requires
        stored@.len() == old(outcomes)@.len(),
    ensures
        deep(final(outcomes)@) == Seq::new(
            old(outcomes)@.len(),
            |i: int| with_changes(deep(old(outcomes)@)[i], histories(stored@)[i]),
        ),
{
    let ghost before = deep(outcomes@);
    let mut i: usize = 0;
    while i < outcomes.len()
        invariant
            i <= outcomes@.len(),
            outcomes@.len() == before.len(),
            stored@.len() == before.len(),
            forall|j: int|
                0 <= j < i ==> (#[trigger] outcomes@[j])@ == with_changes(
                    before[j],
                    histories(stored@)[j],
                ),
            forall|j: int| i <= j < before.len() ==> (#[trigger] outcomes@[j])@ == before[j],
        decreases outcomes@.len() - i,
    {
        let o = &mut outcomes[i];
        match &mut o.result {
            Ok(report) => match &stored[i] {
                Some(h) => {
                    if h.len() > 0 {
                        let changes = changes_from(report, &h[h.len() - 1]);
                        report.changes = changes;
                    }
                },
                None => {},
            },
            Err(_) => {},
        }
        i = i + 1;
    }
}

/// Comparing with the past never changes what was measured, the verdict, or what is carried to
/// the history.
pub proof fn law_notes_leave_the_reading_alone(
    c: ConfigView,
    o: HealthOutcomeView,
    stored: Option<Seq<SnapshotView>>,
)
    ensures
        same_reading(with_anomalies(c, o, stored), o),
        same_reading(with_changes(o, stored), o),
{
}

/// The two outcomes agree in everything but anomalies, their note, and changes.
pub open spec fn same_reading(a: HealthOutcomeView, b: HealthOutcomeView) -> bool {
    &&& a.alias == b.alias
    &&& match (a.result, b.result) {
        (Ok(x), Ok(y)) => {
            &&& x.metrics == y.metrics
            &&& x.top_cpu == y.top_cpu
            &&& x.top_mem == y.top_mem
            &&& x.overall == y.overall
            &&& x.container_uptimes == y.container_uptimes
            &&& x.failed_units == y.failed_units
            &&& x.event_counters == y.event_counters
        },
        (Err(x), Err(y)) => x == y,
        _ => false,
    }
}

/// Until there are enough snapshots no anomaly is found, and the report says so.
pub proof fn law_short_history_finds_nothing(
    r: HealthReportView,
    cfg: AnomalyConfig,
    stored: Seq<SnapshotView>,
)
    requires
        cfg.enabled,
        stored.len() < cfg.min_samples,
    ensures
        compared(r, cfg, Some(stored)).anomalies == r.anomalies,
        compared(r, cfg, Some(stored)).anomaly_note is Some,
{
}

/// A reading equal to the last snapshot in containers, failed units and counters shows no
/// change.
pub proof fn law_nothing_new_is_no_change(r: HealthReportView, prev: SnapshotView)
    requires
        distinct_keys(r.container_uptimes),
        distinct_keys(r.event_counters),
        r.container_uptimes == prev.containers,
        r.failed_units == prev.failed_units,
        r.event_counters == prev.event_counters,
    ensures
        changes_since(r, prev).len() == 0,
{
    let f = |e: (Seq<char>, u64)| restart_change(e, prev.containers);
    let g = |u: Seq<char>| failure_change(u, prev.failed_units);
    let h = |e: (Seq<char>, u64)| event_change(e, prev.event_counters);
    assert forall|i: int| 0 <= i < r.container_uptimes.len() implies f(
        #[trigger] r.container_uptimes[i],
    ) is None by {
        lemma_slot_is(prev.containers, r.container_uptimes[i].0, i);
    }
    assert forall|i: int| 0 <= i < r.failed_units.len() implies g(
        #[trigger] r.failed_units[i],
    ) is None by {}
    assert forall|i: int| 0 <= i < r.event_counters.len() implies h(
        #[trigger] r.event_counters[i],
    ) is None by {
        lemma_slot_is(prev.event_counters, r.event_counters[i].0, i);
    }
    lemma_nothing_kept(r.container_uptimes, f);
    lemma_nothing_kept(r.failed_units, g);
    lemma_nothing_kept(r.event_counters, h);
}

/// A snapshot that tracked no counters makes none of the present ones new.
pub proof fn law_untracked_counters_are_no_backlog(r: HealthReportView, prev: SnapshotView)
    requires
        prev.event_counters.len() == 0,
    ensures
        r.event_counters.filter_map(
            |e: (Seq<char>, u64)| event_change(e, prev.event_counters),
        ).len() == 0,
{
    let h = |e: (Seq<char>, u64)| event_change(e, prev.event_counters);
    lemma_nothing_kept(r.event_counters, h);
}

/// A counter that did not rise, as after a reboot, shows no change.
pub proof fn law_counter_reset_is_no_change(
    now: (Seq<char>, u64),
    prev: Seq<(Seq<char>, u64)>,
    was: u64,
)
    requires
        lookup(prev, now.0) == Some(was),
        now.1 <= was,
    ensures
        event_change(now, prev) is None,
{
}

/// A container that was not there at the last check is not reported as restarted.
pub proof fn law_new_container_is_no_restart(
    now: (Seq<char>, u64),
    prev: Seq<(Seq<char>, u64)>,
)
    requires
        lookup(prev, now.0) is None,
    ensures
        restart_change(now, prev) is None,
{
}

proof fn lemma_nothing_kept<A, B>(s: Seq<A>, f: spec_fn(A) -> Option<B>)
    requires
        forall|i: int| 0 <= i < s.len() ==> f(#[trigger] s[i]) is None,
    ensures
        s.filter_map(f).len() == 0,
    decreases s.len(),
{
    if s.len() > 0 {
        let n = s.len() - 1;
        assert forall|i: int| 0 <= i < n implies f(#[trigger] s.take(n)[i]) is None by {
            assert(s.take(n)[i] == s[i]);
        }
        lemma_nothing_kept(s.take(n), f);
        lemma_filter_map_step(s, f, n);
        lemma_take_all(s);
    }
}

} // verus!
