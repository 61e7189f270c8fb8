//! What a run tells of its hosts: findings, gates and exit codes, changes since the last check,
//! and what becomes of an ssh invocation.

use crate::anomaly::{anomalies_of, AnomalyConfig};
use crate::anomaly_laws::{lemma_from, lemma_kept};
use crate::audit::{
    collected, command_plan, findings_of, plan_step, recorded, result_of, CmdOutputView,
    OutputsView,
};
use crate::checks::{AnyCheck, Check, FindingView, Severity, Status};
use crate::cli::{
    audit_errored, audit_gated, health_errored, health_gated, status_trips, trips, trips_severity,
    verdict_code, FailOn, FailOnStatus,
};
use crate::health::{HealthReportView, HealthStatus};
use crate::history::{
    entries, most_recent, retention_cap, snapshot_of_report, trimmed_history, SnapshotView,
};
use crate::run::{audit_result, effective_profile, AuditOutcomeView, HealthOutcomeView};
use crate::run::annotate::{changes_since, compared, duration_text, with_changes};
use crate::run::group::{
    audit_headline, audits_failed, health_headline, hosts_at, hosts_failed, signature,
};
use crate::scoring::{Profile, ScoreView};
use crate::ssh::{
    completion, preflight_error, ssh_args, valid_host, valid_user, Completion, SshConfigView,
    SshError, SshErrorView, SshOutput,
};
use crate::text::number::{digits, lemma_digits_are_read, lemma_digits_shape, strip_plus};
use crate::text::order::{lemma_sorted, sorted};
use crate::text::search::mentions;
use crate::text::split::{lemma_fold_step, lemma_take_all, trim};
use crate::textmap::{lemma_lookup_put_if_absent, lookup};
use vstd::prelude::*;

verus! {

/// A check whose output could not be had never passes: it is skipped where its command was not
/// run, or where the command is not there and the check can do without, and is an error
/// otherwise.
pub proof fn law_no_output_is_no_pass(check: AnyCheck, o: OutputsView, privileged: bool)
    requires
        !privileged || (check.info().effective_command matches Some(cmd) ==> collected(o, cmd@)
            is None),
    ensures
        lookup(o, check.info().command@) is None ==> result_of(check, o, privileged).status
            == Status::Skipped,
        lookup(o, check.info().command@) matches Some(CmdOutputView::Failed(e)) ==> (if e.not_found
            && check.info().skip_if_tool_missing {
            result_of(check, o, privileged).status == Status::Skipped
        } else {
            result_of(check, o, privileged).status == Status::Error && result_of(
                check,
                o,
                privileged,
            ).detail == e.message
        }),
{
}

/// A finding carries what its check says of itself and what came of it.
pub proof fn law_finding_is_the_checks(
    checks: Seq<AnyCheck>,
    o: OutputsView,
    privileged: bool,
    i: int,
)
    requires
        0 <= i < checks.len(),
    ensures
        ({
            let f = findings_of(checks, o, privileged)[i];
            let c = checks[i];
            &&& f.id == c.info().id@
            &&& f.domain == c.info().domain
            &&& f.title == c.info().title@
            &&& f.severity == c.info().severity
            &&& f.recommendation == c.info().recommendation@
            &&& f.status == result_of(c, o, privileged).status
            &&& f.detail == result_of(c, o, privileged).detail
        }),
{
}

/// What is kept of a reply: the output of a command that succeeded, or whose failure is
/// tolerated; else that it failed, and that it is missing exactly for the code 127. A failure of
/// the connection itself is kept nowhere.
pub proof fn law_reply_is_recorded(reply: Result<SshOutput, SshError>, tolerate: bool)
    ensures
        reply matches Ok(out) ==> recorded(reply, tolerate) == Some(
            CmdOutputView::Done(out.stdout@),
        ),
        reply matches Err(e) ==> (e@ matches SshErrorView::RemoteCommand { code, stdout, stderr }
            ==> (if tolerate {
            recorded(reply, tolerate) == Some(CmdOutputView::Done(stdout))
        } else {
            recorded(reply, tolerate) matches Some(CmdOutputView::Failed(x)) && (x.not_found
                <==> code == Some(127i32))
        })),
        reply matches Err(e) ==> (!(e@ is RemoteCommand) ==> recorded(reply, tolerate) is None),
{
}

/// Check `c` asks for the command, and says whether its failure is tolerated.
pub open spec fn asks(c: AnyCheck, cmd: Seq<char>, tolerate: bool, privileged: bool) -> bool {
    ||| c.info().command@ == cmd && c.info().tolerate_nonzero_exit == tolerate && (privileged
        || !c.info().privileged)
    ||| privileged && !tolerate && (c.info().effective_command matches Some(e) && e@ == cmd)
}

/// A command is planned as some check asks for it.
pub proof fn law_plan_is_as_asked(checks: Seq<AnyCheck>, privileged: bool, cmd: Seq<char>)
    ensures
        lookup(command_plan(checks, privileged), cmd) matches Some(t) ==> exists|i: int|
            0 <= i < checks.len() && asks(#[trigger] checks[i], cmd, t, privileged),
{
    lemma_plan_upto(checks, privileged, cmd, checks.len() as int);
    lemma_take_all(checks);
}

proof fn lemma_plan_upto(checks: Seq<AnyCheck>, privileged: bool, cmd: Seq<char>, n: int)
    requires
        0 <= n <= checks.len(),
    ensures
        lookup(command_plan(checks.take(n), privileged), cmd) matches Some(t) ==> exists|i: int|
            0 <= i < n && asks(#[trigger] checks[i], cmd, t, privileged),
    decreases n,
{
    let f = |plan: Seq<(Seq<char>, bool)>, c: AnyCheck| plan_step(plan, c, privileged);
    if n > 0 {
        lemma_plan_upto(checks, privileged, cmd, n - 1);
        lemma_fold_step(checks, Seq::empty(), f, n - 1);
        let before = command_plan(checks.take(n - 1), privileged);
        let c = checks[n - 1];
        let info = c.info();
        lemma_lookup_put_if_absent(before, info.command@, info.tolerate_nonzero_exit, cmd);
        let mid = if info.privileged && !privileged {
            before
        } else {
            crate::textmap::put_if_absent(before, info.command@, info.tolerate_nonzero_exit)
        };
        if info.effective_command is Some {
            lemma_lookup_put_if_absent(mid, info.effective_command->0@, false, cmd);
        }
        let after = command_plan(checks.take(n), privileged);
        assert(after == plan_step(before, c, privileged));
        if lookup(after, cmd) is Some {
            let t = lookup(after, cmd)->0;
            if lookup(before, cmd) is Some {
                let i = choose|i: int|
                    0 <= i < n - 1 && asks(#[trigger] checks[i], cmd, t, privileged);
                assert(asks(checks[i], cmd, t, privileged));
            } else {
                assert(asks(checks[n - 1], cmd, t, privileged));
            }
        }
    } else {
        assert(command_plan(checks.take(0), privileged).len() == 0);
    }
}

/// The severity is at or above the limit.
pub open spec fn gated_severity(s: Severity, fail_on: FailOn) -> bool {
    match fail_on {
        FailOn::Off => false,
        FailOn::Low => s != Severity::Info,
        FailOn::Medium => s != Severity::Info && s != Severity::Low,
        FailOn::High => s == Severity::High || s == Severity::Critical,
        FailOn::Critical => s == Severity::Critical,
    }
}

/// A host trips exactly if one of its checks failed at or above the set severity, or
/// it scored under the set score.
pub open spec fn host_gated(
    total: u8,
    f: Seq<FindingView>,
    fail_on: FailOn,
    fail_under: Option<u8>,
) -> bool {
    ||| exists|i: int|
        0 <= i < f.len() && (#[trigger] f[i]).status == Status::Fail && gated_severity(
            f[i].severity,
            fail_on,
        )
    ||| fail_under matches Some(n) && total < n
}

/// Host `i` was audited, and trips.
pub open spec fn host_trips(o: AuditOutcomeView, fail_on: FailOn, fail_under: Option<u8>) -> bool {
    o.result matches Ok((score, f)) && host_gated(score.total, f, fail_on, fail_under)
}

proof fn lemma_gate(score: ScoreView, f: Seq<FindingView>, fail_on: FailOn, fail_under: Option<u8>)
    ensures
        trips(score, f, fail_on, fail_under) <==> host_gated(score.total, f, fail_on, fail_under),
{
    if trips_severity(f, fail_on) {
        let i = choose|i: int|
            0 <= i < f.len() && (#[trigger] f[i]).status == Status::Fail && f[i].severity.level()
                >= crate::cli::gate_severity(fail_on)->0.level();
        assert(gated_severity(f[i].severity, fail_on));
    }
    if exists|i: int|
        0 <= i < f.len() && (#[trigger] f[i]).status == Status::Fail && gated_severity(
            f[i].severity,
            fail_on,
        ) {
        let i = choose|i: int|
            0 <= i < f.len() && (#[trigger] f[i]).status == Status::Fail && gated_severity(
                f[i].severity,
                fail_on,
            );
        assert(f[i].severity.level() >= crate::cli::gate_severity(fail_on)->0.level());
    }
}

/// An audit run exits with 2 exactly if some host trips, else with 1 exactly if some
/// host could not be audited, else with 0. A host alone gives 2 or 0.
pub proof fn law_audit_exit(o: Seq<AuditOutcomeView>, fail_on: FailOn, fail_under: Option<u8>)
    ensures
        verdict_code(audit_gated(o, fail_on, fail_under), audit_errored(o)) == if exists|i: int|
            0 <= i < o.len() && host_trips(#[trigger] o[i], fail_on, fail_under) {
            2int
        } else if exists|i: int| 0 <= i < o.len() && (#[trigger] o[i]).result is Err {
            1
        } else {
            0
        },
        forall|score: ScoreView, f: Seq<FindingView>|
            #[trigger] trips(score, f, fail_on, fail_under) <==> host_gated(
                score.total,
                f,
                fail_on,
                fail_under,
            ),
{
    assert forall|score: ScoreView, f: Seq<FindingView>|
        #[trigger] trips(score, f, fail_on, fail_under) <==> host_gated(
            score.total,
            f,
            fail_on,
            fail_under,
        ) by {
        lemma_gate(score, f, fail_on, fail_under);
    }
    if audit_gated(o, fail_on, fail_under) {
        let i = choose|i: int|
            0 <= i < o.len() && crate::cli::audit_trips(#[trigger] o[i], fail_on, fail_under);
        assert(host_trips(o[i], fail_on, fail_under));
    }
    if exists|i: int| 0 <= i < o.len() && host_trips(#[trigger] o[i], fail_on, fail_under) {
        let i = choose|i: int|
            0 <= i < o.len() && host_trips(#[trigger] o[i], fail_on, fail_under);
        assert(crate::cli::audit_trips(o[i], fail_on, fail_under));
    }
}

/// The overall status is at least as bad as the limit.
pub open spec fn gated_status(s: HealthStatus, fail_on: FailOnStatus) -> bool {
    match fail_on {
        FailOnStatus::Off => false,
        FailOnStatus::Warn => s == HealthStatus::Warn || s == HealthStatus::Crit,
        FailOnStatus::Crit => s == HealthStatus::Crit,
    }
}

/// Host `i` was measured, and trips.
pub open spec fn status_gated(o: HealthOutcomeView, fail_on: FailOnStatus) -> bool {
    o.result matches Ok(r) && gated_status(r.overall, fail_on)
}

/// A health run exits with 2 exactly if some host trips, else with 1 exactly if some
/// host could not be measured, else with 0.
pub proof fn law_health_exit(o: Seq<HealthOutcomeView>, fail_on: FailOnStatus)
    ensures
        verdict_code(health_gated(o, fail_on), health_errored(o)) == if exists|i: int|
            0 <= i < o.len() && status_gated(#[trigger] o[i], fail_on) {
            2int
        } else if exists|i: int| 0 <= i < o.len() && (#[trigger] o[i]).result is Err {
            1
        } else {
            0
        },
        forall|s: HealthStatus| #[trigger] status_trips(s, fail_on) <==> gated_status(s, fail_on),
{
    if health_gated(o, fail_on) {
        let i = choose|i: int|
            0 <= i < o.len() && crate::cli::health_trips(#[trigger] o[i], fail_on);
        assert(status_gated(o[i], fail_on));
    }
    if exists|i: int| 0 <= i < o.len() && status_gated(#[trigger] o[i], fail_on) {
        let i = choose|i: int| 0 <= i < o.len() && status_gated(#[trigger] o[i], fail_on);
        assert(crate::cli::health_trips(o[i], fail_on));
    }
}

/// The profile that is asked for comes first, then the host's own, then the baseline; findings
/// are scored by it, and kept.
pub proof fn law_profile_that_counts(
    asked: Option<Profile>,
    own: Option<Profile>,
    findings: Seq<FindingView>,
)
    ensures
        asked matches Some(p) ==> effective_profile(asked, own) == p,
        asked is None && own is Some ==> effective_profile(asked, own) == own->0,
        asked is None && own is None ==> effective_profile(asked, own) == Profile::Baseline,
        audit_result(Ok(findings), effective_profile(asked, own)) matches Ok((score, f)) && f
            == findings && score.profile == effective_profile(asked, own),
{
}

/// A text stands in a sorted list exactly if it stood in the list.
proof fn lemma_in_sorted(s: Seq<Seq<char>>, x: Seq<char>)
    ensures
        sorted(s).contains(x) <==> s.contains(x),
{
    broadcast use vstd::seq_lib::group_to_multiset_ensures;

    lemma_sorted(s);
    assert(s.contains(x) <==> s.to_multiset().count(x) > 0);
    assert(sorted(s).contains(x) <==> sorted(s).to_multiset().count(x) > 0);
}

spec fn restarts(r: HealthReportView, prev: SnapshotView) -> Seq<Seq<char>> {
    r.container_uptimes.filter_map(
        |e: (Seq<char>, u64)| crate::run::annotate::restart_change(e, prev.containers),
    )
}

spec fn new_failures(r: HealthReportView, prev: SnapshotView) -> Seq<Seq<char>> {
    r.failed_units.filter_map(
        |u: Seq<char>| crate::run::annotate::failure_change(u, prev.failed_units),
    )
}

spec fn new_events(r: HealthReportView, prev: SnapshotView) -> Seq<Seq<char>> {
    r.event_counters.filter_map(
        |e: (Seq<char>, u64)| crate::run::annotate::event_change(e, prev.event_counters),
    )
}

proof fn lemma_change(r: HealthReportView, prev: SnapshotView, x: Seq<char>)
    ensures
        changes_since(r, prev).contains(x) <==> restarts(r, prev).contains(x) || new_failures(
            r,
            prev,
        ).contains(x) || new_events(r, prev).contains(x),
{
    let (a, b, c) = (restarts(r, prev), new_failures(r, prev), new_events(r, prev));
    lemma_in_sorted(a + b + c, x);
    if a.contains(x) {
        let i = a.index_of(x);
        assert((a + b + c)[i] == x);
    }
    if b.contains(x) {
        let i = b.index_of(x);
        assert((a + b + c)[a.len() + i] == x);
    }
    if c.contains(x) {
        let i = c.index_of(x);
        assert((a + b + c)[a.len() + b.len() + i] == x);
    }
    if (a + b + c).contains(x) {
        let i = (a + b + c).index_of(x);
        if i < a.len() {
            assert(a[i] == x);
        } else if i < a.len() + b.len() {
            assert(b[i - a.len()] == x);
        } else {
            assert(c[i - a.len() - b.len()] == x);
        }
    }
}

/// A container whose uptime fell since the last snapshot is told as restarted, with both
/// uptimes.
pub proof fn law_restart_is_told(r: HealthReportView, prev: SnapshotView, i: int, was: u64)
    requires
        0 <= i < r.container_uptimes.len(),
        lookup(prev.containers, r.container_uptimes[i].0) == Some(was),
        r.container_uptimes[i].1 < was,
    ensures
        changes_since(r, prev).contains(
            "container "@ + r.container_uptimes[i].0 + " restarted since last check (up "@
                + duration_text(r.container_uptimes[i].1 as int) + ", was up "@ + duration_text(
                was as int,
            ) + ")"@,
        ),
{
    let f = |e: (Seq<char>, u64)| crate::run::annotate::restart_change(e, prev.containers);
    lemma_kept(r.container_uptimes, f, i);
    lemma_change(r, prev, f(r.container_uptimes[i])->0);
}

/// A unit that fails now and did not at the last snapshot is told as newly failed.
pub proof fn law_new_failure_is_told(r: HealthReportView, prev: SnapshotView, i: int)
    requires
        0 <= i < r.failed_units.len(),
        !prev.failed_units.contains(r.failed_units[i]),
    ensures
        changes_since(r, prev).contains(
            "unit "@ + r.failed_units[i] + " newly failed since last check"@,
        ),
{
    let f = |u: Seq<char>| crate::run::annotate::failure_change(u, prev.failed_units);
    lemma_kept(r.failed_units, f, i);
    lemma_change(r, prev, f(r.failed_units[i])->0);
}

/// A counter that rose since the last snapshot is told with how far it rose, and one that the
/// snapshot did not have beside others is told as new.
pub proof fn law_rise_is_told(r: HealthReportView, prev: SnapshotView, i: int, was: u64, rise: u64)
    requires
        0 <= i < r.event_counters.len(),
    ensures
        lookup(prev.event_counters, r.event_counters[i].0) == Some(was) && rise > 0 && was + rise
            == r.event_counters[i].1 ==> changes_since(r, prev).contains(
            "since last check: +"@ + digits(rise as int) + " "@ + r.event_counters[i].0,
        ),
        lookup(prev.event_counters, r.event_counters[i].0) is None && prev.event_counters.len() > 0
            && r.event_counters[i].1 > 0 ==> changes_since(r, prev).contains(
            "since last check: +"@ + digits(r.event_counters[i].1 as int) + " "@
                + r.event_counters[i].0 + " (new)"@,
        ),
{
    let f = |e: (Seq<char>, u64)| crate::run::annotate::event_change(e, prev.event_counters);
    if f(r.event_counters[i]) is Some {
        lemma_kept(r.event_counters, f, i);
        lemma_change(r, prev, f(r.event_counters[i])->0);
    }
}

/// Nothing is told as changed but a fallen uptime, a new failure or a risen counter.
pub proof fn law_only_changes_are_told(r: HealthReportView, prev: SnapshotView, x: Seq<char>)
    requires
        changes_since(r, prev).contains(x),
    ensures
        ({
            ||| exists|i: int|
                0 <= i < r.container_uptimes.len() && (lookup(
                    prev.containers,
                    (#[trigger] r.container_uptimes[i]).0,
                ) matches Some(was) && r.container_uptimes[i].1 < was)
            ||| exists|i: int|
                0 <= i < r.failed_units.len() && !prev.failed_units.contains(
                    #[trigger] r.failed_units[i],
                )
            ||| exists|i: int|
                0 <= i < r.event_counters.len() && (match lookup(
                    prev.event_counters,
                    (#[trigger] r.event_counters[i]).0,
                ) {
                    Some(was) => r.event_counters[i].1 > was,
                    None => prev.event_counters.len() > 0 && r.event_counters[i].1 > 0,
                })
        }),
{
    lemma_change(r, prev, x);
    if restarts(r, prev).contains(x) {
        let f = |e: (Seq<char>, u64)| crate::run::annotate::restart_change(e, prev.containers);
        let k = restarts(r, prev).index_of(x);
        let i = lemma_from(r.container_uptimes, f, k);
        assert(lookup(prev.containers, r.container_uptimes[i].0) is Some);
    } else if new_failures(r, prev).contains(x) {
        let f = |u: Seq<char>| crate::run::annotate::failure_change(u, prev.failed_units);
        let k = new_failures(r, prev).index_of(x);
        let i = lemma_from(r.failed_units, f, k);
        assert(!prev.failed_units.contains(r.failed_units[i]));
    } else {
        let f = |e: (Seq<char>, u64)| crate::run::annotate::event_change(e, prev.event_counters);
        let k = new_events(r, prev).index_of(x);
        let i = lemma_from(r.event_counters, f, k);
        assert(f(r.event_counters[i]) is Some);
    }
}

/// The time that is told is the greatest whole number of days, hours, minutes or seconds, in the
/// greatest of these units that fits in.
pub proof fn law_duration_is_told(secs: u64, n: u64)
    ensures
        n >= 1 && n * 86_400 <= secs < (n + 1) * 86_400 ==> duration_text(secs as int) == digits(
            n as int,
        ) + "d"@,
        1 <= n < 24 && n * 3_600 <= secs < (n + 1) * 3_600 ==> duration_text(secs as int) == digits(
            n as int,
        ) + "h"@,
        1 <= n < 60 && n * 60 <= secs < (n + 1) * 60 ==> duration_text(secs as int) == digits(
            n as int,
        ) + "m"@,
        n < 60 && secs == n ==> duration_text(secs as int) == digits(n as int) + "s"@,
{
}

/// Changes are told against the newest snapshot.
pub proof fn law_changes_are_since_the_newest(
    o: HealthOutcomeView,
    r: HealthReportView,
    h: Seq<SnapshotView>,
)
    requires
        o.result == Ok::<HealthReportView, Seq<char>>(r),
    ensures
        h.len() > 0 ==> (with_changes(o, Some(h)).result matches Ok(x) && x.changes
            == changes_since(r, h[h.len() - 1])),
        with_changes(o, Some(Seq::empty())) == o,
        with_changes(o, None) == o,
{
}

/// Where a comparison is wanted and the newest snapshots within the window are enough, the
/// anomalies are those against them; else there are none to add, and a note says why.
pub proof fn law_comparison_is_with_the_window(
    r: HealthReportView,
    cfg: AnomalyConfig,
    all: Seq<SnapshotView>,
    h: Seq<SnapshotView>,
)
    requires
        h == if cfg.window == 0 || all.len() <= cfg.window {
            all
        } else {
            all.subrange(all.len() - cfg.window, all.len() as int)
        },
    ensures
        cfg.enabled && h.len() >= cfg.min_samples ==> compared(r, cfg, Some(all)).anomalies
            == anomalies_of(r.metrics, h, cfg) && compared(r, cfg, Some(all)).anomaly_note
            == r.anomaly_note,
        !cfg.enabled || h.len() < cfg.min_samples ==> compared(r, cfg, Some(all)).anomalies
            == r.anomalies && compared(r, cfg, Some(all)).anomaly_note is Some,
        compared(r, cfg, None).anomalies == r.anomalies && compared(r, cfg, None).anomaly_note
            is Some,
{
    assert(most_recent(all, cfg.window) =~= h);
}

/// A snapshot carries what the report measured.
pub proof fn law_snapshot_carries_the_report(r: HealthReportView, ts: u64)
    ensures
        snapshot_of_report(r, ts).ts == ts,
        snapshot_of_report(r, ts).overall == r.overall,
        snapshot_of_report(r, ts).containers == r.container_uptimes,
        snapshot_of_report(r, ts).failed_units == r.failed_units,
        snapshot_of_report(r, ts).event_counters == r.event_counters,
{
}

/// The retention is the number that is set, or a thousand.
pub proof fn law_retention_is_as_set(setting: Option<Seq<char>>, n: usize)
    ensures
        retention_cap(Some(digits(n as int))) == n,
        setting is None ==> retention_cap(setting) == 1000,
        setting matches Some(s) && s.len() == 0 ==> retention_cap(setting) == 1000,
{
    lemma_digits_are_read(n as int);
    lemma_digits_shape(n as int);
    assert(strip_plus(digits(n as int)) == digits(n as int));
}

/// A history is cut down exactly if it has more entries than are kept.
pub proof fn law_history_is_cut_when_too_long(text: Seq<char>, max: usize)
    ensures
        trimmed_history(text, max) is None <==> max == 0 || entries(text).len() <= max,
{
}

/// The character is a letter or a digit.
pub open spec fn plain(c: char) -> bool {
    'a' <= c <= 'z' || 'A' <= c <= 'Z' || '0' <= c <= '9'
}

/// A host has letters, digits, and `.`, `-`, `_` or `:` in it, a user the same without `:`;
/// neither is empty or starts with `-`.
pub proof fn law_names_are_plain(s: Seq<char>)
    ensures
        valid_host(s) <==> s.len() > 0 && s[0] != '-' && forall|i: int|
            0 <= i < s.len() ==> plain(#[trigger] s[i]) || s[i] == '.' || s[i] == '-' || s[i] == '_'
                || s[i] == ':',
        valid_user(s) <==> s.len() > 0 && s[0] != '-' && forall|i: int|
            0 <= i < s.len() ==> plain(#[trigger] s[i]) || s[i] == '.' || s[i] == '-' || s[i]
                == '_',
{
}

/// An invocation is refused for its host first, then for its user, then for its command, and
/// for nothing else.
pub proof fn law_refusals_are_in_order(c: SshConfigView, command: Seq<char>)
    ensures
        preflight_error(c, command) is None <==> valid_host(c.host) && valid_user(c.user)
            && crate::catalog::refusal(command) is None,
        !valid_host(c.host) ==> preflight_error(c, command) == Some(
            SshErrorView::InvalidHost(c.host),
        ),
        valid_host(c.host) && !valid_user(c.user) ==> preflight_error(c, command) == Some(
            SshErrorView::InvalidUser(c.user),
        ),
        valid_host(c.host) && valid_user(c.user) ==> (crate::catalog::refusal(
            command,
        ) matches Some(e) ==> preflight_error(c, command) == Some(
            SshErrorView::CommandRejected(e),
        )),
{
}

/// A command succeeded exactly if its code is 0. The code 255 is ssh's own: it could not
/// authenticate if its message says so, else it could not connect. Any other end is a failure of
/// the command, with what it printed.
pub proof fn law_exit_is_classified(
    code: Option<i32>,
    stdout: Seq<char>,
    stderr: Seq<char>,
    lower: Seq<char>,
)
    ensures
        completion(code, stdout, stderr, lower) is Output <==> code == Some(0i32),
        completion(code, stdout, stderr, lower) matches Completion::Output(a, b) ==> a == stdout
            && b == stderr,
        code == Some(255i32) && (mentions(lower, "permission denied"@) || mentions(
            lower,
            "authentication"@,
        )) ==> completion(code, stdout, stderr, lower) == Completion::Failure(
            SshErrorView::Auth(trim(stderr)),
        ),
        code == Some(255i32) && !mentions(lower, "permission denied"@) && !mentions(
            lower,
            "authentication"@,
        ) ==> completion(code, stdout, stderr, lower) == Completion::Failure(
            SshErrorView::Connection(trim(stderr)),
        ),
        code != Some(0i32) && code != Some(255i32) ==> (completion(
            code,
            stdout,
            stderr,
            lower,
        ) matches Completion::Failure(SshErrorView::RemoteCommand { code: c, stdout: a, stderr: b })
            && c == code && a == stdout && b == trim(stderr)),
{
}

/// Every invocation runs without asking for anything, with a fixed search path before the
/// command; only the given key is offered, and a known-hosts file is used where one is given.
pub proof fn law_invocation_is_quiet(
    c: SshConfigView,
    identity: Option<Seq<char>>,
    command: Seq<char>,
)
    ensures
        ({
            let args = ssh_args(c, identity, command);
            let d = if identity is Some {
                4int
            } else {
                0
            };
            &&& args[0] == "-p"@ && args[1] == digits(c.port as int)
            &&& identity matches Some(k) ==> args[2] == "-i"@ && args[3] == k && args[4] == "-o"@
                && args[5] == "IdentitiesOnly=yes"@
            &&& args[d + 2] == "-o"@ && args[d + 3] == "BatchMode=yes"@
            &&& args[d + 4] == "-o"@ && args[d + 5] == "PasswordAuthentication=no"@
            &&& args[d + 6] == "-o"@ && args[d + 7] == "ConnectTimeout="@ + digits(
                c.connect_timeout as int,
            )
            &&& c.known_hosts matches Some(k) ==> args[d + 10] == "-o"@ && args[d + 11]
                == "UserKnownHostsFile="@ + k
            &&& args[args.len() - 2] == c.user + "@"@ + c.host
            &&& args[args.len() - 1]
                == "PATH=/usr/local/sbin:/usr/local/bin:/usr/sbin:/sbin:/usr/bin:/bin "@ + trim(
                command,
            )
        }),
{
    reveal_strlit("PATH=");
    reveal_strlit("/usr/local/sbin:/usr/local/bin:/usr/sbin:/sbin:/usr/bin:/bin");
    reveal_strlit(" ");
    reveal_strlit("PATH=/usr/local/sbin:/usr/local/bin:/usr/sbin:/sbin:/usr/bin:/bin ");
    let path = "PATH="@ + "/usr/local/sbin:/usr/local/bin:/usr/sbin:/sbin:/usr/bin:/bin"@ + " "@;
    assert(path =~= "PATH=/usr/local/sbin:/usr/local/bin:/usr/sbin:/sbin:/usr/bin:/bin "@);
    let args = ssh_args(c, identity, command);
    assert(args[args.len() - 1] == crate::ssh::target_args(c, command)[1]);
}

/// The hosts whose overall status it is.
pub open spec fn of_status(o: Seq<HealthOutcomeView>, s: HealthStatus) -> Seq<HealthOutcomeView> {
    o.filter(|x: HealthOutcomeView| x.result matches Ok(r) && r.overall == s)
}

/// The hosts that could not be measured.
pub open spec fn unmeasured(o: Seq<HealthOutcomeView>) -> Seq<HealthOutcomeView> {
    o.filter(|x: HealthOutcomeView| x.result is Err)
}

proof fn lemma_counts(o: Seq<HealthOutcomeView>, s: HealthStatus)
    ensures
        hosts_at(o, s) == of_status(o, s).len(),
        hosts_failed(o) == unmeasured(o).len(),
    decreases o.len(),
{
    reveal(Seq::filter);
    if o.len() > 0 {
        lemma_counts(o.drop_last(), s);
    }
}

/// The headline of a group counts its hosts by status, and those that could not be measured.
pub proof fn law_health_headline_counts(group: Seq<char>, o: Seq<HealthOutcomeView>)
    ensures
        health_headline(group, o) == "Health group '"@ + group + "' ("@ + digits(o.len() as int)
            + " hosts): "@ + digits(of_status(o, HealthStatus::Okay).len() as int) + " OK, "@
            + digits(of_status(o, HealthStatus::Warn).len() as int) + " WARN, "@ + digits(
            of_status(o, HealthStatus::Crit).len() as int,
        ) + " CRIT, "@ + digits(unmeasured(o).len() as int) + " error\n"@,
{
    lemma_counts(o, HealthStatus::Okay);
    lemma_counts(o, HealthStatus::Warn);
    lemma_counts(o, HealthStatus::Crit);
}

/// Hosts are told together whatever they are called: what counts is the score and the findings, or
/// the error.
pub proof fn law_names_do_not_tell_hosts_apart(
    a: Seq<char>,
    b: Seq<char>,
    score: ScoreView,
    f: Seq<FindingView>,
    e: Seq<char>,
    x: Seq<char>,
)
    ensures
        signature((AuditOutcomeView { alias: a, result: Ok((score, f)) })) == signature(
            (AuditOutcomeView { alias: b, result: Ok((score, f)) }),
        ),
        signature((AuditOutcomeView { alias: a, result: Err(e) })) == signature(
            (AuditOutcomeView { alias: b, result: Err(x) }),
        ) <==> e == x,
        signature((AuditOutcomeView { alias: a, result: Ok((score, f)) })) != signature(
            (AuditOutcomeView { alias: b, result: Err(e) }),
        ),
{
    reveal_strlit("__err__");
    reveal_strlit("Audit of '");
    let p = "__err__"@;
    let n = p.len() as int;
    assert((p + e).skip(n) =~= e);
    assert((p + x).skip(n) =~= x);
    let text = signature((AuditOutcomeView { alias: a, result: Ok((score, f)) }));
    assert(text[0] == 'A');
    assert((p + e)[0] == '_');
}

/// The hosts that could not be audited.
pub open spec fn unaudited(o: Seq<AuditOutcomeView>) -> Seq<AuditOutcomeView> {
    o.filter(|x: AuditOutcomeView| x.result is Err)
}

proof fn lemma_unaudited(o: Seq<AuditOutcomeView>)
    ensures
        audits_failed(o) == unaudited(o).len(),
    decreases o.len(),
{
    reveal(Seq::filter);
    if o.len() > 0 {
        lemma_unaudited(o.drop_last());
    }
}

/// The headline of an audited group tells the score of a host that no other undercuts, and how
/// many could not be audited.
pub proof fn law_audit_headline_counts(group: Seq<char>, o: Seq<AuditOutcomeView>, k: int, low: u8)
    requires
        0 <= k < o.len(),
        o[k].result matches Ok((score, _)) && score.total == low,
        forall|i: int|
            0 <= i < o.len() ==> ((#[trigger] o[i]).result matches Ok((score, _)) ==> score.total
                >= low),
    ensures
        audit_headline(group, o) == "Audit group '"@ + group + "' ("@ + digits(o.len() as int)
            + " hosts): lowest score "@ + digits(low as int) + ", "@ + digits(
            unaudited(o).len() as int,
        ) + " error\n"@,
{
    lemma_unaudited(o);
    crate::run::group::law_lowest_score_is_lowest(o);
    assert(crate::run::group::host_total(o[k]) == Some(low));
}

} // verus!
