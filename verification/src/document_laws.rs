//! What the documents of reports, groups and histories hold.

use crate::checks::FindingView;
use crate::health::{AnomalyView, HealthReportView, HealthStatus, MetricView};
use crate::health::parse::ProcInfoView;
use crate::health::report::{
    anomaly_json, health_json, metric_json, process_json, report_json, status_name,
};
use crate::history::{history_json, snapshot_json, SnapshotView};
use crate::json::{
    decimal_value, each, field, list, text_list_value, text_value, whole_value, JsonView,
};
use crate::report::{audit_json, finding_json, findings_json, score_json};
use crate::report_laws::{lemma_member, member};
use crate::report_sarif::log_json;
use crate::run::{AuditOutcomeView, HealthOutcomeView};
use crate::run::group::{
    audit_group_document, grouped, health_group_document, health_host_json, host_group_json,
    HostGroupView,
};
use crate::scoring::ScoreView;
use vstd::prelude::*;

verus! {

/// What a status is called in a document.
pub proof fn law_status_in_documents()
    ensures
        status_name(HealthStatus::Okay) == "ok"@,
        status_name(HealthStatus::Warn) == "warn"@,
        status_name(HealthStatus::Crit) == "crit"@,
        status_name(HealthStatus::Unknown) == "unknown"@,
        HealthStatus::Okay.tag_text() == "OK"@,
        HealthStatus::Warn.tag_text() == "WARN"@,
        HealthStatus::Crit.tag_text() == "CRIT"@,
        HealthStatus::Unknown.tag_text() == "UNKN"@,
{
}

/// The document of a metric holds it but for its number.
pub proof fn law_metric_document(m: MetricView)
    ensures
        member(metric_json(m), "id"@) == Some(text_value(m.id)),
        member(metric_json(m), "title"@) == Some(text_value(m.title)),
        member(metric_json(m), "status"@) == Some(text_value(status_name(m.status))),
        member(metric_json(m), "value"@) == Some(text_value(m.value)),
        member(metric_json(m), "detail"@) == Some(text_value(m.detail)),
{
    reveal_strlit("id");
    reveal_strlit("title");
    reveal_strlit("status");
    reveal_strlit("value");
    reveal_strlit("detail");
    assert("id"@.len() == 2 && "title"@.len() == 5 && "status"@.len() == 6 && "value"@.len() == 5
        && "detail"@.len() == 6);
    assert("detail"@[0] == 'd' && "status"@[0] == 's' && "title"@[0] == 't' && "value"@[0] == 'v');
    let fields = field("id"@, text_value(m.id))
        + field("title"@, text_value(m.title))
        + field("status"@, text_value(status_name(m.status)))
        + field("value"@, text_value(m.value))
        + field("detail"@, text_value(m.detail));
    lemma_member(fields, 0);
    lemma_member(fields, 1);
    lemma_member(fields, 2);
    lemma_member(fields, 3);
    lemma_member(fields, 4);
}

/// The document of a process holds its number, its name and its shares.
pub proof fn law_process_document(p: ProcInfoView)
    ensures
        member(process_json(p), "pid"@) == Some(whole_value(p.pid as int)),
        member(process_json(p), "comm"@) == Some(text_value(p.comm)),
        member(process_json(p), "cpu"@) == Some(decimal_value(p.cpu)),
        member(process_json(p), "mem"@) == Some(decimal_value(p.mem)),
{
    reveal_strlit("pid");
    reveal_strlit("comm");
    reveal_strlit("cpu");
    reveal_strlit("mem");
    assert("pid"@.len() == 3 && "comm"@.len() == 4 && "cpu"@.len() == 3 && "mem"@.len() == 3);
    assert("cpu"@[0] == 'c' && "mem"@[0] == 'm' && "pid"@[0] == 'p');
    let fields = field("pid"@, whole_value(p.pid as int))
        + field("comm"@, text_value(p.comm))
        + field("cpu"@, decimal_value(p.cpu))
        + field("mem"@, decimal_value(p.mem));
    lemma_member(fields, 0);
    lemma_member(fields, 1);
    lemma_member(fields, 2);
    lemma_member(fields, 3);
}

/// The document of an anomaly holds the reading, the median and how far they are apart.
pub proof fn law_anomaly_document(a: AnomalyView)
    ensures
        member(anomaly_json(a), "metric_id"@) == Some(text_value(a.metric_id)),
        member(anomaly_json(a), "current"@) == Some(decimal_value(a.current)),
        member(anomaly_json(a), "median"@) == Some(decimal_value(a.median)),
        member(anomaly_json(a), "pct_change"@) == Some(decimal_value(a.pct_change)),
        member(anomaly_json(a), "z"@) == Some(match a.z {
            Some(z) => decimal_value(z),
            None => JsonView::Null,
        }),
{
    reveal_strlit("metric_id");
    reveal_strlit("current");
    reveal_strlit("median");
    reveal_strlit("pct_change");
    reveal_strlit("z");
    assert("metric_id"@.len() == 9 && "current"@.len() == 7 && "median"@.len() == 6
        && "pct_change"@.len() == 10 && "z"@.len() == 1);
    let fields = field("metric_id"@, text_value(a.metric_id))
        + field("current"@, decimal_value(a.current))
        + field("median"@, decimal_value(a.median))
        + field("pct_change"@, decimal_value(a.pct_change))
        + field("z"@, match a.z {
            Some(z) => decimal_value(z),
            None => JsonView::Null,
        });
    lemma_member(fields, 0);
    lemma_member(fields, 1);
    lemma_member(fields, 2);
    lemma_member(fields, 3);
    lemma_member(fields, 4);
}

/// The document of a health report names the host and its kind, and holds the report.
pub proof fn law_health_document(target: Seq<char>, r: HealthReportView)
    ensures
        member(health_json(target, r), "target"@) == Some(text_value(target)),
        member(health_json(target, r), "kind"@) == Some(text_value("health"@)),
        member(health_json(target, r), "report"@) == Some(report_json(r)),
{
    reveal_strlit("target");
    reveal_strlit("kind");
    reveal_strlit("report");
    assert("target"@.len() == 6 && "kind"@.len() == 4 && "report"@.len() == 6);
    assert("report"@[0] == 'r' && "target"@[0] == 't');
    let fields = field("target"@, text_value(target))
        + field("kind"@, text_value("health"@))
        + field("report"@, report_json(r));
    lemma_member(fields, 0);
    lemma_member(fields, 1);
    lemma_member(fields, 2);
}

/// The document of an audit names the host, and holds its score and its findings.
pub proof fn law_audit_document(target: Seq<char>, score: ScoreView, f: Seq<FindingView>)
    ensures
        member(audit_json(target, score, f), "target"@) == Some(text_value(target)),
        member(audit_json(target, score, f), "score"@) == Some(score_json(score)),
        member(audit_json(target, score, f), "findings"@) == Some(
            list(each(f, |x: FindingView| finding_json(x))),
        ),
{
    reveal_strlit("target");
    reveal_strlit("score");
    reveal_strlit("findings");
    assert("target"@.len() == 6 && "score"@.len() == 5 && "findings"@.len() == 8);
    let fields = field("target"@, text_value(target))
        + field("score"@, score_json(score))
        + field("findings"@, list(each(f, |x: FindingView| finding_json(x))));
    lemma_member(fields, 0);
    lemma_member(fields, 1);
    lemma_member(fields, 2);
}

/// The document of a group names it and its kind, and holds every host.
pub proof fn law_health_group_document(group: Seq<char>, o: Seq<HealthOutcomeView>)
    ensures
        member(health_group_document(group, o), "group"@) == Some(text_value(group)),
        member(health_group_document(group, o), "kind"@) == Some(text_value("health-group"@)),
        member(health_group_document(group, o), "hosts"@) == Some(
            list(each(o, |x: HealthOutcomeView| health_host_json(x))),
        ),
{
    reveal_strlit("group");
    reveal_strlit("kind");
    reveal_strlit("hosts");
    assert("group"@.len() == 5 && "kind"@.len() == 4 && "hosts"@.len() == 5);
    assert("group"@[0] == 'g' && "hosts"@[0] == 'h');
    let fields = field("group"@, text_value(group))
        + field("kind"@, text_value("health-group"@))
        + field("hosts"@, list(each(o, |x: HealthOutcomeView| health_host_json(x))));
    lemma_member(fields, 0);
    lemma_member(fields, 1);
    lemma_member(fields, 2);
}

/// The document of an audited group names it and its kind, and holds its hosts by what they have in
/// common.
pub proof fn law_audit_group_document(group: Seq<char>, o: Seq<AuditOutcomeView>)
    ensures
        member(audit_group_document(group, o), "group"@) == Some(text_value(group)),
        member(audit_group_document(group, o), "kind"@) == Some(text_value("audit-group"@)),
        member(audit_group_document(group, o), "groups"@) == Some(
            list(each(grouped(o), |g: HostGroupView| host_group_json(g))),
        ),
{
    reveal_strlit("group");
    reveal_strlit("kind");
    reveal_strlit("groups");
    assert("group"@.len() == 5 && "kind"@.len() == 4 && "groups"@.len() == 6);
    let fields = field("group"@, text_value(group))
        + field("kind"@, text_value("audit-group"@))
        + field("groups"@, list(each(grouped(o), |g: HostGroupView| host_group_json(g))));
    lemma_member(fields, 0);
    lemma_member(fields, 1);
    lemma_member(fields, 2);
}

/// The document of a history names the host and its kind, and holds and counts the snapshots.
pub proof fn law_history_document(alias: Seq<char>, snaps: Seq<SnapshotView>)
    ensures
        member(history_json(alias, snaps), "target"@) == Some(text_value(alias)),
        member(history_json(alias, snaps), "kind"@) == Some(text_value("health-history"@)),
        member(history_json(alias, snaps), "count"@) == Some(whole_value(snaps.len() as int)),
        member(history_json(alias, snaps), "snapshots"@) == Some(
            list(each(snaps, |s: SnapshotView| snapshot_json(s))),
        ),
{
    reveal_strlit("target");
    reveal_strlit("kind");
    reveal_strlit("count");
    reveal_strlit("snapshots");
    assert("target"@.len() == 6 && "kind"@.len() == 4 && "count"@.len() == 5
        && "snapshots"@.len() == 9);
    let fields = field("target"@, text_value(alias))
        + field("kind"@, text_value("health-history"@))
        + field("count"@, whole_value(snaps.len() as int))
        + field("snapshots"@, list(each(snaps, |s: SnapshotView| snapshot_json(s))));
    lemma_member(fields, 0);
    lemma_member(fields, 1);
    lemma_member(fields, 2);
    lemma_member(fields, 3);
}

/// An exchange document names its schema and its version, and holds the runs.
pub proof fn law_log_document(runs: Seq<JsonView>)
    ensures
        member(log_json(runs), "$schema"@) == Some(
            text_value("https://json.schemastore.org/sarif-2.1.0.json"@),
        ),
        member(log_json(runs), "version"@) == Some(text_value("2.1.0"@)),
        member(log_json(runs), "runs"@) == Some(list(runs)),
{
    reveal_strlit("$schema");
    reveal_strlit("version");
    reveal_strlit("runs");
    assert("$schema"@.len() == 7 && "version"@.len() == 7 && "runs"@.len() == 4);
    assert("$schema"@[0] == '$' && "version"@[0] == 'v');
    let fields = field("$schema"@, text_value("https://json.schemastore.org/sarif-2.1.0.json"@))
        + field("version"@, text_value("2.1.0"@))
        + field("runs"@, list(runs));
    lemma_member(fields, 0);
    lemma_member(fields, 1);
    lemma_member(fields, 2);
}

/// The document of a host of a group holds its status and its report, or why there is none.
pub proof fn law_host_document(alias: Seq<char>, r: HealthReportView, e: Seq<char>)
    ensures
        member(health_host_json(
            (HealthOutcomeView { alias, result: Ok(r) }),
        ), "alias"@) == Some(text_value(alias)),
        member(health_host_json(
            (HealthOutcomeView { alias, result: Ok(r) }),
        ), "status"@) == Some(text_value(status_name(r.overall))),
        member(health_host_json(
            (HealthOutcomeView { alias, result: Ok(r) }),
        ), "report"@) == Some(report_json(r)),
        member(health_host_json(
            (HealthOutcomeView { alias, result: Err(e) }),
        ), "alias"@) == Some(text_value(alias)),
        member(health_host_json(
            (HealthOutcomeView { alias, result: Err(e) }),
        ), "error"@) == Some(text_value(e)),
{
    reveal_strlit("alias");
    reveal_strlit("status");
    reveal_strlit("report");
    reveal_strlit("error");
    assert("alias"@.len() == 5 && "status"@.len() == 6 && "report"@.len() == 6
        && "error"@.len() == 5);
    assert("alias"@[0] == 'a' && "error"@[0] == 'e' && "report"@[0] == 'r' && "status"@[0] == 's');
    let a = field("alias"@, text_value(alias))
        + field("status"@, text_value(status_name(r.overall)))
        + field("report"@, report_json(r));
    lemma_member(a, 0);
    lemma_member(a, 1);
    lemma_member(a, 2);
    let b = field("alias"@, text_value(alias)) + field("error"@, text_value(e));
    lemma_member(b, 0);
    lemma_member(b, 1);
}

/// The document of hosts that have their result in common holds their names and that result.
pub proof fn law_host_group_document(
    aliases: Seq<Seq<char>>,
    alias: Seq<char>,
    score: ScoreView,
    f: Seq<FindingView>,
    e: Seq<char>,
)
    ensures
        member(host_group_json(
            (HostGroupView {
                aliases,
                repr: (AuditOutcomeView { alias, result: Ok((score, f)) }),
            }),
        ), "aliases"@) == Some(text_list_value(aliases)),
        member(host_group_json(
            (HostGroupView {
                aliases,
                repr: (AuditOutcomeView { alias, result: Ok((score, f)) }),
            }),
        ), "score"@) == Some(score_json(score)),
        member(host_group_json(
            (HostGroupView {
                aliases,
                repr: (AuditOutcomeView { alias, result: Ok((score, f)) }),
            }),
        ), "findings"@) == Some(findings_json(f)),
        member(host_group_json(
            (HostGroupView {
                aliases,
                repr: (AuditOutcomeView { alias, result: Err(e) }),
            }),
        ), "aliases"@) == Some(text_list_value(aliases)),
        member(host_group_json(
            (HostGroupView {
                aliases,
                repr: (AuditOutcomeView { alias, result: Err(e) }),
            }),
        ), "error"@) == Some(text_value(e)),
{
    reveal_strlit("aliases");
    reveal_strlit("score");
    reveal_strlit("findings");
    reveal_strlit("error");
    assert("aliases"@.len() == 7 && "score"@.len() == 5 && "findings"@.len() == 8
        && "error"@.len() == 5);
    assert("error"@[0] == 'e' && "score"@[0] == 's');
    let a = field("aliases"@, text_list_value(aliases))
        + field("score"@, score_json(score))
        + field("findings"@, findings_json(f));
    lemma_member(a, 0);
    lemma_member(a, 1);
    lemma_member(a, 2);
    let b = field("aliases"@, text_list_value(aliases)) + field("error"@, text_value(e));
    lemma_member(b, 0);
    lemma_member(b, 1);
}

} // verus!
