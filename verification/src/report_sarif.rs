//! SARIF 2.1.0 rendering of audit results, for GitHub code scanning and other
//! dashboards that ingest the Static Analysis Results Interchange Format.
//!
//! One audited host is one SARIF `run`; a group is one `sarifLog` with several
//! `runs`. Every check becomes a `rule` in the tool driver; only failing checks
//! become `results` (SARIF is a findings format: passes/skips/errors are not
//! defects). The security [`Score`] rides in each run's `properties`.

use crate::checks::{Finding, FindingView, Severity, Status};
use crate::json::{
    each, field, group_merged, held, list, list_each, list_of, list_view, object, text_value,
    whole_value, Fields, JsonView,
};
use crate::json_text::{keys_sorted, laid_out, pretty_ordered, JsonError};
use crate::report::{
    domain_name, domain_tag, profile_name, profile_tag, severity_name, severity_tag,
};
use crate::run::{AuditOutcome, AuditOutcomeView};
use crate::scoring::{Score, ScoreView};
use crate::text::chars::deep;
use crate::text::split::{lemma_filter_map_step, lemma_take_all};
use vstd::prelude::*;

verus! {

pub const TOOL_NAME: &'static str = "linux-audit-mcp";

pub const TOOL_URI: &'static str = "https://github.com/idesyatov/linux-audit-mcp";

pub const SARIF_SCHEMA: &'static str = "https://json.schemastore.org/sarif-2.1.0.json";

pub open spec fn level_name(severity: Severity) -> Seq<char> {
    match severity {
        Severity::Critical | Severity::High => "error"@,
        Severity::Medium => "warning"@,
        Severity::Low | Severity::Info => "note"@,
    }
}

/// SARIF result level for a severity: Critical/High are errors, Medium a warning,
/// the rest notes.
pub fn level(severity: Severity) -> (r: &'static str)
    ensures
        r@ == level_name(severity),
{
    match severity {
        Severity::Critical | Severity::High => "error",
        Severity::Medium => "warning",
        Severity::Low | Severity::Info => "note",
    }
}

pub open spec fn security_score(severity: Severity) -> Seq<char> {
    match severity {
        Severity::Critical => "9.0"@,
        Severity::High => "7.0"@,
        Severity::Medium => "5.0"@,
        Severity::Low => "3.0"@,
        Severity::Info => "1.0"@,
    }
}

/// GitHub's `security-severity` score (0.0-10.0) for a severity, as a string:
/// what code scanning uses to bucket alerts.
pub fn security_severity(severity: Severity) -> (r: &'static str)
    ensures
        r@ == security_score(severity),
{
    match severity {
        Severity::Critical => "9.0",
        Severity::High => "7.0",
        Severity::Medium => "5.0",
        Severity::Low => "3.0",
        Severity::Info => "1.0",
    }
}

/// `{ "text": s }`.
pub open spec fn message(s: Seq<char>) -> JsonView {
    object(field("text"@, text_value(s)))
}

/// The rule that a check is.
pub open spec fn rule_json(f: FindingView) -> JsonView {
    object(
        field("id"@, text_value(f.id)) + field("name"@, text_value(f.title)) + field(
            "shortDescription"@,
            message(f.title),
        ) + field("fullDescription"@, message(f.recommendation)) + field(
            "defaultConfiguration"@,
            object(field("level"@, text_value(level_name(f.severity)))),
        ) + field(
            "properties"@,
            object(
                field("security-severity"@, text_value(security_score(f.severity))) + field(
                    "severity"@,
                    text_value(severity_name(f.severity)),
                ) + field("domain"@, text_value(domain_name(f.domain))),
            ),
        ),
    )
}

/// Where a result was found: the host stands for the artifact.
pub open spec fn location_json(target: Seq<char>) -> JsonView {
    object(
        field(
            "physicalLocation"@,
            object(field("artifactLocation"@, object(field("uri"@, text_value(target))))),
        ),
    )
}

/// The result that a failed check is.
pub open spec fn result_json(target: Seq<char>, f: FindingView) -> JsonView {
    object(
        field("ruleId"@, text_value(f.id)) + field("level"@, text_value(level_name(f.severity)))
            + field("message"@, message(f.detail)) + field(
            "partialFingerprints"@,
            object(field("findingId"@, text_value(f.id))),
        ) + field(
            "properties"@,
            object(
                field("severity"@, text_value(severity_name(f.severity))) + field(
                    "domain"@,
                    text_value(domain_name(f.domain)),
                ),
            ),
        ) + field("locations"@, list(seq![location_json(target)])),
    )
}

pub open spec fn rules_json(f: Seq<FindingView>) -> JsonView {
    list(each(f, |x: FindingView| rule_json(x)))
}

/// The findings of the checks that failed.
pub open spec fn failures(f: Seq<FindingView>) -> Seq<FindingView> {
    f.filter(|x: FindingView| x.status == Status::Fail)
}

/// The results: one for each check that failed.
pub open spec fn results_json(target: Seq<char>, f: Seq<FindingView>) -> JsonView {
    list(each(failures(f), |x: FindingView| result_json(target, x)))
}

/// One SARIF `run` for a single host.
pub open spec fn run_json(
    target: Seq<char>,
    score: ScoreView,
    f: Seq<FindingView>,
    version: Seq<char>,
) -> JsonView {
    object(
        field(
            "tool"@,
            object(
                field(
                    "driver"@,
                    object(
                        field("name"@, text_value(TOOL_NAME@)) + field(
                            "informationUri"@,
                            text_value(TOOL_URI@),
                        ) + field("version"@, text_value(version)) + field(
                            "rules"@,
                            rules_json(f),
                        ),
                    ),
                ),
            ),
        ) + field("results"@, results_json(target, f)) + field(
            "properties"@,
            object(
                field("target"@, text_value(target)) + field(
                    "score"@,
                    whole_value(score.total as int),
                ) + field("profile"@, text_value(profile_name(score.profile))),
            ),
        ),
    )
}

/// A SARIF log with the given runs.
pub open spec fn log_json(runs: Seq<JsonView>) -> JsonView {
    object(
        field("$schema"@, text_value(SARIF_SCHEMA@)) + field("version"@, text_value("2.1.0"@))
            + field("runs"@, list(runs)),
    )
}

/// The run of an outcome; none for a host that errored.
pub open spec fn run_if_audited(o: AuditOutcomeView, version: Seq<char>) -> Option<JsonView> {
    match o.result {
        Ok((score, f)) => Some(run_json(o.alias, score, f, version)),
        Err(_) => None,
    }
}

/// The runs of a group's hosts, without those that errored.
pub open spec fn runs_of(o: Seq<AuditOutcomeView>, version: Seq<char>) -> Seq<JsonView> {
    o.filter_map(|x: AuditOutcomeView| run_if_audited(x, version))
}

fn message_value(s: &str) -> (r: serde_json::Value)
    ensures
        held(r) == message(s@),
{
    broadcast use group_merged;

    Fields::new().text("text", s).close()
}

fn rule_value(f: &Finding) -> (r: serde_json::Value)
    ensures
        held(r) == rule_json(f@),
{
    broadcast use group_merged;

    let config = Fields::new().text("level", level(f.severity)).close();
    let properties = Fields::new().text(
        "security-severity",
        security_severity(f.severity),
    ).text("severity", severity_tag(f.severity)).text("domain", domain_tag(f.domain)).close();
    let fields = Fields::new().text("id", f.id).text("name", f.title).put(
        "shortDescription",
        message_value(f.title),
    );
    fields.put("fullDescription", message_value(f.recommendation)).put(
        "defaultConfiguration",
        config,
    ).put("properties", properties).close()
}

fn location_value(target: &str) -> (r: serde_json::Value)
    ensures
        held(r) == location_json(target@),
{
    broadcast use group_merged;

    let artifact = Fields::new().text("uri", target).close();
    let place = Fields::new().put("artifactLocation", artifact).close();
    Fields::new().put("physicalLocation", place).close()
}

fn result_value(target: &str, f: &Finding) -> (r: serde_json::Value)
    ensures
        held(r) == result_json(target@, f@),
{
    broadcast use group_merged;

    let prints = Fields::new().text("findingId", f.id).close();
    let properties = Fields::new().text("severity", severity_tag(f.severity)).text(
        "domain",
        domain_tag(f.domain),
    ).close();
    let mut places: Vec<serde_json::Value> = Vec::new();
    places.push(location_value(target));
    let locations = list_of(places);
    proof {
        assert(list_view(places@) =~= seq![location_json(target@)]);
    }
    let fields = Fields::new().text("ruleId", f.id).text("level", level(f.severity)).put(
        "message",
        message_value(f.detail.as_str()),
    );
    fields.put("partialFingerprints", prints).put("properties", properties).put(
        "locations",
        locations,
    ).close()
}

fn results_value(target: &str, findings: &[Finding]) -> (r: serde_json::Value)
    ensures
        held(r) == results_json(target@, deep(findings@)),
{
    let ghost t = target@;
    let ghost all = deep(findings@);
    let ghost failed = |x: FindingView| x.status == Status::Fail;
    let ghost g = |x: FindingView| result_json(t, x);
    let mut out: Vec<serde_json::Value> = Vec::new();
    let mut i: usize = 0;
    proof {
        reveal(Seq::filter);
        assert(list_view(out@) =~= each(all.take(0).filter(failed), g));
    }
    while i < findings.len()
        invariant
            t == target@,
            all == deep(findings@),
            failed == |x: FindingView| x.status == Status::Fail,
            g == |x: FindingView| result_json(t, x),
            i <= findings@.len(),
            list_view(out@) == each(all.take(i as int).filter(failed), g),
        decreases findings@.len() - i,
    {
        let ghost before = out@;
        proof {
            reveal(Seq::filter);
            assert(all.take(i + 1).drop_last() =~= all.take(i as int));
            assert(all.take(i + 1).last() == findings@[i as int]@);
        }
        if findings[i].status == Status::Fail {
            out.push(result_value(target, &findings[i]));
            proof {
                assert(list_view(out@) =~= list_view(before).push(g(all[i as int])));
            }
        }
        proof {
            assert(list_view(out@) =~= each(all.take(i + 1).filter(failed), g));
        }
        i = i + 1;
    }
    proof {
        lemma_take_all(all);
    }
    list_of(out)
}

/// One SARIF `run` for a single host: every check is a rule, every failing check a result. The
/// score is attached as run properties.
fn run_value(target: &str, score: &Score, findings: &[Finding], version: &str) -> (r:
    serde_json::Value)
    ensures
        held(r) == run_json(target@, score@, deep(findings@), version@),
{
    broadcast use group_merged;

    let rules = list_each(findings, rule_value, Ghost(|x: FindingView| rule_json(x)));
    let driver = Fields::new().text("name", TOOL_NAME).text("informationUri", TOOL_URI).text(
        "version",
        version,
    ).put("rules", rules).close();
    let tool = Fields::new().put("driver", driver).close();
    let properties = Fields::new().text("target", target).whole("score", score.total as u64).text(
        "profile",
        profile_tag(score.profile),
    ).close();
    Fields::new().put("tool", tool).put("results", results_value(target, findings)).put(
        "properties",
        properties,
    ).close()
}

fn log_value(runs: Vec<serde_json::Value>) -> (r: serde_json::Value)
    ensures
        held(r) == log_json(list_view(runs@)),
{
    broadcast use group_merged;

    Fields::new().text("$schema", SARIF_SCHEMA).text("version", "2.1.0").put(
        "runs",
        list_of(runs),
    ).close()
}

/// A SARIF log for one host.
pub fn sarif_document(target: &str, score: &Score, findings: &[Finding], version: &str) -> (r:
    serde_json::Value)
    ensures
        held(r) == log_json(seq![run_json(target@, score@, deep(findings@), version@)]),
{
    let mut runs: Vec<serde_json::Value> = Vec::new();
    runs.push(run_value(target, score, findings, version));
    proof {
        assert(list_view(runs@) =~= seq![run_json(target@, score@, deep(findings@), version@)]);
    }
    log_value(runs)
}

/// SARIF log for one host. `version` is the version of the tool.
pub fn sarif(target: &str, score: &Score, findings: &[Finding], version: &str) -> (r: Result<
    String,
    JsonError,
>)
    ensures
        r is Ok,
        r->Ok_0@ == laid_out(
            keys_sorted(log_json(seq![run_json(target@, score@, deep(findings@), version@)])),
        ),
{
    pretty_ordered(sarif_document(target, score, findings, version))
}

/// A SARIF log for a group.
pub fn sarif_group_document(outcomes: &[AuditOutcome], version: &str) -> (r: serde_json::Value)
    ensures
        held(r) == log_json(runs_of(deep(outcomes@), version@)),
{
    let ghost all = deep(outcomes@);
    let ghost v = version@;
    let ghost f = |x: AuditOutcomeView| run_if_audited(x, v);
    let mut runs: Vec<serde_json::Value> = Vec::new();
    let mut i: usize = 0;
    proof {
        assert(list_view(runs@) =~= all.take(0).filter_map(f));
    }
    while i < outcomes.len()
        invariant
            all == deep(outcomes@),
            v == version@,
            i <= outcomes@.len(),
            f == |x: AuditOutcomeView| run_if_audited(x, v),
            list_view(runs@) == all.take(i as int).filter_map(f),
        decreases outcomes@.len() - i,
    {
        let ghost before = runs@;
        proof {
            lemma_filter_map_step(all, f, i as int);
        }
        match &outcomes[i].result {
            Ok((score, findings)) => {
                let run = run_value(
                    outcomes[i].alias.as_str(),
                    score,
                    findings.as_slice(),
                    version,
                );
                runs.push(run);
                proof {
                    assert(list_view(runs@) =~= list_view(before).push(held(run)));
                }
            },
            Err(_) => {},
        }
        i = i + 1;
    }
    proof {
        lemma_take_all(all);
    }
    log_value(runs)
}

/// SARIF log for a group: one `run` per successfully-audited host. Hosts that
/// errored are skipped (a connection failure is not a code-scanning finding); the
/// text/JSON renderers still surface them.
pub fn sarif_group(outcomes: &[AuditOutcome], version: &str) -> (r: Result<String, JsonError>)
    ensures
        r is Ok,
        r->Ok_0@ == laid_out(keys_sorted(log_json(runs_of(deep(outcomes@), version@)))),
{
    pretty_ordered(sarif_group_document(outcomes, version))
}

/// A check that did not fail adds no result, and a failed one adds its own.
pub proof fn law_only_failures_are_results(
    target: Seq<char>,
    f: Seq<FindingView>,
    x: FindingView,
)
    ensures
        results_json(target, f.push(x)) == if x.status == Status::Fail {
            list(
                each(failures(f), |y: FindingView| result_json(target, y)).push(
                    result_json(target, x),
                ),
            )
        } else {
            results_json(target, f)
        },
{
    reveal(Seq::filter);
    let g = |y: FindingView| result_json(target, y);
    assert(f.push(x).drop_last() =~= f);
    if x.status == Status::Fail {
        assert(failures(f.push(x)) == failures(f).push(x));
        assert(each(failures(f).push(x), g) =~= each(failures(f), g).push(g(x)));
    }
}

} // verus!
