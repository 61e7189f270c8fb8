//! What reports say of findings, scores and the times they are about, and how the figures in them
//! are written.

use crate::calendar::{day_number, leap, month_days, valid_date};
use crate::checks::{Domain, FindingView, Severity, Status};
use crate::health::metrics::human_size;
use crate::json::{field, merged, object, text_value, whole_value, FieldsView, JsonView};
use crate::report::{
    audit_text, domain_json, domain_name, finding_json, finding_text, headline, profile_name,
    score_json, severity_name, status_name, with_status,
};
use crate::report_sarif::{
    level_name, location_json, message, result_json, results_json, rule_json, rules_json, run_json,
    runs_of, security_score,
};
use crate::run::AuditOutcomeView;
use crate::scoring::{DomainScore, Profile, ScoreView};
use crate::text::compose::left_aligned;
use crate::text::number::{digits, fixed, pow10, rounded, zero_padded};
use crate::text::path::expanded;
use crate::text::search::mentions;
use crate::textmap::{lemma_lookup_put, lookup};
use vstd::prelude::*;

verus! {

/// The findings with a status.
pub open spec fn ending(f: Seq<FindingView>, s: Status) -> Seq<FindingView> {
    f.filter(|x: FindingView| x.status == s)
}

proof fn lemma_ending(f: Seq<FindingView>, s: Status)
    ensures
        with_status(f, s) == ending(f, s).len(),
    decreases f.len(),
{
    reveal(Seq::filter);
    if f.len() > 0 {
        lemma_ending(f.drop_last(), s);
    }
}

/// The headline of an audit names the host, the profile and the score, and counts the findings by
/// how they ended; skipped ones are named only if there are any.
pub proof fn law_headline_counts(target: Seq<char>, score: ScoreView, f: Seq<FindingView>)
    ensures
        headline(target, score, f) == "Audit of '"@ + target + "' ["@ + (match score.profile {
            Profile::Baseline => "baseline"@,
            Profile::Hardened => "hardened"@,
        }) + "]: score "@ + digits(score.total as int) + "/100 ("@ + digits(
            ending(f, Status::Pass).len() as int,
        ) + " passed, "@ + digits(ending(f, Status::Fail).len() as int) + " failed, "@ + digits(
            ending(f, Status::Error).len() as int,
        ) + " errored"@ + (if ending(f, Status::Skipped).len() > 0 {
            ", "@ + digits(ending(f, Status::Skipped).len() as int) + " skipped"@
        } else {
            ""@
        }) + ")\n"@,
{
    lemma_ending(f, Status::Pass);
    lemma_ending(f, Status::Fail);
    lemma_ending(f, Status::Error);
    lemma_ending(f, Status::Skipped);
}

/// The mark of a finding tells how it ended, and only a failure is followed by what to do.
pub proof fn law_finding_is_told(f: FindingView, line: Seq<char>)
    requires
        line == "  ["@ + (match f.status {
            Status::Pass => "PASS"@,
            Status::Fail => "FAIL"@,
            Status::Error => "ERR "@,
            Status::Skipped => "SKIP"@,
        }) + "] "@ + left_aligned(
            match f.severity {
                Severity::Info => "info"@,
                Severity::Low => "low"@,
                Severity::Medium => "medium"@,
                Severity::High => "high"@,
                Severity::Critical => "critical"@,
            },
            8,
        ) + " "@ + f.id + " — "@ + f.detail + "\n"@,
    ensures
        f.status == Status::Fail ==> finding_text(f) == line + ("           ↳ "@ + f.recommendation
            + "\n"@),
        f.status != Status::Fail ==> finding_text(f) == line,
{
    reveal_strlit("");
    assert(line + ""@ =~= line);
}

/// What the names in documents stand for.
pub proof fn law_names_in_documents()
    ensures
        severity_name(Severity::Info) == "info"@,
        severity_name(Severity::Low) == "low"@,
        severity_name(Severity::Medium) == "medium"@,
        severity_name(Severity::High) == "high"@,
        severity_name(Severity::Critical) == "critical"@,
        status_name(Status::Pass) == "pass"@,
        status_name(Status::Fail) == "fail"@,
        status_name(Status::Error) == "error"@,
        status_name(Status::Skipped) == "skipped"@,
        domain_name(Domain::Ssh) == "ssh"@,
        domain_name(Domain::Accounts) == "accounts"@,
        domain_name(Domain::Kernel) == "kernel"@,
        domain_name(Domain::Firewall) == "firewall"@,
        domain_name(Domain::Updates) == "updates"@,
        domain_name(Domain::Services) == "services"@,
        domain_name(Domain::Logging) == "logging"@,
        profile_name(Profile::Baseline) == "baseline"@,
        profile_name(Profile::Hardened) == "hardened"@,
{
}

/// The level and the number that a severity has in an exchange document.
pub proof fn law_severity_in_exchange(s: Severity)
    ensures
        level_name(s) == "error"@ <==> s == Severity::High || s == Severity::Critical,
        level_name(s) == "warning"@ <==> s == Severity::Medium,
        level_name(s) == "note"@ <==> s == Severity::Low || s == Severity::Info,
        security_score(s) == (if s == Severity::Critical {
            "9.0"@
        } else if s == Severity::High {
            "7.0"@
        } else if s == Severity::Medium {
            "5.0"@
        } else if s == Severity::Low {
            "3.0"@
        } else {
            "1.0"@
        }),
{
    reveal_strlit("error");
    reveal_strlit("warning");
    reveal_strlit("note");
    assert("error"@.len() == 5 && "warning"@.len() == 7 && "note"@.len() == 4);
}

/// The value that a document has under a name.
pub open spec fn member(doc: JsonView, key: Seq<char>) -> Option<JsonView> {
    match doc {
        JsonView::Object(fields) => lookup(fields, key),
        _ => None,
    }
}

/// No later field has the name of field `i`.
pub open spec fn not_replaced(fields: FieldsView, i: int) -> bool {
    &&& 0 <= i < fields.len()
    &&& forall|j: int| i < j < fields.len() ==> (#[trigger] fields[j]).0 != fields[i].0
}

pub proof fn lemma_member(fields: FieldsView, i: int)
    requires
        not_replaced(fields, i),
    ensures
        member(object(fields), fields[i].0) == Some(fields[i].1),
{
    lemma_merged(fields, i);
}

proof fn lemma_merged(fields: FieldsView, i: int)
    requires
        not_replaced(fields, i),
    ensures
        lookup(merged(Seq::empty(), fields), fields[i].0) == Some(fields[i].1),
    decreases fields.len(),
{
    let front = fields.drop_last();
    let n = fields.len() - 1;
    lemma_lookup_put(
        merged(Seq::empty(), front),
        fields.last().0,
        fields.last().1,
        fields[i].0,
    );
    if i < n {
        assert(fields[n].0 != fields[i].0);
        assert(front[i] == fields[i]);
        assert forall|j: int| i < j < front.len() implies (#[trigger] front[j]).0 != front[i].0 by {
            assert(front[j] == fields[j]);
        }
        lemma_merged(front, i);
    }
}

/// The document of a finding holds it whole, each part under its name.
pub proof fn law_finding_document(f: FindingView)
    ensures
        member(finding_json(f), "id"@) == Some(JsonView::Text(f.id)),
        member(finding_json(f), "domain"@) == Some(JsonView::Text(domain_name(f.domain))),
        member(finding_json(f), "title"@) == Some(JsonView::Text(f.title)),
        member(finding_json(f), "severity"@) == Some(JsonView::Text(severity_name(f.severity))),
        member(finding_json(f), "status"@) == Some(JsonView::Text(status_name(f.status))),
        member(finding_json(f), "detail"@) == Some(JsonView::Text(f.detail)),
        member(finding_json(f), "recommendation"@) == Some(JsonView::Text(f.recommendation)),
{
    reveal_strlit("id");
    reveal_strlit("domain");
    reveal_strlit("title");
    reveal_strlit("severity");
    reveal_strlit("status");
    reveal_strlit("detail");
    reveal_strlit("recommendation");
    assert("id"@.len() == 2 && "domain"@.len() == 6 && "title"@.len() == 5 && "severity"@.len() == 8
        && "status"@.len() == 6 && "detail"@.len() == 6 && "recommendation"@.len() == 14);
    assert("domain"@[1] == 'o' && "detail"@[1] == 'e' && "status"@[1] == 't');
    let fields = field("id"@, text_value(f.id)) + field("domain"@, text_value(domain_name(f.domain)))
        + field("title"@, text_value(f.title)) + field(
        "severity"@,
        text_value(severity_name(f.severity)),
    ) + field("status"@, text_value(status_name(f.status))) + field("detail"@, text_value(f.detail))
        + field("recommendation"@, text_value(f.recommendation));
    lemma_member(fields, 0);
    lemma_member(fields, 1);
    lemma_member(fields, 2);
    lemma_member(fields, 3);
    lemma_member(fields, 4);
    lemma_member(fields, 5);
    lemma_member(fields, 6);
}

/// The document of a score holds its total, its profile and what was taken off, and that of a
/// domain its score and its counts.
pub proof fn law_score_document(s: ScoreView, d: DomainScore)
    ensures
        member(score_json(s), "total"@) == Some(JsonView::Number(digits(s.total as int))),
        member(score_json(s), "profile"@) == Some(JsonView::Text(profile_name(s.profile))),
        member(score_json(s), "base"@) == Some(
            crate::json::decimal_value((s.base * 10_000) as i64),
        ),
        member(score_json(s), "domains"@) == Some(
            crate::json::list(crate::json::each(s.domains, |x: DomainScore| domain_json(x))),
        ),
        member(domain_json(d), "weight"@) == Some(
            crate::json::decimal_value((d.weight * 10_000) as i64),
        ),
        member(score_json(s), "penalties"@) == Some(JsonView::Number(digits(s.penalties as int))),
        member(domain_json(d), "domain"@) == Some(JsonView::Text(domain_name(d.domain))),
        member(domain_json(d), "score"@) == Some(JsonView::Number(digits(d.score as int))),
        member(domain_json(d), "checks"@) == Some(JsonView::Number(digits(d.checks as int))),
        member(domain_json(d), "failed"@) == Some(JsonView::Number(digits(d.failed as int))),
        member(domain_json(d), "errored"@) == Some(JsonView::Number(digits(d.errored as int))),
{
    reveal_strlit("total");
    reveal_strlit("profile");
    reveal_strlit("base");
    reveal_strlit("penalties");
    reveal_strlit("domains");
    reveal_strlit("domain");
    reveal_strlit("weight");
    reveal_strlit("score");
    reveal_strlit("checks");
    reveal_strlit("failed");
    reveal_strlit("errored");
    assert("total"@.len() == 5 && "profile"@.len() == 7 && "base"@.len() == 4 && "penalties"@.len()
        == 9 && "domains"@.len() == 7 && "profile"@[0] == 'p' && "domains"@[0] == 'd');
    assert("domain"@.len() == 6 && "weight"@.len() == 6 && "score"@.len() == 5 && "checks"@.len()
        == 6 && "failed"@.len() == 6 && "errored"@.len() == 7);
    assert("domain"@[0] == 'd' && "weight"@[0] == 'w' && "checks"@[0] == 'c' && "failed"@[0]
        == 'f');
    let a = field("total"@, whole_value(s.total as int)) + field(
        "profile"@,
        text_value(profile_name(s.profile)),
    ) + field("base"@, crate::json::decimal_value((s.base * 10_000) as i64)) + field(
        "penalties"@,
        whole_value(s.penalties as int),
    ) + field(
        "domains"@,
        crate::json::list(crate::json::each(s.domains, |d: DomainScore| domain_json(d))),
    );
    lemma_member(a, 0);
    lemma_member(a, 1);
    lemma_member(a, 2);
    lemma_member(a, 3);
    lemma_member(a, 4);
    let b = field("domain"@, text_value(domain_name(d.domain))) + field(
        "weight"@,
        crate::json::decimal_value((d.weight * 10_000) as i64),
    ) + field("score"@, whole_value(d.score as int)) + field("checks"@, whole_value(d.checks as int))
        + field("failed"@, whole_value(d.failed as int)) + field(
        "errored"@,
        whole_value(d.errored as int),
    );
    lemma_member(b, 0);
    lemma_member(b, 1);
    lemma_member(b, 2);
    lemma_member(b, 3);
    lemma_member(b, 4);
    lemma_member(b, 5);
}

/// An exchange document names the rule of a result by the finding's id, and gives its level.
pub proof fn law_result_document(target: Seq<char>, f: FindingView)
    ensures
        member(result_json(target, f), "ruleId"@) == Some(JsonView::Text(f.id)),
        member(result_json(target, f), "level"@) == Some(JsonView::Text(level_name(f.severity))),
        member(rule_json(f), "id"@) == Some(JsonView::Text(f.id)),
        member(rule_json(f), "name"@) == Some(JsonView::Text(f.title)),
{
    reveal_strlit("ruleId");
    reveal_strlit("level");
    reveal_strlit("message");
    reveal_strlit("partialFingerprints");
    reveal_strlit("properties");
    reveal_strlit("locations");
    reveal_strlit("id");
    reveal_strlit("name");
    reveal_strlit("shortDescription");
    reveal_strlit("fullDescription");
    reveal_strlit("defaultConfiguration");
    assert("ruleId"@.len() == 6 && "level"@.len() == 5 && "message"@.len() == 7
        && "partialFingerprints"@.len() == 19 && "properties"@.len() == 10 && "locations"@.len()
        == 9);
    assert("id"@.len() == 2 && "name"@.len() == 4 && "shortDescription"@.len() == 16
        && "fullDescription"@.len() == 15 && "defaultConfiguration"@.len() == 20);
    let a = field("ruleId"@, text_value(f.id)) + field(
        "level"@,
        text_value(level_name(f.severity)),
    ) + field("message"@, crate::report_sarif::message(f.detail)) + field(
        "partialFingerprints"@,
        object(field("findingId"@, text_value(f.id))),
    ) + field(
        "properties"@,
        object(
            field("severity"@, text_value(severity_name(f.severity))) + field(
                "domain"@,
                text_value(domain_name(f.domain)),
            ),
        ),
    ) + field(
        "locations"@,
        crate::json::list(seq![crate::report_sarif::location_json(target)]),
    );
    lemma_member(a, 0);
    lemma_member(a, 1);
    let b = field("id"@, text_value(f.id)) + field("name"@, text_value(f.title)) + field(
        "shortDescription"@,
        crate::report_sarif::message(f.title),
    ) + field("fullDescription"@, crate::report_sarif::message(f.recommendation)) + field(
        "defaultConfiguration"@,
        object(field("level"@, text_value(level_name(f.severity)))),
    ) + field(
        "properties"@,
        object(
            field("security-severity"@, text_value(security_score(f.severity))) + field(
                "severity"@,
                text_value(severity_name(f.severity)),
            ) + field("domain"@, text_value(domain_name(f.domain))),
        ),
    );
    lemma_member(b, 0);
    lemma_member(b, 1);
}

/// An object with one field.
proof fn lemma_single(key: Seq<char>, value: JsonView)
    ensures
        member(object(field(key, value)), key) == Some(value),
{
    lemma_member(field(key, value), 0);
}

/// The place of a result is the host, and a result and its rule carry the severity, its number and
/// the domain; what the finding says is the message.
pub proof fn law_result_parts(target: Seq<char>, f: FindingView)
    ensures
        ({
            let place = member(location_json(target), "physicalLocation"@)->0;
            member(member(place, "artifactLocation"@)->0, "uri"@) == Some(JsonView::Text(target))
        }),
        member(message(f.detail), "text"@) == Some(JsonView::Text(f.detail)),
        member(member(rule_json(f), "properties"@)->0, "security-severity"@) == Some(
            JsonView::Text(security_score(f.severity)),
        ),
        member(member(rule_json(f), "properties"@)->0, "severity"@) == Some(
            JsonView::Text(severity_name(f.severity)),
        ),
        member(member(rule_json(f), "defaultConfiguration"@)->0, "level"@) == Some(
            JsonView::Text(level_name(f.severity)),
        ),
        member(rule_json(f), "fullDescription"@) == Some(message(f.recommendation)),
        member(rule_json(f), "shortDescription"@) == Some(message(f.title)),
{
    reveal_strlit("id");
    reveal_strlit("name");
    reveal_strlit("shortDescription");
    reveal_strlit("fullDescription");
    reveal_strlit("defaultConfiguration");
    reveal_strlit("properties");
    reveal_strlit("security-severity");
    reveal_strlit("severity");
    reveal_strlit("domain");
    assert("id"@.len() == 2 && "name"@.len() == 4 && "shortDescription"@.len() == 16
        && "fullDescription"@.len() == 15 && "defaultConfiguration"@.len() == 20
        && "properties"@.len() == 10);
    assert("security-severity"@.len() == 17 && "severity"@.len() == 8 && "domain"@.len() == 6);
    let uri = object(field("uri"@, text_value(target)));
    lemma_single("uri"@, text_value(target));
    lemma_single("artifactLocation"@, uri);
    lemma_single("physicalLocation"@, object(field("artifactLocation"@, uri)));
    lemma_single("text"@, text_value(f.detail));
    lemma_single("level"@, text_value(level_name(f.severity)));
    let props = field("security-severity"@, text_value(security_score(f.severity))) + field(
        "severity"@,
        text_value(severity_name(f.severity)),
    ) + field("domain"@, text_value(domain_name(f.domain)));
    lemma_member(props, 0);
    lemma_member(props, 1);
    let rule = field("id"@, text_value(f.id)) + field("name"@, text_value(f.title)) + field(
        "shortDescription"@,
        message(f.title),
    ) + field("fullDescription"@, message(f.recommendation)) + field(
        "defaultConfiguration"@,
        object(field("level"@, text_value(level_name(f.severity)))),
    ) + field("properties"@, object(props));
    lemma_member(rule, 2);
    lemma_member(rule, 3);
    lemma_member(rule, 4);
    lemma_member(rule, 5);
}

/// A run holds a result for each failure, and names the host, its score and its profile; the tool
/// is named with its version, and has a rule for each check.
pub proof fn law_run_parts(
    target: Seq<char>,
    score: ScoreView,
    f: Seq<FindingView>,
    version: Seq<char>,
)
    ensures
        ({
            let run = run_json(target, score, f, version);
            let driver = member(member(run, "tool"@)->0, "driver"@)->0;
            let props = member(run, "properties"@)->0;
            &&& member(run, "results"@) == Some(
                crate::json::list(
                    crate::json::each(
                        ending(f, Status::Fail),
                        |x: FindingView| result_json(target, x),
                    ),
                ),
            )
            &&& member(driver, "name"@) == Some(JsonView::Text("linux-audit-mcp"@))
            &&& member(driver, "version"@) == Some(JsonView::Text(version))
            &&& member(driver, "rules"@) == Some(
                crate::json::list(crate::json::each(f, |x: FindingView| rule_json(x))),
            )
            &&& member(props, "target"@) == Some(JsonView::Text(target))
            &&& member(props, "score"@) == Some(JsonView::Number(digits(score.total as int)))
            &&& member(props, "profile"@) == Some(JsonView::Text(profile_name(score.profile)))
        }),
{
    reveal_strlit("tool");
    reveal_strlit("results");
    reveal_strlit("properties");
    reveal_strlit("name");
    reveal_strlit("informationUri");
    reveal_strlit("version");
    reveal_strlit("rules");
    reveal_strlit("target");
    reveal_strlit("score");
    reveal_strlit("profile");
    assert("tool"@.len() == 4 && "results"@.len() == 7 && "properties"@.len() == 10);
    assert("name"@.len() == 4 && "informationUri"@.len() == 14 && "version"@.len() == 7
        && "rules"@.len() == 5);
    assert("target"@.len() == 6 && "score"@.len() == 5 && "profile"@.len() == 7);
    let driver = field("name"@, text_value("linux-audit-mcp"@)) + field(
        "informationUri"@,
        text_value("https://github.com/idesyatov/linux-audit-mcp"@),
    ) + field("version"@, text_value(version)) + field("rules"@, rules_json(f));
    lemma_member(driver, 0);
    lemma_member(driver, 2);
    lemma_member(driver, 3);
    lemma_single("driver"@, object(driver));
    let props = field("target"@, text_value(target)) + field(
        "score"@,
        whole_value(score.total as int),
    ) + field("profile"@, text_value(profile_name(score.profile)));
    lemma_member(props, 0);
    lemma_member(props, 1);
    lemma_member(props, 2);
    let run = field("tool"@, object(field("driver"@, object(driver)))) + field(
        "results"@,
        results_json(target, f),
    ) + field("properties"@, object(props));
    lemma_member(run, 0);
    lemma_member(run, 1);
    lemma_member(run, 2);
}

/// The domains are told by their names and scores.
pub proof fn law_domains_are_told(target: Seq<char>, score: ScoreView, f: Seq<FindingView>, i: int)
    requires
        0 <= i < score.domains.len(),
    ensures
        mentions(
            audit_text(target, score, f),
            domain_name(score.domains[i].domain) + " "@ + digits(score.domains[i].score as int),
        ),
{
    let labels = score.domains.map_values(|d: DomainScore| crate::report::domain_label(d));
    crate::health::wording_laws::lemma_joined_mentions(labels, ", "@, i);
    let head = headline(target, score, f) + "  domains: "@;
    let tail = "\n"@ + crate::text::compose::written(
        f,
        |x: FindingView| finding_text(x),
    );
    crate::health::wording_laws::lemma_mentions_within(
        head,
        crate::text::compose::joined(labels, ", "@),
        tail,
        labels[i],
    );
    assert(head + crate::text::compose::joined(labels, ", "@) + tail =~= audit_text(
        target,
        score,
        f,
    ));
}

/// A size is written in the greatest unit that fits in, from bytes by steps of 1024, with one
/// place after the point, rounded to the nearest.
pub proof fn law_sizes_are_written(n: int, unit: int, tenths: int)
    requires
        n >= 0,
        unit > 0,
        -unit < 2 * (tenths * unit - 10 * n) < unit,
    ensures
        n < 1024 ==> human_size(n) == digits(n) + " B"@,
        unit == 1024 && 1024 <= n < 1024 * 1024 ==> human_size(n) == digits(tenths / 10) + "."@
            + digits(tenths % 10) + " KiB"@,
        unit == 1024 * 1024 && unit <= n < 1024 * unit ==> human_size(n) == digits(tenths / 10)
            + "."@ + digits(tenths % 10) + " MiB"@,
        unit == 1024 * 1024 * 1024 && unit <= n < 1024 * unit ==> human_size(n) == digits(
            tenths / 10,
        ) + "."@ + digits(tenths % 10) + " GiB"@,
        unit == 1024 * 1024 * 1024 * 1024 && unit <= n ==> human_size(n) == digits(tenths / 10)
            + "."@ + digits(tenths % 10) + " TiB"@,
{
    lemma_one_place(n, unit, tenths);
}

proof fn lemma_one_place(n: int, unit: int, tenths: int)
    requires
        n >= 0,
        unit > 0,
        -unit < 2 * (tenths * unit - 10 * n) < unit,
    ensures
        fixed(n, unit, 1) == digits(tenths / 10) + "."@ + digits(tenths % 10),
{
    assert(pow10(1) == 10) by {
        assert(pow10(0) == 1);
    }
    let a = n * pow10(1);
    assert(a == 10 * n);
    let q = a / unit;
    let r = a % unit;
    assert(a == unit * q + r && 0 <= r < unit) by (nonlinear_arith)
        requires
            unit > 0,
            q == a / unit,
            r == a % unit,
    ;
    let t = rounded(a, unit);
    assert(unit * (q + 1) == unit * q + unit) by (nonlinear_arith);
    assert(-unit <= 2 * (unit * t - a) <= unit);
    assert(tenths * unit == unit * tenths) by (nonlinear_arith);
    assert(t == tenths) by (nonlinear_arith)
        requires
            unit > 0,
            -unit <= 2 * (unit * t - a) <= unit,
            -unit < 2 * (unit * tenths - a) < unit,
    ;
    let d = tenths % 10;
    assert(zero_padded(d / 10, 0) =~= Seq::<char>::empty());
    assert(zero_padded(d, 1) =~= seq![crate::text::number::digit_char(d % 10)]);
    assert(digits(d) == seq![crate::text::number::digit_char(d)]);
}

/// A quotient that lies between two whole numbers is rounded to the nearer one, and to the even one
/// where both are as near.
pub proof fn law_rounding(n: int, r: int, d: int)
    requires
        d > 0,
        0 <= r < d,
    ensures
        2 * r < d ==> rounded(n * d + r, d) == n,
        2 * r > d ==> rounded(n * d + r, d) == n + 1,
        2 * r == d ==> rounded(n * d + r, d) % 2 == 0,
        n <= rounded(n * d + r, d) <= n + 1,
{
    let a = n * d + r;
    assert(a / d == n && a % d == r) by {
        vstd::arithmetic::div_mod::lemma_fundamental_div_mod_converse(a, d, n, r);
    }
}

/// A date is followed by the next one in a day: the next of the month, else the first of the next
/// month, else of the next year. The fourth, sixth, ninth and eleventh month have thirty days,
/// the second twenty-eight, or twenty-nine in every fourth year but three of four centuries.
pub proof fn law_days_follow_each_other(y: int, m: int)
    requires
        y >= 1,
        1 <= m <= 12,
    ensures
        month_days(y, m) == if m == 4 || m == 6 || m == 9 || m == 11 {
            30int
        } else if m != 2 {
            31
        } else if y % 400 == 0 || (y % 4 == 0 && y % 100 != 0) {
            29
        } else {
            28
        },
        forall|d: int| #[trigger]
            valid_date(y, m, d) && valid_date(y, m, d + 1) ==> day_number(y, m, d + 1) == day_number(
                y,
                m,
                d,
            ) + 1,
        m < 12 ==> day_number(y, m + 1, 1) == day_number(y, m, month_days(y, m)) + 1,
        day_number(y + 1, 1, 1) == day_number(y, 12, 31) + 1,
        day_number(1970, 1, 1) == 0,
{
    reveal_with_fuel(crate::calendar::before_month, 13);
    assert(leap(y) <==> y % 400 == 0 || (y % 4 == 0 && y % 100 != 0));
}

/// A path in the home directory is taken below it, and any other stays as it is.
pub proof fn law_home_is_expanded(rest: Seq<char>, home: Seq<char>, path: Seq<char>)
    requires
        rest.len() > 0,
        rest[0] != '/' && rest[0] != '.',
        rest.last() != '/' && rest.last() != '.',
        home.len() > 0,
        home.last() != '/',
    ensures
        expanded("~/"@ + rest, Some(home)) == home + "/"@ + rest,
        expanded("~/"@ + rest, None) == "~/"@ + rest,
        path.len() > 0 && path[0] != '~' ==> expanded(path, Some(home)) == path,
        path.len() > 1 && path[1] != '/' ==> expanded(path, Some(home)) == path,
{
    reveal_strlit("~/");
    reveal_strlit("/");
    let p = "~/"@ + rest;
    assert(p[0] == '~' && p[1] == '/');
    let s = p.skip(1);
    assert(s[0] == '/');
    assert(s.skip(1) =~= rest);
    reveal_with_fuel(crate::text::path::trim_left, 3);
    assert(crate::text::path::trim_left(s) == rest);
    assert(crate::text::path::trim_right(rest) == rest);
}

/// Every audited host has a run of its own in an exchange document, and no other has.
pub proof fn law_runs_are_of_audited_hosts(o: Seq<AuditOutcomeView>, version: Seq<char>)
    ensures
        runs_of(o, version).len() == o.filter(|x: AuditOutcomeView| x.result is Ok).len(),
    decreases o.len(),
{
    reveal(Seq::filter);
    let f = |x: AuditOutcomeView| crate::report_sarif::run_if_audited(x, version);
    if o.len() > 0 {
        let n = o.len() - 1;
        law_runs_are_of_audited_hosts(o.drop_last(), version);
        crate::text::split::lemma_filter_map_step(o, f, n);
        crate::text::split::lemma_take_all(o);
        assert(o.take(n) =~= o.drop_last());
    }
}

} // verus!
