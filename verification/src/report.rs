//! Rendering of audit results: a compact text summary and machine-readable
//! JSON, both including the security [`Score`].

use crate::checks::{Domain, Finding, FindingView, Severity, Status};
use crate::json::{
    decimal_value, each, field, group_merged, held, list, list_each, object, text_value,
    whole_value, Fields, JsonView,
};
use crate::json_text::{laid_out, pretty, JsonError};
use crate::scoring::{DomainScore, Profile, Score, ScoreView};
use crate::text::chars::deep;
use crate::text::compose::{
    align_left, append_all, join_texts, joined, left_aligned, map_texts, written,
};
use crate::text::number::{digits, format_u64, format_usize};
use crate::text::split::lemma_take_all;
use vstd::prelude::*;
use vstd::string::StringExecFns;

verus! {

pub open spec fn severity_name(severity: Severity) -> Seq<char> {
    match severity {
        Severity::Info => "info"@,
        Severity::Low => "low"@,
        Severity::Medium => "medium"@,
        Severity::High => "high"@,
        Severity::Critical => "critical"@,
    }
}

pub fn severity_tag(severity: Severity) -> (r: &'static str)
    ensures
        r@ == severity_name(severity),
{
    match severity {
        Severity::Info => "info",
        Severity::Low => "low",
        Severity::Medium => "medium",
        Severity::High => "high",
        Severity::Critical => "critical",
    }
}

pub open spec fn domain_name(domain: Domain) -> Seq<char> {
    match domain {
        Domain::Ssh => "ssh"@,
        Domain::Accounts => "accounts"@,
        Domain::Kernel => "kernel"@,
        Domain::Firewall => "firewall"@,
        Domain::Updates => "updates"@,
        Domain::Services => "services"@,
        Domain::Logging => "logging"@,
    }
}

pub fn domain_tag(domain: Domain) -> (r: &'static str)
    ensures
        r@ == domain_name(domain),
{
    match domain {
        Domain::Ssh => "ssh",
        Domain::Accounts => "accounts",
        Domain::Kernel => "kernel",
        Domain::Firewall => "firewall",
        Domain::Updates => "updates",
        Domain::Services => "services",
        Domain::Logging => "logging",
    }
}

pub open spec fn profile_name(profile: Profile) -> Seq<char> {
    match profile {
        Profile::Baseline => "baseline"@,
        Profile::Hardened => "hardened"@,
    }
}

pub fn profile_tag(profile: Profile) -> (r: &'static str)
    ensures
        r@ == profile_name(profile),
{
    match profile {
        Profile::Baseline => "baseline",
        Profile::Hardened => "hardened",
    }
}

pub open spec fn status_name(status: Status) -> Seq<char> {
    match status {
        Status::Pass => "pass"@,
        Status::Fail => "fail"@,
        Status::Error => "error"@,
        Status::Skipped => "skipped"@,
    }
}

fn status_tag(status: Status) -> (r: &'static str)
    ensures
        r@ == status_name(status),
{
    match status {
        Status::Pass => "pass",
        Status::Fail => "fail",
        Status::Error => "error",
        Status::Skipped => "skipped",
    }
}

/// The mark of a status in the text report.
pub open spec fn status_mark(status: Status) -> Seq<char> {
    match status {
        Status::Pass => "PASS"@,
        Status::Fail => "FAIL"@,
        Status::Error => "ERR "@,
        Status::Skipped => "SKIP"@,
    }
}

fn mark_of(status: Status) -> (r: &'static str)
    ensures
        r@ == status_mark(status),
{
    match status {
        Status::Pass => "PASS",
        Status::Fail => "FAIL",
        Status::Error => "ERR ",
        Status::Skipped => "SKIP",
    }
}

/// How many findings have a status.
pub open spec fn with_status(f: Seq<FindingView>, s: Status) -> int
    decreases f.len(),
{
    if f.len() == 0 {
        0
    } else {
        with_status(f.drop_last(), s) + if f.last().status == s {
            1int
        } else {
            0
        }
    }
}

fn count_status(findings: &[Finding], s: Status) -> (r: usize)
    ensures
        r == with_status(deep(findings@), s),
{
    let ghost f = deep(findings@);
    let mut n: usize = 0;
    let mut i: usize = 0;
    while i < findings.len()
        invariant
            f == deep(findings@),
            n <= i <= findings@.len(),
            n == with_status(f.take(i as int), s),
        decreases findings@.len() - i,
    {
        proof {
            assert(f.take(i + 1).drop_last() == f.take(i as int));
        }
        if findings[i].status == s {
            n = n + 1;
        }
        i = i + 1;
    }
    proof {
        lemma_take_all(f);
    }
    n
}

/// The headline: the score, and how the checks came out.
pub open spec fn headline(target: Seq<char>, score: ScoreView, f: Seq<FindingView>) -> Seq<char> {
    let skipped = with_status(f, Status::Skipped);
    "Audit of '"@ + target + "' ["@ + profile_name(score.profile) + "]: score "@ + digits(
        score.total as int,
    ) + "/100 ("@ + digits(with_status(f, Status::Pass)) + " passed, "@ + digits(
        with_status(f, Status::Fail),
    ) + " failed, "@ + digits(with_status(f, Status::Error)) + " errored"@ + (if skipped > 0 {
        ", "@ + digits(skipped) + " skipped"@
    } else {
        ""@
    }) + ")\n"@
}

pub open spec fn domain_label(d: DomainScore) -> Seq<char> {
    domain_name(d.domain) + " "@ + digits(d.score as int)
}

/// One finding: its line, and below it what to do about a failure.
pub open spec fn finding_text(f: FindingView) -> Seq<char> {
    "  ["@ + status_mark(f.status) + "] "@ + left_aligned(severity_name(f.severity), 8) + " "@ + f.id
        + " — "@ + f.detail + "\n"@ + (if f.status == Status::Fail {
        "           ↳ "@ + f.recommendation + "\n"@
    } else {
        ""@
    })
}

/// The whole text report.
pub open spec fn audit_text(target: Seq<char>, score: ScoreView, f: Seq<FindingView>) -> Seq<char> {
    headline(target, score, f) + "  domains: "@ + joined(
        score.domains.map_values(|d: DomainScore| domain_label(d)),
        ", "@,
    ) + "\n"@ + written(f, |x: FindingView| finding_text(x))
}

fn format_domain(d: &DomainScore) -> (r: String)
    ensures
        r@ == domain_label(d@),
{
    let mut s = domain_tag(d.domain).to_string();
    s.append(" ");
    s.append(format_u64(d.score as u64).as_str());
    s
}

fn format_finding(f: &Finding) -> (r: String)
    ensures
        r@ == finding_text(f@),
{
    let mut s = "  [".to_string();
    s.append(mark_of(f.status));
    s.append("] ");
    s.append(align_left(severity_tag(f.severity), 8).as_str());
    s.append(" ");
    s.append(f.id);
    s.append(" — ");
    s.append(f.detail.as_str());
    s.append("\n");
    let advice = if f.status == Status::Fail {
        let mut a = "           ↳ ".to_string();
        a.append(f.recommendation);
        a.append("\n");
        a
    } else {
        "".to_string()
    };
    s.append(advice.as_str());
    s
}

fn format_headline(target: &str, score: &Score, findings: &[Finding]) -> (r: String)
    ensures
        r@ == headline(target@, score@, deep(findings@)),
{
    let skipped = count_status(findings, Status::Skipped);
    let mut s = "Audit of '".to_string();
    s.append(target);
    s.append("' [");
    s.append(profile_tag(score.profile));
    s.append("]: score ");
    s.append(format_u64(score.total as u64).as_str());
    s.append("/100 (");
    s.append(format_usize(count_status(findings, Status::Pass)).as_str());
    s.append(" passed, ");
    s.append(format_usize(count_status(findings, Status::Fail)).as_str());
    s.append(" failed, ");
    s.append(format_usize(count_status(findings, Status::Error)).as_str());
    s.append(" errored");
    let note = if skipped > 0 {
        let mut n = ", ".to_string();
        n.append(format_usize(skipped).as_str());
        n.append(" skipped");
        n
    } else {
        "".to_string()
    };
    s.append(note.as_str());
    s.append(")\n");
    s
}

/// Human-readable summary: headline score, per-domain scores, then findings.
pub fn text(target: &str, score: &Score, findings: &[Finding]) -> (r: String)
    ensures
        r@ == audit_text(target@, score@, deep(findings@)),
{
    let domains = map_texts(
        &score.domains,
        format_domain,
        Ghost(|d: DomainScore| domain_label(d)),
    );
    proof {
        assert(deep(score.domains@) =~= score.domains@);
    }
    let mut out = format_headline(target, score, findings);
    out.append("  domains: ");
    out.append(join_texts(&domains, ", ").as_str());
    out.append("\n");
    append_all(&mut out, findings, format_finding, Ghost(|x: FindingView| finding_text(x)));
    out
}

pub open spec fn domain_json(d: DomainScore) -> JsonView {
    object(
        field("domain"@, text_value(domain_name(d.domain))) + field(
            "weight"@,
            decimal_value((d.weight * 10_000) as i64),
        ) + field("score"@, whole_value(d.score as int)) + field(
            "checks"@,
            whole_value(d.checks as int),
        ) + field("failed"@, whole_value(d.failed as int)) + field(
            "errored"@,
            whole_value(d.errored as int),
        ),
    )
}

/// A score as JSON. The base is held in hundredths, a weight in percent.
pub open spec fn score_json(s: ScoreView) -> JsonView {
    object(
        field("total"@, whole_value(s.total as int)) + field(
            "profile"@,
            text_value(profile_name(s.profile)),
        ) + field("base"@, decimal_value((s.base * 10_000) as i64)) + field(
            "penalties"@,
            whole_value(s.penalties as int),
        ) + field(
            "domains"@,
            list(each(s.domains, |d: DomainScore| domain_json(d))),
        ),
    )
}

pub open spec fn finding_json(f: FindingView) -> JsonView {
    object(
        field("id"@, text_value(f.id)) + field("domain"@, text_value(domain_name(f.domain)))
            + field("title"@, text_value(f.title)) + field(
            "severity"@,
            text_value(severity_name(f.severity)),
        ) + field("status"@, text_value(status_name(f.status))) + field(
            "detail"@,
            text_value(f.detail),
        ) + field("recommendation"@, text_value(f.recommendation)),
    )
}

pub open spec fn findings_json(f: Seq<FindingView>) -> JsonView {
    list(each(f, |x: FindingView| finding_json(x)))
}

/// `{ target, score, findings }`.
pub open spec fn audit_json(target: Seq<char>, score: ScoreView, f: Seq<FindingView>) -> JsonView {
    object(
        field("target"@, text_value(target)) + field("score"@, score_json(score)) + field(
            "findings"@,
            findings_json(f),
        ),
    )
}

fn domain_document(d: &DomainScore) -> (r: serde_json::Value)
    ensures
        held(r) == domain_json(d@),
{
    broadcast use group_merged;

    let weight: i64 = d.weight as i64 * 10_000;
    let fields = Fields::new().text("domain", domain_tag(d.domain)).decimal("weight", weight).whole(
        "score",
        d.score as u64,
    );
    fields.whole("checks", d.checks as u64).whole("failed", d.failed as u64).whole(
        "errored",
        d.errored as u64,
    ).close()
}

pub fn score_document(s: &Score) -> (r: serde_json::Value)
    ensures
        held(r) == score_json(s@),
{
    broadcast use group_merged;

    let base: i64 = s.base as i64 * 10_000;
    let domains = list_each(
        s.domains.as_slice(),
        domain_document,
        Ghost(|d: DomainScore| domain_json(d)),
    );
    proof {
        assert(deep(s.domains@) =~= s.domains@);
    }
    Fields::new().whole("total", s.total as u64).text("profile", profile_tag(s.profile)).decimal(
        "base",
        base,
    ).whole("penalties", s.penalties as u64).put("domains", domains).close()
}

fn finding_document(f: &Finding) -> (r: serde_json::Value)
    ensures
        held(r) == finding_json(f@),
{
    broadcast use group_merged;

    let fields = Fields::new().text("id", f.id).text("domain", domain_tag(f.domain)).text(
        "title",
        f.title,
    );
    fields.text("severity", severity_tag(f.severity)).text("status", status_tag(f.status)).text(
        "detail",
        f.detail.as_str(),
    ).text("recommendation", f.recommendation).close()
}

pub fn findings_document(findings: &[Finding]) -> (r: serde_json::Value)
    ensures
        held(r) == findings_json(deep(findings@)),
{
    list_each(findings, finding_document, Ghost(|x: FindingView| finding_json(x)))
}

/// The JSON report: `{ target, score, findings }`.
pub fn document(target: &str, score: &Score, findings: &[Finding]) -> (r: serde_json::Value)
    ensures
        held(r) == audit_json(target@, score@, deep(findings@)),
{
    broadcast use group_merged;

    Fields::new().text("target", target).put("score", score_document(score)).put(
        "findings",
        findings_document(findings),
    ).close()
}

/// Machine-readable JSON: `{ target, score, findings }`.
pub fn json(target: &str, score: &Score, findings: &[Finding]) -> (r: Result<String, JsonError>)
    ensures
        r is Ok,
        r->Ok_0@ == laid_out(audit_json(target@, score@, deep(findings@))),
{
    pretty(&document(target, score, findings))
}

} // verus!
