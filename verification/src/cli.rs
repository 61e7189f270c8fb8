//! What the command line asks for, and what it answers: the arguments of the `audit`, `health`
//! and `history` subcommands (cron/CI use), the hosts they select, the report they print and
//! the exit code.
//!
//! Each subcommand targets a single host (`--target`) or a whole group (`--group`).

use crate::checks::{Finding, FindingView, Severity, Status};
use crate::config::{membership, Config, ConfigError, ConfigErrorView, ConfigView};
use crate::health::report::{health_json, health_text};
use crate::health::{self, HealthStatus};
use crate::history::{self, history_json, history_text, Snapshot, SnapshotView};
use crate::json_text::{keys_sorted, laid_out};
use crate::report::{self, audit_json, audit_text};
use crate::run::group::{
    audit_group, audit_group_document, audit_group_json, audit_group_text, health_group,
    health_group_document, health_group_json, health_group_text,
};
use crate::run::{AuditOutcome, AuditOutcomeView, HealthOutcome, HealthOutcomeView};
use crate::scoring::{profile_named, Profile, Score, ScoreView};
use crate::text::chars::{deep, deep_option, lemma_deep_empty, lemma_deep_push};
use crate::text::debug::{quote, quoted};
use crate::textmap::lookup;
use vstd::prelude::*;
use vstd::string::StringExecFns;

verus! {

pub struct Cli {
    pub command: Option<Command>,
}

pub enum Command {
    /// Run the MCP server over stdio (this is also the default with no subcommand).
    Serve,
    /// Audit a configured target or group and print a report (for cron/CI).
    Audit(AuditArgs),
    /// Take an operational-health snapshot of a target or group (for cron/CI).
    Health(HealthArgs),
    /// Show the recorded health-snapshot history for a target (trend inspection).
    History(HistoryArgs),
}

pub struct AuditArgs {
    /// Target alias defined in the operator config.
    pub target: Option<String>,
    /// Group name from the config; audits every member (or `all` for every target).
    pub group: Option<String>,
    /// Override the target's audit profile.
    pub profile: Option<String>,
    /// Output format.
    pub format: Format,
    /// Path to the target config (defaults to $LINUX_AUDIT_CONFIG or the standard location).
    pub config: Option<String>,
    /// Exit 2 if any failed check is at least this severity (`off` disables).
    pub fail_on: FailOn,
    /// Exit 2 if the total score is below this value (0-100).
    pub fail_under: Option<u8>,
}

pub struct HealthArgs {
    /// Target alias defined in the operator config.
    pub target: Option<String>,
    /// Group name from the config; snapshots every member (or `all` for every target).
    pub group: Option<String>,
    /// Output format.
    pub format: Format,
    /// Path to the target config (defaults to $LINUX_AUDIT_CONFIG or the standard location).
    pub config: Option<String>,
    /// Exit 2 when the overall health status is at least this severe (`off` disables).
    pub fail_on_status: FailOnStatus,
    /// Do not append these snapshots to the on-disk health history.
    pub no_store: bool,
}

pub struct HistoryArgs {
    /// Target alias whose recorded history to show.
    pub target: String,
    /// Show at most this many most-recent snapshots (0 for all).
    pub limit: usize,
    /// Output format.
    pub format: Format,
    /// Path to the target config (defaults to $LINUX_AUDIT_CONFIG or the standard location).
    pub config: Option<String>,
}

#[derive(Debug, Clone, Copy, PartialEq, Eq, Structural)]
pub enum FailOnStatus {
    Off,
    Warn,
    Crit,
}

#[derive(Debug, Clone, Copy, PartialEq, Eq, Structural)]
pub enum Format {
    Text,
    Json,
}

#[derive(Debug, Clone, Copy, PartialEq, Eq, Structural)]
pub enum FailOn {
    Off,
    Low,
    Medium,
    High,
    Critical,
}

/// The least severity that trips a gate.
pub open spec fn gate_severity(f: FailOn) -> Option<Severity> {
    match f {
        FailOn::Off => None,
        FailOn::Low => Some(Severity::Low),
        FailOn::Medium => Some(Severity::Medium),
        FailOn::High => Some(Severity::High),
        FailOn::Critical => Some(Severity::Critical),
    }
}

impl FailOn {
    pub fn min_severity(self) -> (r: Option<Severity>)
        ensures
            r == gate_severity(self),
    {
        match self {
            FailOn::Off => None,
            FailOn::Low => Some(Severity::Low),
            FailOn::Medium => Some(Severity::Medium),
            FailOn::High => Some(Severity::High),
            FailOn::Critical => Some(Severity::Critical),
        }
    }
}

/// Why a selection of hosts is refused.
#[derive(Debug)]
pub enum SelectError {
    /// Neither a target nor a group was named.
    Neither,
    /// Both were.
    Both,
    Config(ConfigError),
}

/// The model of a [`SelectError`].
pub ghost enum SelectErrorView {
    Neither,
    Both,
    Config(ConfigErrorView),
}

impl View for SelectError {
    type V = SelectErrorView;

    open spec fn view(&self) -> SelectErrorView {
        match *self {
            SelectError::Neither => SelectErrorView::Neither,
            SelectError::Both => SelectErrorView::Both,
            SelectError::Config(e) => SelectErrorView::Config(e@),
        }
    }
}

impl SelectError {
    /// The message, as the command line words it.
    pub fn text(&self) -> (r: String)
        ensures
            r@ == match self@ {
                SelectErrorView::Config(e) => crate::config::config_error_text(e),
                _ => "exactly one of --target or --group is required"@,
            },
    {
        match self {
            SelectError::Config(e) => e.text(),
            SelectError::Neither => {
                "exactly one of --target or --group is required".to_string()
            },
            SelectError::Both => "exactly one of --target or --group is required".to_string(),
        }
    }

    /// The message, as the server words it.
    pub fn request_text(&self) -> (r: String)
        ensures
            r@ == match self@ {
                SelectErrorView::Config(e) => crate::config::config_error_text(e),
                SelectErrorView::Neither => "provide `target` or `group`"@,
                SelectErrorView::Both => "provide only one of `target` or `group`"@,
            },
    {
        match self {
            SelectError::Config(e) => e.text(),
            SelectError::Neither => "provide `target` or `group`".to_string(),
            SelectError::Both => "provide only one of `target` or `group`".to_string(),
        }
    }
}

/// The aliases that a target or a group stands for, and the group's name, if any.
pub open spec fn selected(
    c: ConfigView,
    target: Option<Seq<char>>,
    group: Option<Seq<char>>,
) -> Result<(Seq<Seq<char>>, Option<Seq<char>>), SelectErrorView> {
    match (target, group) {
        (Some(t), None) => Ok((seq![t], None)),
        (None, Some(g)) => match membership(c, g) {
            Ok(members) => Ok((members, Some(g))),
            Err(e) => Err(SelectErrorView::Config(e)),
        },
        (None, None) => Err(SelectErrorView::Neither),
        (Some(_), Some(_)) => Err(SelectErrorView::Both),
    }
}

/// Expands a `--target`/`--group` selection into aliases plus the group name (if any).
pub fn select(cfg: &Config, target: Option<&str>, group: Option<&str>) -> (r: Result<
    (Vec<String>, Option<String>),
    SelectError,
>)
    ensures
        selected(cfg@, deep_option(target), deep_option(group)) == match r {
            Ok((aliases, name)) => Ok::<_, SelectErrorView>(
                (deep(aliases@), deep_option(name)),
            ),
            Err(e) => Err(e@),
        },
{
    broadcast use {lemma_deep_empty, lemma_deep_push};

    match (target, group) {
        (Some(t), None) => {
            let mut aliases: Vec<String> = Vec::new();
            aliases.push(t.to_string());
            proof {
                assert(deep(aliases@) =~= seq![t@]);
            }
            Ok((aliases, None))
        },
        (None, Some(g)) => match cfg.group_members(g) {
            Ok(members) => Ok((members, Some(g.to_string()))),
            Err(e) => Err(SelectError::Config(e)),
        },
        (None, None) => Err(SelectError::Neither),
        (Some(_), Some(_)) => Err(SelectError::Both),
    }
}

/// What a profile name asks for.
pub open spec fn profile_asked(name: Option<Seq<char>>) -> Result<Option<Profile>, Seq<char>> {
    match name {
        None => Ok(None),
        Some(n) => match profile_named(n) {
            Some(p) => Ok(Some(p)),
            None => Err("unknown profile "@ + quoted(n)),
        },
    }
}

/// Reads the profile that a caller asks for; a name that is no profile is refused.
pub fn ask_profile(name: Option<&str>) -> (r: Result<Option<Profile>, String>)
    ensures
        profile_asked(deep_option(name)) == match r {
            Ok(p) => Ok::<_, Seq<char>>(p),
            Err(e) => Err(e@),
        },
{
    match name {
        None => Ok(None),
        Some(n) => match Profile::parse(n) {
            Some(p) => Ok(Some(p)),
            None => {
                let mut e = "unknown profile ".to_string();
                e.append(quote(n).as_str());
                Err(e)
            },
        },
    }
}

/// Checks that an alias is a target of the config, to catch typos.
pub fn known_target(cfg: &Config, alias: &str) -> (r: Result<(), String>)
    ensures
        match r {
            Ok(_) => lookup(cfg@.targets, alias@) is Some,
            Err(e) => lookup(cfg@.targets, alias@) is None && e@ == "unknown target "@ + quoted(
                alias@,
            ),
        },
{
    if cfg.targets.contains_key(alias) {
        Ok(())
    } else {
        let mut e = "unknown target ".to_string();
        e.append(quote(alias).as_str());
        Err(e)
    }
}

/// Some failed check reaches the severity that trips.
pub open spec fn trips_severity(f: Seq<FindingView>, fail_on: FailOn) -> bool {
    match gate_severity(fail_on) {
        None => false,
        Some(min) => exists|i: int|
            0 <= i < f.len() && (#[trigger] f[i]).status == Status::Fail && f[i].severity.level()
                >= min.level(),
    }
}

/// A host's result trips the severity gate or the score gate.
pub open spec fn trips(
    score: ScoreView,
    f: Seq<FindingView>,
    fail_on: FailOn,
    fail_under: Option<u8>,
) -> bool {
    trips_severity(f, fail_on) || (match fail_under {
        Some(n) => score.total < n,
        None => false,
    })
}

/// Single-host severity/score gate: 2 if either trips, else 0.
pub fn exit_code(
    score: &Score,
    findings: &[Finding],
    fail_on: FailOn,
    fail_under: Option<u8>,
) -> (r: i32)
    ensures
        r == if trips(score@, deep(findings@), fail_on, fail_under) {
            2i32
        } else {
            0
        },
{
    let ghost f = deep(findings@);
    match fail_on.min_severity() {
        Some(min) => {
            let mut i: usize = 0;
            while i < findings.len()
                invariant
                    f == deep(findings@),
                    gate_severity(fail_on) == Some(min),
                    i <= findings@.len(),
                    forall|j: int|
                        0 <= j < i ==> !((#[trigger] f[j]).status == Status::Fail
                            && f[j].severity.level() >= min.level()),
                decreases findings@.len() - i,
            {
                proof {
                    assert(f[i as int] == findings@[i as int]@);
                }
                if findings[i].status == Status::Fail && findings[i].severity.rank() >= min.rank() {
                    return 2;
                }
                i = i + 1;
            }
        },
        None => {},
    }
    match fail_under {
        Some(n) => if score.total < n {
            2
        } else {
            0
        },
        None => 0,
    }
}

/// Some host's result trips a gate.
pub open spec fn audit_gated(
    o: Seq<AuditOutcomeView>,
    fail_on: FailOn,
    fail_under: Option<u8>,
) -> bool {
    exists|i: int| 0 <= i < o.len() && audit_trips(#[trigger] o[i], fail_on, fail_under)
}

/// The host was audited and trips a gate.
pub open spec fn audit_trips(o: AuditOutcomeView, fail_on: FailOn, fail_under: Option<u8>) -> bool {
    match o.result {
        Ok((score, findings)) => trips(score, findings, fail_on, fail_under),
        Err(_) => false,
    }
}

/// Some audit failed.
pub open spec fn audit_errored(o: Seq<AuditOutcomeView>) -> bool {
    exists|i: int| 0 <= i < o.len() && (#[trigger] o[i]).result is Err
}

/// A tripped gate (2) dominates; else a host that could not be visited (1); else clean (0).
pub open spec fn verdict_code(gate: bool, errored: bool) -> int {
    if gate {
        2
    } else if errored {
        1
    } else {
        0
    }
}

/// Group exit code: a tripped gate (2) dominates; else an unreachable host (1);
/// else clean (0).
pub fn audit_exit(outcomes: &[AuditOutcome], fail_on: FailOn, fail_under: Option<u8>) -> (r: i32)
    ensures
        r == verdict_code(
            audit_gated(deep(outcomes@), fail_on, fail_under),
            audit_errored(deep(outcomes@)),
        ),
{
    let ghost o = deep(outcomes@);
    let mut errored = false;
    let mut i: usize = 0;
    while i < outcomes.len()
        invariant
            o == deep(outcomes@),
            i <= outcomes@.len(),
            forall|j: int| 0 <= j < i ==> !audit_trips(#[trigger] o[j], fail_on, fail_under),
            errored <==> exists|j: int| 0 <= j < i && (#[trigger] o[j]).result is Err,
        decreases outcomes@.len() - i,
    {
        proof {
            assert(o[i as int] == outcomes@[i as int]@);
        }
        match &outcomes[i].result {
            Ok((score, findings)) => {
                if exit_code(score, findings.as_slice(), fail_on, fail_under) == 2 {
                    return 2;
                }
            },
            Err(_) => {
                errored = true;
            },
        }
        i = i + 1;
    }
    if errored {
        1
    } else {
        0
    }
}

/// The status is bad enough to trip.
pub open spec fn status_trips(overall: HealthStatus, fail_on: FailOnStatus) -> bool {
    match fail_on {
        FailOnStatus::Off => false,
        FailOnStatus::Warn => overall == HealthStatus::Warn || overall == HealthStatus::Crit,
        FailOnStatus::Crit => overall == HealthStatus::Crit,
    }
}

/// Single-host health gate: 2 if `overall` meets `fail_on`, else 0.
pub fn health_exit_code(overall: HealthStatus, fail_on: FailOnStatus) -> (r: i32)
    ensures
        r == if status_trips(overall, fail_on) {
            2i32
        } else {
            0
        },
{
    let trips = match fail_on {
        FailOnStatus::Off => false,
        FailOnStatus::Warn => overall == HealthStatus::Warn || overall == HealthStatus::Crit,
        FailOnStatus::Crit => overall == HealthStatus::Crit,
    };
    if trips {
        2
    } else {
        0
    }
}

/// The host was visited and its status trips.
pub open spec fn health_trips(o: HealthOutcomeView, fail_on: FailOnStatus) -> bool {
    match o.result {
        Ok(r) => status_trips(r.overall, fail_on),
        Err(_) => false,
    }
}

/// Some host trips.
pub open spec fn health_gated(o: Seq<HealthOutcomeView>, fail_on: FailOnStatus) -> bool {
    exists|i: int| 0 <= i < o.len() && health_trips(#[trigger] o[i], fail_on)
}

/// Some host could not be visited.
pub open spec fn health_errored(o: Seq<HealthOutcomeView>) -> bool {
    exists|i: int| 0 <= i < o.len() && (#[trigger] o[i]).result is Err
}

/// Group exit code: a tripped gate (2) dominates; else an unreachable host (1);
/// else clean (0).
pub fn health_exit(outcomes: &[HealthOutcome], fail_on: FailOnStatus) -> (r: i32)
    ensures
        r == verdict_code(
            health_gated(deep(outcomes@), fail_on),
            health_errored(deep(outcomes@)),
        ),
{
    let ghost o = deep(outcomes@);
    let mut errored = false;
    let mut i: usize = 0;
    while i < outcomes.len()
        invariant
            o == deep(outcomes@),
            i <= outcomes@.len(),
            forall|j: int| 0 <= j < i ==> !health_trips(#[trigger] o[j], fail_on),
            errored <==> exists|j: int| 0 <= j < i && (#[trigger] o[j]).result is Err,
        decreases outcomes@.len() - i,
    {
        proof {
            assert(o[i as int] == outcomes@[i as int]@);
        }
        match &outcomes[i].result {
            Ok(report) => {
                if health_exit_code(report.overall, fail_on) == 2 {
                    return 2;
                }
            },
            Err(_) => {
                errored = true;
            },
        }
        i = i + 1;
    }
    if errored {
        1
    } else {
        0
    }
}

/// What is printed: a text or JSON on the standard output, or a failure on the standard error.
#[derive(Debug)]
pub enum Rendered {
    Text(String),
    Json(String),
    Failure(String),
}

/// The model of what is [`Rendered`].
pub ghost enum RenderedView {
    Text(Seq<char>),
    Json(Seq<char>),
    Failure(Seq<char>),
}

impl View for Rendered {
    type V = RenderedView;

    open spec fn view(&self) -> RenderedView {
        match *self {
            Rendered::Text(s) => RenderedView::Text(s@),
            Rendered::Json(s) => RenderedView::Json(s@),
            Rendered::Failure(s) => RenderedView::Failure(s@),
        }
    }
}

/// The output of an audit: a group's report, or the report or failure of the one host.
pub open spec fn audit_output(
    group: Option<Seq<char>>,
    o: Seq<AuditOutcomeView>,
    format: Format,
) -> RenderedView {
    match group {
        Some(g) => match format {
            Format::Text => RenderedView::Text(audit_group(g, o)),
            Format::Json => RenderedView::Json(laid_out(keys_sorted(audit_group_document(g, o)))),
        },
        None => match o[0].result {
            Ok((score, findings)) => match format {
                Format::Text => RenderedView::Text(audit_text(o[0].alias, score, findings)),
                Format::Json => RenderedView::Json(
                    laid_out(audit_json(o[0].alias, score, findings)),
                ),
            },
            Err(e) => RenderedView::Failure("audit of '"@ + o[0].alias + "' failed: "@ + e),
        },
    }
}

/// Renders the outcomes of an audit.
pub fn render_audit(group: Option<&str>, outcomes: &[AuditOutcome], format: Format) -> (r:
    Rendered)
    requires
        group is None ==> outcomes@.len() > 0,
    ensures
        r@ == audit_output(deep_option(group), deep(outcomes@), format),
{
    match group {
        Some(g) => match format {
            Format::Text => Rendered::Text(audit_group_text(g, outcomes)),
            Format::Json => Rendered::Json(audit_group_json(g, outcomes).unwrap()),
        },
        None => {
            let o = &outcomes[0];
            proof {
                assert(deep(outcomes@)[0] == o@);
            }
            match &o.result {
                Ok((score, findings)) => {
                    let f = findings.as_slice();
                    match format {
                        Format::Text => Rendered::Text(report::text(o.alias.as_str(), score, f)),
                        Format::Json => Rendered::Json(
                            report::json(o.alias.as_str(), score, f).unwrap(),
                        ),
                    }
                },
                Err(e) => {
                    let mut s = "audit of '".to_string();
                    s.append(o.alias.as_str());
                    s.append("' failed: ");
                    s.append(e.as_str());
                    Rendered::Failure(s)
                },
            }
        },
    }
}

/// The output of a health snapshot: a group's report, or the report or failure of the one host.
pub open spec fn health_output(
    group: Option<Seq<char>>,
    o: Seq<HealthOutcomeView>,
    format: Format,
) -> RenderedView {
    match group {
        Some(g) => match format {
            Format::Text => RenderedView::Text(health_group(g, o)),
            Format::Json => RenderedView::Json(laid_out(keys_sorted(health_group_document(g, o)))),
        },
        None => match o[0].result {
            Ok(r) => match format {
                Format::Text => RenderedView::Text(health_text(o[0].alias, r)),
                Format::Json => RenderedView::Json(laid_out(health_json(o[0].alias, r))),
            },
            Err(e) => RenderedView::Failure(
                "health snapshot of '"@ + o[0].alias + "' failed: "@ + e,
            ),
        },
    }
}

/// Renders the outcomes of a health snapshot.
pub fn render_health(
    group: Option<&str>,
    outcomes: &[HealthOutcome],
    format: Format,
) -> (r: Rendered)
    requires
        group is None ==> outcomes@.len() > 0,
    ensures
        r@ == health_output(deep_option(group), deep(outcomes@), format),
{
    match group {
        Some(g) => match format {
            Format::Text => Rendered::Text(health_group_text(g, outcomes)),
            Format::Json => Rendered::Json(health_group_json(g, outcomes).unwrap()),
        },
        None => {
            let o = &outcomes[0];
            proof {
                assert(deep(outcomes@)[0] == o@);
            }
            match &o.result {
                Ok(r) => match format {
                    Format::Text => Rendered::Text(health::report::text(o.alias.as_str(), r)),
                    Format::Json => Rendered::Json(
                        health::report::json(o.alias.as_str(), r).unwrap(),
                    ),
                },
                Err(e) => {
                    let mut s = "health snapshot of '".to_string();
                    s.append(o.alias.as_str());
                    s.append("' failed: ");
                    s.append(e.as_str());
                    Rendered::Failure(s)
                },
            }
        },
    }
}

/// The output of a history listing.
pub open spec fn history_output(
    alias: Seq<char>,
    snaps: Seq<SnapshotView>,
    format: Format,
) -> RenderedView {
    match format {
        Format::Text => RenderedView::Text(history_text(alias, snaps)),
        Format::Json => RenderedView::Json(laid_out(keys_sorted(history_json(alias, snaps)))),
    }
}

/// Renders the recorded history of a target.
pub fn render_history(alias: &str, snaps: &[Snapshot], format: Format) -> (r: Rendered)
    ensures
        r@ == history_output(alias@, deep(snaps@), format),
{
    match format {
        Format::Text => Rendered::Text(history::text(alias, snaps)),
        Format::Json => Rendered::Json(history::json(alias, snaps).unwrap()),
    }
}

/// A gate set to a lesser severity trips wherever one set to a greater does.
pub proof fn law_lower_gate_is_stricter(f: Seq<FindingView>, low: FailOn, high: FailOn)
    requires
        low != FailOn::Off,
        gate_severity(low) matches Some(a) && gate_severity(high) matches Some(b) ==> a.level()
            <= b.level(),
        trips_severity(f, high),
    ensures
        trips_severity(f, low),
{
    let a = gate_severity(low)->0;
    let b = gate_severity(high)->0;
    let i = choose|i: int|
        0 <= i < f.len() && (#[trigger] f[i]).status == Status::Fail && f[i].severity.level()
            >= b.level();
    assert(f[i].severity.level() >= a.level());
}

/// Checks that did not fail trip no severity gate.
pub proof fn law_only_failures_trip(f: Seq<FindingView>, fail_on: FailOn)
    requires
        forall|i: int| 0 <= i < f.len() ==> (#[trigger] f[i]).status != Status::Fail,
    ensures
        !trips_severity(f, fail_on),
{
}

/// A host whose health is unknown never trips, and a limit that is off never trips.
pub proof fn law_unknown_and_off_never_trip(overall: HealthStatus, fail_on: FailOnStatus)
    ensures
        !status_trips(HealthStatus::Unknown, fail_on),
        !status_trips(overall, FailOnStatus::Off),
        status_trips(overall, FailOnStatus::Crit) ==> status_trips(overall, FailOnStatus::Warn),
{
}

/// An audit of one host exits with that host's own code, or 1 where the audit failed.
pub proof fn law_one_host_exits_with_its_code(
    o: AuditOutcomeView,
    fail_on: FailOn,
    fail_under: Option<u8>,
)
    ensures
        verdict_code(
            audit_gated(seq![o], fail_on, fail_under),
            audit_errored(seq![o]),
        ) == match o.result {
            Ok((score, f)) => if trips(score, f, fail_on, fail_under) {
                2int
            } else {
                0
            },
            Err(_) => 1,
        },
{
    let s = seq![o];
    assert(s[0] == o);
    if audit_trips(o, fail_on, fail_under) {
        assert(audit_trips(s[0], fail_on, fail_under));
    }
    if o.result is Err {
        assert(s[0].result is Err);
    }
}

} // verus!
