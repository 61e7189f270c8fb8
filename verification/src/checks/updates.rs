//! Updates-domain checks: pending security updates (apt and dnf) and whether
//! automatic updates are enabled.
//!
//! `apt`/`dnf` are per-distro: on the other family's host the tool is absent, so
//! the command exits 127 and the check is reported `Skipped` (not applicable,
//! excluded from the score) via [`Check::skip_if_tool_missing`]. A Debian host is
//! judged by the apt check and a RHEL host by the dnf check.

use super::parse::{enabled, parse_unit_files, service_enabled, units_map};
use super::{
    failing, passing, plain_info, Check, CheckInfo, Domain, Outcome, OutcomeView, Severity,
};
use crate::text::chars::{lowercase, lowercase_of};
use crate::text::number::{digits, format_usize};
use crate::text::search::{begins, contains_text, mentions, starts_with};
use crate::text::split::{count_lines, count_where, lines, split_words, words};
use crate::textmap::TextMap;
use vstd::prelude::*;
use vstd::string::StringExecFns;

verus! {

/// A check that asks a package manager for pending updates.
#[verifier::allow_in_spec]
pub fn package_info(
    id: &'static str,
    title: &'static str,
    recommendation: &'static str,
    command: &'static str,
) -> (r: CheckInfo)
    returns
        (CheckInfo {
            id,
            domain: Domain::Updates,
            title,
            severity: Severity::Medium,
            recommendation,
            command,
            privileged: false,
            effective_command: None,
            skip_if_tool_missing: true,
            tolerate_nonzero_exit: false,
        }),
{
    CheckInfo {
        id,
        domain: Domain::Updates,
        title,
        severity: Severity::Medium,
        recommendation,
        command,
        privileged: false,
        effective_command: None,
        skip_if_tool_missing: true,
        tolerate_nonzero_exit: false,
    }
}

/// `Inst <pkg> (... Debian-Security ...)` marks a security upgrade.
pub open spec fn security_install(line: Seq<char>) -> bool {
    starts_with(line, "Inst "@) && mentions(lowercase(line), "security"@)
}

fn is_security_install(line: &[char]) -> (r: bool)
    ensures
        r == security_install(line@),
{
    if begins(line, "Inst ") {
        let small = lowercase_of(line);
        contains_text(small.as_slice(), "security")
    } else {
        false
    }
}

/// An advisory row has at least three fields: advisory, severity, package.
pub open spec fn advisory_row(line: Seq<char>) -> bool {
    words(line).len() >= 3
}

fn is_advisory_row(line: &[char]) -> (r: bool)
    ensures
        r == advisory_row(line@),
{
    split_words(line).len() >= 3
}

/// The verdict for a number of pending updates.
pub open spec fn pending(count: int) -> OutcomeView {
    if count == 0 {
        passing("No pending security updates."@)
    } else {
        failing(digits(count) + " pending security update(s)."@)
    }
}

fn judge_pending(count: usize) -> (r: Outcome)
    ensures
        r@ == pending(count as int),
{
    if count == 0 {
        Outcome::pass("No pending security updates.".to_string())
    } else {
        let mut s = format_usize(count);
        s.append(" pending security update(s).");
        Outcome::fail(s)
    }
}

/// Pending security updates (simulated apt upgrade lists `Inst` from -security).
pub struct SecurityUpdatesPending;

impl Check for SecurityUpdatesPending {
    open spec fn info(&self) -> CheckInfo {
        package_info(
            "updates-security-pending",
            "Pending security updates",
            "Apply security updates: apt-get update && apt-get upgrade.",
            "apt-get -s upgrade",
        )
    }

    open spec fn verdict(&self, output: Seq<char>) -> OutcomeView {
        pending(
            count_where(lines(output), |l: Seq<char>| security_install(l)) as int,
        )
    }

    fn facts(&self) -> (r: CheckInfo) {
        package_info(
            "updates-security-pending",
            "Pending security updates",
            "Apply security updates: apt-get update && apt-get upgrade.",
            "apt-get -s upgrade",
        )
    }

    fn evaluate(&self, output: &str) -> (r: Outcome) {
        judge_pending(
            count_lines(output, is_security_install, Ghost(|l: Seq<char>| security_install(l))),
        )
    }
}

/// Pending security updates on RHEL/dnf hosts (`dnf updateinfo list security`).
/// Each output line is one security advisory affecting one package (`ADVISORY
/// Severity/Sec. package-nvr`); `-q` strips headers, and the command exits 0 with
/// empty output when none are pending.
pub struct SecurityUpdatesPendingDnf;

impl Check for SecurityUpdatesPendingDnf {
    open spec fn info(&self) -> CheckInfo {
        package_info(
            "updates-security-pending-dnf",
            "Pending security updates (dnf)",
            "Apply security updates: dnf upgrade --security.",
            "dnf -q updateinfo list security",
        )
    }

    open spec fn verdict(&self, output: Seq<char>) -> OutcomeView {
        pending(
            count_where(lines(output), |l: Seq<char>| advisory_row(l)) as int,
        )
    }

    fn facts(&self) -> (r: CheckInfo) {
        package_info(
            "updates-security-pending-dnf",
            "Pending security updates (dnf)",
            "Apply security updates: dnf upgrade --security.",
            "dnf -q updateinfo list security",
        )
    }

    fn evaluate(&self, output: &str) -> (r: Outcome) {
        judge_pending(
            count_lines(output, is_advisory_row, Ghost(|l: Seq<char>| advisory_row(l))),
        )
    }
}

/// Known service units that apply automatic updates, across package managers.
/// (RHEL's `dnf-automatic` is timer-driven; the install service unit is the
/// closest read-only, service-scoped signal we can see without listing timers.)
pub const AUTO_UPDATE_UNITS: [&'static str; 4] = [
    "unattended-upgrades",
    "dnf-automatic-install",
    "dnf-automatic",
    "yum-cron",
];

/// The first of the known units, from position `i` on, that is enabled.
pub open spec fn auto_update_unit(units: Seq<(Seq<char>, Seq<char>)>, i: int) -> Option<Seq<char>>
    decreases AUTO_UPDATE_UNITS@.len() - i,
{
    if i < 0 || i >= AUTO_UPDATE_UNITS@.len() {
        None
    } else if enabled(units, AUTO_UPDATE_UNITS@[i]@) {
        Some(AUTO_UPDATE_UNITS@[i]@)
    } else {
        auto_update_unit(units, i + 1)
    }
}

fn find_auto_update_unit(units: &TextMap<String>) -> (r: Option<&'static str>)
    ensures
        match r {
            Some(u) => auto_update_unit(units@, 0) == Some(u@),
            None => auto_update_unit(units@, 0).is_none(),
        },
{
    let all = AUTO_UPDATE_UNITS;
    let mut i: usize = 0;
    while i < all.len()
        invariant
            all == AUTO_UPDATE_UNITS,
            i <= all@.len(),
            auto_update_unit(units@, 0) == auto_update_unit(units@, i as int),
        decreases all@.len() - i,
    {
        if service_enabled(units, all[i]) {
            return Some(all[i]);
        }
        i = i + 1;
    }
    None
}

/// Automatic (unattended) security updates are not enabled. Best-effort across
/// package managers: passes if any known auto-update service unit is enabled.
pub struct AutoUpdatesEnabled;

impl Check for AutoUpdatesEnabled {
    open spec fn info(&self) -> CheckInfo {
        plain_info(
            "updates-auto-updates",
            Domain::Updates,
            "Automatic security updates disabled",
            Severity::Low,
            "Enable unattended security updates: apt install unattended-upgrades && dpkg-reconfigure -plow unattended-upgrades (or the distro equivalent).",
            super::UNITS_CMD,
            false,
        )
    }

    open spec fn verdict(&self, output: Seq<char>) -> OutcomeView {
        match auto_update_unit(units_map(output), 0) {
            Some(u) => passing("Automatic updates enabled ("@ + u + ")."@),
            None => failing("No automatic security-update service is enabled."@),
        }
    }

    fn facts(&self) -> (r: CheckInfo) {
        plain_info(
            "updates-auto-updates",
            Domain::Updates,
            "Automatic security updates disabled",
            Severity::Low,
            "Enable unattended security updates: apt install unattended-upgrades && dpkg-reconfigure -plow unattended-upgrades (or the distro equivalent).",
            super::UNITS_CMD,
            false,
        )
    }

    fn evaluate(&self, output: &str) -> (r: Outcome) {
        let units = parse_unit_files(output);
        match find_auto_update_unit(&units) {
            Some(u) => {
                let mut s = "Automatic updates enabled (".to_string();
                s.append(u);
                s.append(").");
                Outcome::pass(s)
            },
            None => Outcome::fail("No automatic security-update service is enabled.".to_string()),
        }
    }
}

} // verus!
