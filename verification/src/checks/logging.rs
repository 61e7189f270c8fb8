//! Logging-domain checks (`systemctl list-unit-files`).

use super::parse::{enabled, parse_unit_files, service_enabled, units_map};
use super::{
    failing, passing, plain_info, Check, CheckInfo, Domain, Outcome, OutcomeView, Severity,
};
use vstd::prelude::*;

verus! {

/// The kernel audit daemon (`auditd`) is not enabled.
pub struct AuditdEnabled;

impl Check for AuditdEnabled {
    open spec fn info(&self) -> CheckInfo {
        plain_info(
            "logging-auditd",
            Domain::Logging,
            "Audit daemon not enabled",
            Severity::Low,
            "Enable the audit trail: systemctl enable --now auditd.",
            super::UNITS_CMD,
            false,
        )
    }

    open spec fn verdict(&self, output: Seq<char>) -> OutcomeView {
        if enabled(units_map(output), "auditd"@) {
            passing("auditd is enabled."@)
        } else {
            failing("auditd is not enabled (no kernel audit trail)."@)
        }
    }

    fn facts(&self) -> (r: CheckInfo) {
        plain_info(
            "logging-auditd",
            Domain::Logging,
            "Audit daemon not enabled",
            Severity::Low,
            "Enable the audit trail: systemctl enable --now auditd.",
            super::UNITS_CMD,
            false,
        )
    }

    fn evaluate(&self, output: &str) -> (r: Outcome) {
        let units = parse_unit_files(output);
        if service_enabled(&units, "auditd") {
            Outcome::pass("auditd is enabled.".to_string())
        } else {
            Outcome::fail("auditd is not enabled (no kernel audit trail).".to_string())
        }
    }
}

/// A persistent syslog daemon (`rsyslog`/`syslog-ng`) is not enabled.
pub struct SyslogEnabled;

impl Check for SyslogEnabled {
    open spec fn info(&self) -> CheckInfo {
        plain_info(
            "logging-syslog",
            Domain::Logging,
            "No persistent syslog daemon",
            Severity::Low,
            "Enable rsyslog (or syslog-ng), or configure persistent journald storage.",
            super::UNITS_CMD,
            false,
        )
    }

    open spec fn verdict(&self, output: Seq<char>) -> OutcomeView {
        let units = units_map(output);
        if enabled(units, "rsyslog"@) || enabled(units, "syslog-ng"@) {
            passing("A syslog daemon is enabled."@)
        } else {
            failing("Neither rsyslog nor syslog-ng is enabled."@)
        }
    }

    fn facts(&self) -> (r: CheckInfo) {
        plain_info(
            "logging-syslog",
            Domain::Logging,
            "No persistent syslog daemon",
            Severity::Low,
            "Enable rsyslog (or syslog-ng), or configure persistent journald storage.",
            super::UNITS_CMD,
            false,
        )
    }

    fn evaluate(&self, output: &str) -> (r: Outcome) {
        let units = parse_unit_files(output);
        if service_enabled(&units, "rsyslog") || service_enabled(&units, "syslog-ng") {
            Outcome::pass("A syslog daemon is enabled.".to_string())
        } else {
            Outcome::fail("Neither rsyslog nor syslog-ng is enabled.".to_string())
        }
    }
}

} // verus!
