//! The registry of checks.

use linux_audit_mcp::catalog;
use linux_audit_mcp::checks::{all_checks, Check, Domain, Severity};

/// Every command a check issues must be in the read-only catalog, so a
/// future catalog change can never silently break the audit.
#[test]
fn all_check_commands_are_in_catalog() {
    for check in all_checks() {
        assert!(
            catalog::validate(check.command()).is_ok(),
            "check {} uses a non-catalog command: {:?}",
            check.id(),
            check.command()
        );
        if let Some(cmd) = check.effective_command() {
            assert!(
                catalog::validate(cmd).is_ok(),
                "check {} uses a non-catalog effective command: {cmd:?}",
                check.id(),
            );
        }
    }
}

#[test]
fn check_ids_are_unique() {
    let checks = all_checks();
    let total = checks.len();
    let mut ids: Vec<&str> = checks.iter().map(|c| c.id()).collect();
    ids.sort_unstable();
    ids.dedup();
    assert_eq!(ids.len(), total, "duplicate check ids");
}

#[test]
fn an_audit_runs_twenty_four_checks_in_seven_domains() {
    let want = [
        ("ssh-permit-root-login", Domain::Ssh, Severity::High),
        ("ssh-password-authentication", Domain::Ssh, Severity::High),
        ("ssh-permit-empty-passwords", Domain::Ssh, Severity::High),
        ("ssh-x11-forwarding", Domain::Ssh, Severity::Low),
        ("ssh-max-auth-tries", Domain::Ssh, Severity::Low),
        ("ssh-weak-crypto", Domain::Ssh, Severity::Medium),
        ("accounts-nonroot-uid0", Domain::Accounts, Severity::Critical),
        ("accounts-pass-max-days", Domain::Accounts, Severity::Low),
        ("accounts-umask", Domain::Accounts, Severity::Low),
        ("accounts-shadow-empty-password", Domain::Accounts, Severity::Critical),
        ("kernel-aslr", Domain::Kernel, Severity::Medium),
        ("kernel-tcp-syncookies", Domain::Kernel, Severity::Low),
        ("kernel-rp-filter", Domain::Kernel, Severity::Low),
        ("kernel-ip-forward", Domain::Kernel, Severity::Medium),
        ("kernel-accept-redirects", Domain::Kernel, Severity::Low),
        ("kernel-source-route", Domain::Kernel, Severity::Low),
        ("firewall-enabled", Domain::Firewall, Severity::High),
        ("updates-security-pending", Domain::Updates, Severity::Medium),
        ("updates-auto-updates", Domain::Updates, Severity::Low),
        ("services-cleartext-ports", Domain::Services, Severity::Medium),
        ("services-rpcbind", Domain::Services, Severity::Low),
        ("services-fail2ban", Domain::Services, Severity::Low),
        ("logging-auditd", Domain::Logging, Severity::Low),
        ("logging-syslog", Domain::Logging, Severity::Low),
    ];
    let found: Vec<(&str, Domain, Severity)> = all_checks()
        .iter()
        .map(|c| (c.id(), c.domain(), c.severity()))
        .collect();
    assert_eq!(found, want);
    // Those that need an opt-in.
    let privileged: Vec<&str> = all_checks()
        .iter()
        .filter(|c| c.privileged())
        .map(|c| c.id())
        .collect();
    assert_eq!(privileged, ["accounts-shadow-empty-password"]);
}

/// The file name of a recorded output: every run of other characters becomes one `_`.
fn command_slug(command: &str) -> String {
    let slug = command
        .split(|c: char| !c.is_ascii_alphanumeric())
        .filter(|s| !s.is_empty())
        .collect::<Vec<_>>()
        .join("_");
    format!("{slug}.txt")
}

#[test]
fn command_slugs_are_unique() {
    let mut slugs: Vec<String> = all_checks()
        .iter()
        .map(|c| command_slug(c.command()))
        .collect();
    let distinct_commands = {
        let mut cmds: Vec<&str> = all_checks().iter().map(|c| c.command()).collect();
        cmds.sort_unstable();
        cmds.dedup();
        cmds.len()
    };
    slugs.sort_unstable();
    slugs.dedup();
    assert_eq!(
        slugs.len(),
        distinct_commands,
        "command_slug collides: {distinct_commands} commands map to {} slugs",
        slugs.len()
    );
}
