//! Evaluation of collected command output.

use linux_audit_mcp::audit::{evaluate, CmdError, Outputs};
use linux_audit_mcp::checks::{Finding, Status};

const SSHD_CMD: &str = "cat /etc/ssh/sshd_config";
const SSHD_EFFECTIVE: &str = "sudo -n sshd -T";

fn status_of<'a>(findings: &'a [Finding], id: &str) -> &'a Status {
    &findings.iter().find(|f| f.id == id).unwrap().status
}

// A weak file config that ssh-weak-crypto flags, and an effective config
// (as `sshd -T` would print) with no weak algorithms.
const WEAK_FILE: &str = "Ciphers aes128-cbc,3des-cbc\n";
const STRONG_EFFECTIVE: &str =
    "ciphers aes256-gcm@openssh.com\nmacs hmac-sha2-256-etm@openssh.com\n";

#[test]
fn effective_source_supersedes_file_when_privileged() {
    let mut outputs = Outputs::new();
    outputs.insert(SSHD_CMD, Ok(WEAK_FILE.to_string()));
    outputs.insert(SSHD_EFFECTIVE, Ok(STRONG_EFFECTIVE.to_string()));

    // Privileged: the effective (strong) config wins -> pass.
    let priv_findings = evaluate(&outputs, true);
    assert_eq!(status_of(&priv_findings, "ssh-weak-crypto"), &Status::Pass);

    // Unprivileged: the file (weak) is judged -> fail.
    let unpriv_findings = evaluate(&outputs, false);
    assert_eq!(
        status_of(&unpriv_findings, "ssh-weak-crypto"),
        &Status::Fail
    );
}

#[test]
fn falls_back_to_file_when_effective_command_failed() {
    // Opted in, but `sshd -T` errored (no sudo grant): fall back to the file.
    let mut outputs = Outputs::new();
    outputs.insert(SSHD_CMD, Ok(WEAK_FILE.to_string()));
    outputs.insert(SSHD_EFFECTIVE, Err(CmdError::other("no sudo".to_string())));

    let findings = evaluate(&outputs, true);
    assert_eq!(status_of(&findings, "ssh-weak-crypto"), &Status::Fail);
}

#[test]
fn missing_tool_skips_package_manager_check() {
    // apt-get absent (exit 127) -> the apt check is Skipped, not Error.
    let mut outputs = Outputs::new();
    outputs.insert(
        "apt-get -s upgrade",
        Err(CmdError {
            message: "remote command failed (code Some(127)): apt-get: not found".to_string(),
            not_found: true,
        }),
    );
    let findings = evaluate(&outputs, false);
    assert_eq!(
        status_of(&findings, "updates-security-pending"),
        &Status::Skipped
    );
}

#[test]
fn present_tool_that_fails_still_errors() {
    // apt-get present but failed (e.g. dpkg lock) -> genuine Error, not skip.
    let mut outputs = Outputs::new();
    outputs.insert("apt-get -s upgrade", Err(CmdError::other("dpkg is locked".to_string())));
    let findings = evaluate(&outputs, false);
    assert_eq!(
        status_of(&findings, "updates-security-pending"),
        &Status::Error
    );
}

#[test]
fn privileged_check_absent_is_skipped() {
    // No shadow output collected -> the privileged check is Skipped, not Error.
    let outputs = Outputs::new();
    let findings = evaluate(&outputs, false);
    assert_eq!(
        status_of(&findings, "accounts-shadow-empty-password"),
        &Status::Skipped
    );
}
