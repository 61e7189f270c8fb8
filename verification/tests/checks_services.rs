//! The services checks.

use linux_audit_mcp::checks::services::{CleartextPorts, Fail2banEnabled, RpcbindDisabled};
use linux_audit_mcp::checks::{Check, Status};

#[test]
fn cleartext_ports() {
    let ssh_only = "tcp LISTEN 0 128 0.0.0.0:22 0.0.0.0:*\n";
    let telnet = "tcp LISTEN 0 128 0.0.0.0:23 0.0.0.0:*\n";
    assert_eq!(CleartextPorts.evaluate(ssh_only).status, Status::Pass);
    assert_eq!(CleartextPorts.evaluate(telnet).status, Status::Fail);
}

#[test]
fn rpcbind() {
    assert_eq!(
        RpcbindDisabled
            .evaluate("rpcbind.service enabled enabled\n")
            .status,
        Status::Fail
    );
    assert_eq!(
        RpcbindDisabled
            .evaluate("rpcbind.service disabled disabled\n")
            .status,
        Status::Pass
    );
}

#[test]
fn fail2ban() {
    assert_eq!(
        Fail2banEnabled
            .evaluate("fail2ban.service enabled enabled\n")
            .status,
        Status::Pass
    );
    // Absent -> not enabled -> fail.
    assert_eq!(
        Fail2banEnabled
            .evaluate("sshd.service enabled enabled\n")
            .status,
        Status::Fail
    );
}
