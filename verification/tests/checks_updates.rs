//! The updates checks.

use linux_audit_mcp::checks::updates::{AutoUpdatesEnabled, SecurityUpdatesPending, SecurityUpdatesPendingDnf};
use linux_audit_mcp::checks::{Check, Status};

#[test]
fn security_updates() {
    let none = "Reading package lists...\nBuilding dependency tree...\n";
    let some = "Inst libc6 [2.36] (2.36-9+deb12u4 Debian-Security:12/stable [amd64])\n\
                Inst tzdata [2024a] (2024b Debian:stable [all])\n";
    assert_eq!(SecurityUpdatesPending.evaluate(none).status, Status::Pass);
    // One of the two Inst lines is from -Security.
    assert_eq!(SecurityUpdatesPending.evaluate(some).status, Status::Fail);
}

#[test]
fn security_updates_dnf() {
    // Empty output (also the exit-0 "none pending" case) -> pass.
    assert_eq!(SecurityUpdatesPendingDnf.evaluate("").status, Status::Pass);
    assert_eq!(
        SecurityUpdatesPendingDnf.evaluate("\n\n").status,
        Status::Pass
    );
    // Two security advisory rows -> fail (count 2).
    let some = "RLSA-2024:1234 Important/Sec. kernel-4.18.0-553.el8.x86_64\n\
                RLSA-2024:5678 Moderate/Sec.  openssl-1.1.1k-12.el8.x86_64\n";
    let out = SecurityUpdatesPendingDnf.evaluate(some);
    assert_eq!(out.status, Status::Fail);
    assert!(out.detail.contains('2'), "{}", out.detail);
}

#[test]
fn auto_updates() {
    assert_eq!(
        AutoUpdatesEnabled
            .evaluate("unattended-upgrades.service enabled enabled\n")
            .status,
        Status::Pass
    );
    // Absent unit -> not enabled -> fail.
    assert_eq!(
        AutoUpdatesEnabled
            .evaluate("sshd.service enabled enabled\n")
            .status,
        Status::Fail
    );
}
