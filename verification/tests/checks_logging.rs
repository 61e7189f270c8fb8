//! The logging checks.

use linux_audit_mcp::checks::logging::{AuditdEnabled, SyslogEnabled};
use linux_audit_mcp::checks::{Check, Status};

#[test]
fn auditd() {
    assert_eq!(
        AuditdEnabled
            .evaluate("auditd.service enabled enabled\n")
            .status,
        Status::Pass
    );
    assert_eq!(AuditdEnabled.evaluate("").status, Status::Fail);
}

#[test]
fn syslog() {
    assert_eq!(
        SyslogEnabled
            .evaluate("rsyslog.service enabled enabled\n")
            .status,
        Status::Pass
    );
    assert_eq!(
        SyslogEnabled
            .evaluate("syslog-ng.service enabled enabled\n")
            .status,
        Status::Pass
    );
    assert_eq!(SyslogEnabled.evaluate("").status, Status::Fail);
}
