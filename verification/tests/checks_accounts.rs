//! The accounts checks.

use linux_audit_mcp::checks::accounts::{DefaultUmask, NonRootUid0, PassMaxDays, ShadowEmptyPassword};
use linux_audit_mcp::checks::{Check, Status};

#[test]
fn nonroot_uid0() {
    let clean = "root:x:0:0::/root:/bin/bash\nalice:x:1000:1000::/home/alice:/bin/bash\n";
    let bad = "root:x:0:0::/root:/bin/bash\nbackdoor:x:0:0::/root:/bin/bash\n";
    assert_eq!(NonRootUid0.evaluate(clean).status, Status::Pass);
    assert_eq!(NonRootUid0.evaluate(bad).status, Status::Fail);
}

#[test]
fn pass_max_days() {
    assert_eq!(
        PassMaxDays.evaluate("PASS_MAX_DAYS 90\n").status,
        Status::Pass
    );
    assert_eq!(
        PassMaxDays.evaluate("PASS_MAX_DAYS 99999\n").status,
        Status::Fail
    );
    assert_eq!(PassMaxDays.evaluate("# nothing\n").status, Status::Fail);
}

#[test]
fn default_umask() {
    assert_eq!(DefaultUmask.evaluate("UMASK 027\n").status, Status::Pass);
    assert_eq!(DefaultUmask.evaluate("UMASK 077\n").status, Status::Pass);
    assert_eq!(DefaultUmask.evaluate("UMASK 022\n").status, Status::Fail);
    // Unset -> default 022 -> fail.
    assert_eq!(DefaultUmask.evaluate("# nothing\n").status, Status::Fail);
}

#[test]
fn shadow_empty_password() {
    // Privileged check reading root-only /etc/shadow.
    assert!(ShadowEmptyPassword.privileged());
    let clean = "root:$6$x$hash:19000::::::\nbin:*:19000::::::\n";
    assert_eq!(ShadowEmptyPassword.evaluate(clean).status, Status::Pass);
    let bad = "root:$6$x$hash:19000::::::\nguest::19000::::::\n";
    let out = ShadowEmptyPassword.evaluate(bad);
    assert_eq!(out.status, Status::Fail);
    assert!(out.detail.contains("guest"));
}
