//! The SSH transport.

use linux_audit_mcp::ssh::{is_valid_host, is_valid_user, SshConfig, SshError, REMOTE_PATH};

fn cfg() -> SshConfig {
    SshConfig {
        host: "192.168.1.10".to_string(),
        user: "auditor".to_string(),
        ..Default::default()
    }
}

#[test]
fn build_args_sets_safe_defaults() {
    let args = cfg().build_args(None, "uname -a");
    let joined = args.join(" ");

    assert!(joined.contains("-p 22"));
    assert!(joined.contains("BatchMode=yes"));
    assert!(joined.contains("PasswordAuthentication=no"));
    assert!(joined.contains("ConnectTimeout=10"));
    assert!(joined.contains("StrictHostKeyChecking=accept-new"));
    // Destination and command are the last two argv elements; the command
    // carries a prepended PATH so sbin tools resolve over SSH.
    assert_eq!(args[args.len() - 2], "auditor@192.168.1.10");
    let cmd = &args[args.len() - 1];
    assert!(cmd.starts_with("PATH=/usr/local/sbin:"));
    assert!(cmd.ends_with(" uname -a"));
}

#[test]
fn build_args_includes_identity_when_set() {
    let mut c = cfg();
    c.identity_file = Some("/keys/id_ed25519".to_string());
    let args = c.build_args(c.identity_file.as_deref(), "sysctl -a");
    let joined = args.join(" ");
    assert!(joined.contains("-i /keys/id_ed25519"));
    assert!(joined.contains("IdentitiesOnly=yes"));
}

#[test]
fn host_and_user_validation() {
    assert!(is_valid_host("192.168.1.10"));
    assert!(is_valid_host("server.local"));
    assert!(is_valid_host("fe80::1"));
    assert!(!is_valid_host(""));
    assert!(!is_valid_host("-oProxyCommand=evil"));
    assert!(!is_valid_host("a b"));

    assert!(is_valid_user("auditor"));
    assert!(!is_valid_user("-x"));
    assert!(!is_valid_user("a;b"));
}

#[test]
fn run_rejects_non_catalog_command_without_spawning() {
    // A write command must be refused by the catalog, not sent to ssh.
    let err = cfg().preflight("systemctl restart sshd").unwrap_err();
    assert!(matches!(err, SshError::CommandRejected(_)), "got {err:?}");
}

#[test]
fn the_command_is_sent_without_the_space_around_it() {
    for padded in ["uname -a", "  uname -a", "uname -a \n", "\tuname -a\u{a0}"] {
        let c = cfg();
        assert!(c.preflight(padded).is_ok(), "{padded:?}");
        let args = c.build_args(None, padded);
        assert_eq!(args.last().unwrap(), &format!("PATH={REMOTE_PATH} uname -a"));
    }
    let read = "openssl x509 -in /etc/ssl/a.pem -noout -enddate";
    let args = cfg().build_args(None, &format!(" {read}"));
    assert_eq!(args.last().unwrap(), &format!("PATH={REMOTE_PATH} {read}"));
}

#[test]
fn run_rejects_invalid_host() {
    let mut c = cfg();
    c.host = "-oProxyCommand=evil".to_string();
    let err = c.preflight("uname -a").unwrap_err();
    assert!(matches!(err, SshError::InvalidHost(_)), "got {err:?}");
}
