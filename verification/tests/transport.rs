//! What is sent to a host, and what becomes of the reply.

use linux_audit_mcp::audit::{evaluate, evaluate_with, plan_commands, record, CmdError, Outputs};
use linux_audit_mcp::catalog::{validate, CatalogError};
use linux_audit_mcp::checks::{all_checks, AnyCheck, Check, Status};
use linux_audit_mcp::ssh::{
    classify_exit, needs_private_copy, SshConfig, SshError, SshOutput, StrictHostKey,
};

#[test]
fn catalog_refusals_have_a_message() {
    assert_eq!(validate("").unwrap_err().text(), "empty command");
    assert_eq!(
        validate("uname -a; id").unwrap_err().text(),
        "illegal character ';' in command"
    );
    assert_eq!(
        CatalogError::IllegalCharacter('\n').text(),
        "illegal character '\\n' in command"
    );
    assert_eq!(
        CatalogError::NotInCatalog("a\"b".to_string()).text(),
        "command \"a\\\"b\" is not in the read-only catalog"
    );
}

#[test]
fn transport_errors_have_a_message() {
    let s = || "x".to_string();
    for (e, text) in [
        (SshError::InvalidHost(s()), "invalid host: \"x\""),
        (SshError::InvalidUser("\t".to_string()), "invalid user: \"\\t\""),
        (
            SshError::CommandRejected(CatalogError::Empty),
            "command rejected by catalog: empty command",
        ),
        (SshError::Spawn(s()), "failed to spawn ssh: x"),
        (SshError::Io(s()), "ssh i/o error: x"),
        (SshError::Timeout, "ssh command timed out"),
        (SshError::Auth(s()), "authentication failed: x"),
        (SshError::Connection(s()), "connection failed: x"),
        (
            SshError::RemoteCommand {
                code: Some(-3),
                stdout: s(),
                stderr: "boom".to_string(),
            },
            "remote command failed (code Some(-3)): boom",
        ),
        (
            SshError::RemoteCommand {
                code: None,
                stdout: s(),
                stderr: "boom".to_string(),
            },
            "remote command failed (code None): boom",
        ),
    ] {
        assert_eq!(e.text(), text);
    }
}

fn exit(code: Option<i32>, stderr: &str) -> Result<SshOutput, SshError> {
    classify_exit(code, "out".to_string(), stderr.to_string())
}

#[test]
fn exits_are_classified() {
    let ok = exit(Some(0), "note").unwrap();
    assert_eq!((ok.stdout.as_str(), ok.stderr.as_str()), ("out", "note"));
    match exit(Some(255), " PERMISSION DENIED (publickey).\n") {
        Err(SshError::Auth(s)) => assert_eq!(s, "PERMISSION DENIED (publickey)."),
        other => panic!("{other:?}"),
    }
    assert!(matches!(exit(Some(255), "Authentication failed"), Err(SshError::Auth(_))));
    match exit(Some(255), "Connection refused\n") {
        Err(SshError::Connection(s)) => assert_eq!(s, "Connection refused"),
        other => panic!("{other:?}"),
    }
    match exit(Some(127), " not found \n") {
        Err(SshError::RemoteCommand { code, stdout, stderr }) => {
            assert_eq!(code, Some(127));
            assert_eq!(stdout, "out");
            assert_eq!(stderr, "not found");
        }
        other => panic!("{other:?}"),
    }
    assert!(matches!(
        exit(None, "permission denied"),
        Err(SshError::RemoteCommand { code: None, .. })
    ));
}

#[test]
fn open_keys_are_copied() {
    assert!(needs_private_copy(0o100777));
    assert!(needs_private_copy(0o100640));
    assert!(needs_private_copy(0o100604));
    assert!(!needs_private_copy(0o100600));
    assert!(!needs_private_copy(0o100400));
}

#[test]
fn the_argv_is_complete_and_in_order() {
    let cfg = SshConfig {
        host: "h".to_string(),
        port: 2222,
        user: "u".to_string(),
        identity_file: None,
        connect_timeout: 3,
        command_timeout: 30,
        strict_host_key: StrictHostKey::Yes,
        known_hosts: Some("/kh".to_string()),
        extra_opts: vec!["-o".to_string(), "ProxyJump=j".to_string()],
    };
    let args = cfg.build_args(Some("/k"), "uname -a").join(" ");
    for part in [
        "-p 2222",
        "-i /k -o IdentitiesOnly=yes",
        "-o ConnectTimeout=3",
        "-o StrictHostKeyChecking=yes",
        "-o UserKnownHostsFile=/kh",
        "-o ProxyJump=j",
    ] {
        assert!(args.contains(part), "{part} in {args}");
    }
    assert!(cfg.preflight("uname -a").is_ok());
    let bad_user = SshConfig { user: "-x".to_string(), ..cfg };
    assert!(matches!(bad_user.preflight("uname -a"), Err(SshError::InvalidUser(_))));
}

#[test]
fn the_plan_sends_each_command_once() {
    let checks = all_checks();
    for privileged in [false, true] {
        let plan = plan_commands(&checks, privileged);
        let mut sent: Vec<&str> = plan.entries.iter().map(|(c, _)| c.as_str()).collect();
        assert!(sent.contains(&"cat /etc/ssh/sshd_config"));
        assert_eq!(sent.contains(&"sudo -n sshd -T"), privileged);
        assert_eq!(sent.iter().any(|c| c.starts_with("sudo")), privileged);
        let n = sent.len();
        sent.sort();
        sent.dedup();
        assert_eq!(sent.len(), n);
        assert!(sent.iter().all(|c| validate(c).is_ok()));
    }
}

fn failed(code: i32) -> Result<SshOutput, SshError> {
    Err(SshError::RemoteCommand {
        code: Some(code),
        stdout: "part".to_string(),
        stderr: "gone".to_string(),
    })
}

#[test]
fn replies_are_recorded_or_abort() {
    let mut o = Outputs::new();
    let out = SshOutput {
        stdout: "text".to_string(),
        stderr: String::new(),
    };
    record(&mut o, "uname -a", false, Ok(out)).unwrap();
    assert_eq!(o.stdout("uname -a"), Some("text"));

    // A non-zero exit keeps the partial output where that is tolerated.
    record(&mut o, "a", true, failed(1)).unwrap();
    assert_eq!(o.stdout("a"), Some("part"));
    record(&mut o, "b", false, failed(1)).unwrap();
    assert_eq!(o.stdout("b"), None);

    // A missing tool makes a package check inapplicable; another failure is an error.
    record(&mut o, "apt-get -s upgrade", false, failed(127)).unwrap();
    let f = evaluate_with(&[AnyCheck::SecurityUpdatesPending], &o, false);
    assert_eq!(f[0].status, Status::Skipped);
    assert_eq!(f[0].detail, "apt-get is not installed on this host; check not applicable.");
    record(&mut o, "apt-get -s upgrade", false, failed(100)).unwrap();
    let f = evaluate_with(&[AnyCheck::SecurityUpdatesPending], &o, false);
    assert_eq!(f[0].status, Status::Error);
    assert_eq!(f[0].detail, "remote command failed (code Some(100)): gone");

    // A host-level failure aborts and records nothing.
    assert!(record(&mut o, "c", true, Err(SshError::Timeout)).is_err());
    assert_eq!(o.stdout("c"), None);
}

#[test]
fn every_check_gives_one_finding() {
    let mut o = Outputs::new();
    o.insert("sysctl -a", Err(CmdError::other("no sysctl".to_string())));
    let findings = evaluate(&o, true);
    let checks = all_checks();
    assert_eq!(findings.len(), checks.len());
    for (f, c) in findings.iter().zip(&checks) {
        assert_eq!(f.id, c.id());
        let want = if c.command() == "sysctl -a" {
            Status::Error
        } else {
            Status::Skipped
        };
        assert_eq!(f.status, want, "{}", f.id);
    }
}
