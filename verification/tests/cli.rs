//! Selection, rendering and exit codes.

use linux_audit_mcp::audit::Outputs;
use linux_audit_mcp::checks::{Domain, Finding, Severity, Status};
use linux_audit_mcp::cli::{
    ask_profile, audit_exit, exit_code, health_exit, health_exit_code, known_target,
    render_audit, render_health, select, FailOn, FailOnStatus, Format, Rendered, SelectError,
};
use linux_audit_mcp::config::{Config, Group, HostVars, Target};
use linux_audit_mcp::health::{evaluate, HealthStatus, Thresholds};
use linux_audit_mcp::run::{AuditOutcome, HealthOutcome};
use linux_audit_mcp::scoring::{score, Profile};
use linux_audit_mcp::textmap::TextMap;

fn finding(severity: Severity, status: Status) -> Finding {
    Finding {
        id: "t",
        domain: Domain::Ssh,
        title: "t",
        severity,
        status,
        detail: String::new(),
        recommendation: "",
    }
}

#[test]
fn severity_gate_defaults_to_high() {
    let findings = vec![finding(Severity::High, Status::Fail)];
    let s = score(&findings, Profile::Baseline);
    assert_eq!(exit_code(&s, &findings, FailOn::High, None), 2);
    // A medium failure does not trip the High gate.
    let med = vec![finding(Severity::Medium, Status::Fail)];
    let s2 = score(&med, Profile::Baseline);
    assert_eq!(exit_code(&s2, &med, FailOn::High, None), 0);
}

#[test]
fn fail_on_off_disables_severity_gate() {
    let findings = vec![finding(Severity::Critical, Status::Fail)];
    let s = score(&findings, Profile::Baseline);
    assert_eq!(exit_code(&s, &findings, FailOn::Off, None), 0);
}

#[test]
fn score_gate() {
    let findings = vec![finding(Severity::Low, Status::Fail)];
    let s = score(&findings, Profile::Baseline); // total ~99
    assert_eq!(exit_code(&s, &findings, FailOn::Off, Some(100)), 2);
    assert_eq!(exit_code(&s, &findings, FailOn::Off, Some(50)), 0);
}

#[test]
fn group_exit_prefers_gate_then_error() {
    let clean = AuditOutcome {
        alias: "a".into(),
        result: Ok((score(&[], Profile::Baseline), vec![])),
    };
    let failing = AuditOutcome {
        alias: "b".into(),
        result: Ok((
            score(&[finding(Severity::High, Status::Fail)], Profile::Baseline),
            vec![finding(Severity::High, Status::Fail)],
        )),
    };
    let errored = AuditOutcome {
        alias: "c".into(),
        result: Err("connection failed".into()),
    };
    // gate (2) dominates even with an errored host present.
    assert_eq!(
        audit_exit(std::slice::from_ref(&failing), FailOn::High, None),
        2
    );
    assert_eq!(audit_exit(&[clean, errored], FailOn::High, None), 1);
}

#[test]
fn health_gate() {
    // off never trips; warn trips on Warn/Crit; crit only on Crit.
    assert_eq!(health_exit_code(HealthStatus::Crit, FailOnStatus::Off), 0);
    assert_eq!(health_exit_code(HealthStatus::Warn, FailOnStatus::Warn), 2);
    assert_eq!(health_exit_code(HealthStatus::Okay, FailOnStatus::Warn), 0);
    assert_eq!(health_exit_code(HealthStatus::Warn, FailOnStatus::Crit), 0);
    assert_eq!(health_exit_code(HealthStatus::Crit, FailOnStatus::Crit), 2);
    // Unknown is neutral - never gates.
    assert_eq!(
        health_exit_code(HealthStatus::Unknown, FailOnStatus::Warn),
        0
    );
}

fn config() -> Config {
    let mut targets = TextMap::new();
    for alias in ["web", "db"] {
        let target = Target {
            host: "192.0.2.1".to_string(),
            vars: HostVars::default(),
        };
        targets.insert(alias.to_string(), target);
    }
    let mut groups = TextMap::new();
    let group = Group {
        members: vec!["db".to_string(), "web".to_string()],
        vars: HostVars::default(),
    };
    groups.insert("prod".to_string(), group);
    Config { targets, groups }
}

#[test]
fn one_target_or_one_group_is_selected() {
    let cfg = config();
    let (aliases, group) = select(&cfg, Some("web"), None).unwrap();
    assert_eq!(aliases, vec!["web"]);
    assert_eq!(group, None);

    let (aliases, group) = select(&cfg, None, Some("prod")).unwrap();
    assert_eq!(aliases, vec!["db", "web"]);
    assert_eq!(group.as_deref(), Some("prod"));

    let neither = select(&cfg, None, None).unwrap_err();
    assert!(matches!(neither, SelectError::Neither));
    assert_eq!(neither.text(), "exactly one of --target or --group is required");
    assert_eq!(neither.request_text(), "provide `target` or `group`");

    let both = select(&cfg, Some("web"), Some("prod")).unwrap_err();
    assert!(matches!(both, SelectError::Both));
    assert_eq!(both.text(), "exactly one of --target or --group is required");
    assert_eq!(both.request_text(), "provide only one of `target` or `group`");

    let unknown = select(&cfg, None, Some("nope")).unwrap_err();
    assert!(matches!(unknown, SelectError::Config(_)));
    assert_eq!(unknown.text(), unknown.request_text());
    assert!(unknown.text().contains("nope"));
}

#[test]
fn a_target_is_known_or_refused() {
    let cfg = config();
    assert!(known_target(&cfg, "web").is_ok());
    assert_eq!(known_target(&cfg, "a\"b").unwrap_err(), "unknown target \"a\\\"b\"");
}

#[test]
fn a_profile_is_read_or_refused() {
    assert_eq!(ask_profile(None), Ok(None));
    assert_eq!(ask_profile(Some("hardened")), Ok(Some(Profile::Hardened)));
    assert_eq!(ask_profile(Some("nope")), Err("unknown profile \"nope\"".to_string()));
}

#[test]
fn severities_are_compared_by_rank() {
    for (fail_on, code) in [
        (FailOn::Low, 2),
        (FailOn::Medium, 2),
        (FailOn::High, 0),
        (FailOn::Critical, 0),
    ] {
        let f = vec![finding(Severity::Medium, Status::Fail)];
        let s = score(&f, Profile::Baseline);
        assert_eq!(exit_code(&s, &f, fail_on, None), code);
        // A check that did not fail never trips.
        let e = vec![finding(Severity::Medium, Status::Error)];
        assert_eq!(exit_code(&s, &e, fail_on, None), 0);
    }
}

fn health(alias: &str, overall: HealthStatus) -> HealthOutcome {
    let mut r = evaluate(&Outputs::new(), &Thresholds::default());
    r.overall = overall;
    HealthOutcome {
        alias: alias.to_string(),
        result: Ok(r),
    }
}

fn unreachable_host(alias: &str) -> HealthOutcome {
    HealthOutcome {
        alias: alias.to_string(),
        result: Err("connection failed".to_string()),
    }
}

#[test]
fn health_exit_prefers_status_then_error() {
    let ok = || health("a", HealthStatus::Okay);
    let crit = || health("b", HealthStatus::Crit);
    assert_eq!(health_exit(&[ok()], FailOnStatus::Warn), 0);
    assert_eq!(health_exit(&[ok(), unreachable_host("c")], FailOnStatus::Warn), 1);
    assert_eq!(health_exit(&[unreachable_host("c"), crit()], FailOnStatus::Crit), 2);
    assert_eq!(health_exit(&[unreachable_host("c"), crit()], FailOnStatus::Off), 1);
    assert_eq!(health_exit(&[], FailOnStatus::Warn), 0);
}

#[test]
fn a_failed_host_is_rendered_as_a_failure() {
    let audit = AuditOutcome {
        alias: "web".to_string(),
        result: Err("connection failed".to_string()),
    };
    match render_audit(None, &[audit], Format::Text) {
        Rendered::Failure(s) => assert_eq!(s, "audit of 'web' failed: connection failed"),
        other => panic!("{other:?}"),
    }
    match render_health(None, &[unreachable_host("web")], Format::Json) {
        Rendered::Failure(s) => {
            assert_eq!(s, "health snapshot of 'web' failed: connection failed")
        }
        other => panic!("{other:?}"),
    }
}

#[test]
fn one_host_is_rendered_alone_and_a_group_together() {
    match render_health(None, &[health("web", HealthStatus::Okay)], Format::Text) {
        Rendered::Text(s) => assert!(s.starts_with("Health of 'web': OK"), "{s}"),
        other => panic!("{other:?}"),
    }
    let hosts = [health("web", HealthStatus::Okay), unreachable_host("db")];
    match render_health(Some("prod"), &hosts, Format::Text) {
        Rendered::Text(s) => assert!(
            s.starts_with(
                "Health group 'prod' (2 hosts): 1 OK, 0 WARN, 0 CRIT, 1 error\n=== web [OK"
            ),
            "{s}"
        ),
        other => panic!("{other:?}"),
    }
    match render_health(Some("prod"), &hosts, Format::Json) {
        Rendered::Json(s) => assert!(s.contains("\n  \"kind\": \"health-group\""), "{s}"),
        other => panic!("{other:?}"),
    }
}
