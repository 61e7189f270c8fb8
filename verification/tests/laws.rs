//! What holds throughout, on concrete values.

use linux_audit_mcp::catalog::{is_allowed, validate, READONLY_COMMANDS};
use linux_audit_mcp::checks::parse::{
    parse_keyword_map, parse_proc_mounts, parse_sysctl, parse_unit_files,
};
use linux_audit_mcp::checks::{all_checks, Check, Domain, Finding, Severity, Status};
use linux_audit_mcp::health::{
    bound_status, percent_status, ratio_status, threshold_status, worst, HealthStatus, Metric,
};
use linux_audit_mcp::quantity::{percent, Ratio};
use linux_audit_mcp::run::group::group_identical;
use linux_audit_mcp::run::{audit_outcome, AuditOutcome};
use linux_audit_mcp::scoring::{score, Profile};
use linux_audit_mcp::ssh::SshConfig;
use linux_audit_mcp::textmap::TextMap;

#[test]
fn the_last_setting_wins_and_the_first_keyword() {
    let sysctl = parse_sysctl("a = 1\nb = 2\na = 3\n");
    assert_eq!(sysctl.get("a").map(String::as_str), Some("3"));
    assert_eq!(sysctl.get("c"), None);
    let mounts = parse_proc_mounts("x /m t rw 0 0\ny /m t ro,nodev 0 0\n");
    assert_eq!(mounts.get("/m").unwrap().items, vec!["ro", "nodev"]);
    let units = parse_unit_files("a.service enabled x\na.service disabled x\n");
    assert_eq!(units.get("a.service").map(String::as_str), Some("disabled"));
    let keywords = parse_keyword_map("Port 22\nPORT 23\n");
    assert_eq!(keywords.get("port").map(String::as_str), Some("22"));
}

#[test]
fn a_map_keeps_one_entry_for_a_key() {
    let mut m = TextMap::new();
    m.insert("a".to_string(), 1u64);
    m.insert("b".to_string(), 2);
    m.insert("a".to_string(), 3);
    assert_eq!((m.len(), m.get("a"), m.get("b"), m.get("c")), (2, Some(&3), Some(&2), None));
    m.insert_new("b".to_string(), 9);
    m.insert_new("c".to_string(), 4);
    assert_eq!((m.len(), m.get("b"), m.get("c")), (3, Some(&2), Some(&4)));
}

#[test]
fn accepted_commands_are_clean_and_known() {
    for cmd in READONLY_COMMANDS {
        for bad in [";", "|", "&", "$", "`", ">", "<", "\n", "\"", "'", "(", "*"] {
            assert!(validate(&format!("{cmd}{bad}")).is_err() || bad == "\n", "{cmd}{bad}");
            assert!(!is_allowed(&format!("{cmd}{bad}x")), "{cmd}{bad}x");
        }
        assert!(!is_allowed(&format!("{cmd} x")), "{cmd} x");
    }
}

#[test]
fn no_argument_of_a_checked_command_is_an_option_in_disguise() {
    let cfg = SshConfig {
        host: "192.0.2.1".to_string(),
        ..SshConfig::default()
    };
    for check in all_checks() {
        assert!(cfg.preflight(check.command()).is_ok());
        let args = cfg.build_args(None, check.command());
        let n = args.len();
        assert_eq!(args[n - 2], "auditor@192.0.2.1");
        assert!(args[n - 1].ends_with(check.command()));
        assert!(!args[n - 1].starts_with('-'));
    }
}

fn finding(domain: Domain, severity: Severity, status: Status) -> Finding {
    Finding {
        id: "t",
        domain,
        title: "t",
        severity,
        status,
        detail: String::new(),
        recommendation: "",
    }
}

#[test]
fn a_failure_never_raises_the_score() {
    let severities = [
        Severity::Info,
        Severity::Low,
        Severity::Medium,
        Severity::High,
        Severity::Critical,
    ];
    for profile in [Profile::Baseline, Profile::Hardened] {
        let mut findings = Vec::new();
        let mut last = score(&findings, profile).total;
        assert_eq!(last, 100);
        for round in 0..3 {
            for severity in severities {
                findings.push(finding(Domain::Kernel, severity, Status::Fail));
                let now = score(&findings, profile).total;
                assert!(now <= last, "{profile:?} {round} {severity:?}");
                last = now;
                // What was not evaluated does not count.
                for status in [Status::Error, Status::Skipped, Status::Pass] {
                    let mut more = findings.clone();
                    more.push(finding(Domain::Kernel, severity, status));
                    assert_eq!(score(&more, profile).total, last);
                }
            }
        }
    }
}

#[test]
fn the_hardened_profile_penalizes_half_as_much_again() {
    let findings = vec![
        finding(Domain::Ssh, Severity::High, Status::Fail),
        finding(Domain::Ssh, Severity::Critical, Status::Fail),
    ];
    assert_eq!(score(&findings, Profile::Baseline).penalties, 28);
    assert_eq!(score(&findings, Profile::Hardened).penalties, 42);
}

#[test]
fn a_higher_reading_is_never_graded_better() {
    let rank = |s: HealthStatus| s.rank();
    let mut last = [0, 0, 0, 0];
    for used in 0..=100 {
        let r: Ratio = percent(used, 100);
        let now = [
            rank(percent_status(r, 85, 95)),
            rank(ratio_status(r, 85_000_000, 95_000_000)),
            rank(bound_status(r, 85_000_000, 95_000_000)),
            rank(threshold_status(used as i128, 85, 95)),
        ];
        for k in 0..4 {
            assert!(now[k] >= last[k], "{used}");
        }
        last = now;
    }
    assert_eq!(percent_status(percent(84, 100), 85, 95), HealthStatus::Okay);
    assert_eq!(percent_status(percent(85, 100), 85, 95), HealthStatus::Warn);
    assert_eq!(percent_status(percent(95, 100), 85, 95), HealthStatus::Crit);
    // A bound of zero is off.
    assert_eq!(bound_status(percent(99, 100), 0, 0), HealthStatus::Okay);
}

#[test]
fn the_worst_metric_decides_and_unknown_is_neutral() {
    let metric = |status: HealthStatus| Metric {
        id: "m",
        title: "m",
        status,
        value: String::new(),
        detail: String::new(),
        numeric: None,
    };
    let of = |s: &[HealthStatus]| worst(&s.iter().map(|x| metric(*x)).collect());
    let [okay, warn, crit, unknown] = [
        HealthStatus::Okay,
        HealthStatus::Warn,
        HealthStatus::Crit,
        HealthStatus::Unknown,
    ];
    assert_eq!(of(&[]), unknown);
    assert_eq!(of(&[unknown, unknown]), unknown);
    assert_eq!(of(&[unknown, okay, unknown]), okay);
    assert_eq!(of(&[okay, warn, unknown]), warn);
    assert_eq!(of(&[crit, warn, okay]), crit);
}

#[test]
fn grouping_loses_no_host() {
    let host = |alias: &str, status: Option<Status>| -> AuditOutcome {
        let reply = match status {
            Some(s) => Ok(vec![finding(Domain::Ssh, Severity::Low, s)]),
            None => Err("down".to_string()),
        };
        audit_outcome(alias.to_string(), reply, Profile::Baseline)
    };
    let outcomes = vec![
        host("a", Some(Status::Fail)),
        host("b", None),
        host("c", Some(Status::Pass)),
        host("d", Some(Status::Fail)),
        host("e", None),
    ];
    let groups = group_identical(&outcomes);
    let aliases: Vec<Vec<&str>> = groups
        .iter()
        .map(|g| g.aliases.iter().map(String::as_str).collect())
        .collect();
    assert_eq!(aliases, vec![vec!["a", "d"], vec!["b", "e"], vec!["c"]]);
}
