//! Jobs, annotations and group reports.

use linux_audit_mcp::anomaly::AnomalyConfig;
use linux_audit_mcp::checks::{Domain, Finding, Severity, Status};
use linux_audit_mcp::config::{Config, Group, HostVars, Target};
use linux_audit_mcp::health::{HealthReport, HealthStatus, Metric};
use linux_audit_mcp::history::Snapshot;
use linux_audit_mcp::run::annotate::{compare_report, fmt_dur};
use linux_audit_mcp::run::group::group_identical;
use linux_audit_mcp::run::{
    annotate_anomalies, annotate_changes, audit_group_text, audit_outcome, audit_profile,
    collect_ordered, health_group_text, plan_jobs, AuditOutcome, HealthOutcome,
};
use linux_audit_mcp::scoring::{score, Profile};
use linux_audit_mcp::textmap::TextMap;

/// A reading in millionths.
fn micros(x: f64) -> i64 {
    (x * 1_000_000.0).round() as i64
}

fn load_report(current: f64) -> HealthReport {
    HealthReport {
        metrics: vec![Metric {
            id: "health-load",
            title: "Load average",
            status: HealthStatus::Okay,
            value: String::new(),
            detail: String::new(),
            numeric: Some(micros(current)),
        }],
        top_cpu: vec![],
        top_mem: vec![],
        overall: HealthStatus::Okay,
        anomalies: vec![],
        anomaly_note: None,
        changes: vec![],
        container_uptimes: TextMap::new(),
        failed_units: vec![],
        event_counters: TextMap::new(),
    }
}

fn snap(ts: u64, load: f64) -> Snapshot {
    let mut m = TextMap::new();
    m.insert("health-load".to_string(), micros(load));
    Snapshot {
        ts,
        overall: HealthStatus::Okay,
        metrics: m,
        containers: TextMap::new(),
        failed_units: Vec::new(),
        event_counters: TextMap::new(),
    }
}

fn outcome(current: f64) -> Vec<HealthOutcome> {
    vec![HealthOutcome {
        alias: "web".to_string(),
        result: Ok(load_report(current)),
    }]
}

fn target(host: &str) -> Target {
    Target {
        host: host.to_string(),
        vars: HostVars::default(),
    }
}

fn config() -> Config {
    let mut targets = TextMap::new();
    targets.insert("web".to_string(), target("1.1.1.1"));
    targets.insert("db".to_string(), target("2.2.2.2"));
    Config {
        targets,
        groups: TextMap::<Group>::new(),
    }
}

#[test]
fn annotate_warms_up_then_flags_spike() {
    let cfg = config();

    // Too little history (< min_samples): a note, no anomalies.
    let mut stored: Vec<Snapshot> = (0..3).map(|i| snap(i, 0.3)).collect();
    let mut warming = outcome(9.0);
    annotate_anomalies(&cfg, &mut warming, &vec![Some(stored.clone())]);
    let r = warming[0].result.as_ref().unwrap();
    assert!(r.anomalies.is_empty());
    assert!(r.anomaly_note.as_deref().unwrap().contains("warming up"));
    assert_eq!(r.anomaly_note.as_deref(), Some("baseline warming up (3/8)"));

    // Enough stable history + a spike current reading: flagged.
    stored.extend((3..12).map(|i| snap(i, 0.3)));
    let mut hot = outcome(9.0);
    annotate_anomalies(&cfg, &mut hot, &vec![Some(stored)]);
    let r = hot[0].result.as_ref().unwrap();
    assert_eq!(r.anomalies.len(), 1);
    assert_eq!(r.anomalies[0].metric_id, "health-load");
    assert!(r.anomaly_note.is_none());
    assert_eq!(r.overall, HealthStatus::Okay);
}

#[test]
fn annotation_is_best_effort() {
    let cfg = config();
    // A history that could not be read: a note says so, and nothing else changes.
    let mut unread = outcome(9.0);
    annotate_anomalies(&cfg, &mut unread, &vec![None]);
    let r = unread[0].result.as_ref().unwrap();
    assert!(r.anomalies.is_empty());
    assert_eq!(
        r.anomaly_note.as_deref(),
        Some("baseline unavailable (history not readable)")
    );
    let untouched = load_report(9.0);
    assert_eq!(r.overall, untouched.overall);
    assert_eq!(format!("{:?}", r.metrics), format!("{:?}", untouched.metrics));

    // So does an alias that does not resolve.
    let mut stranger = outcome(9.0);
    stranger[0].alias = "nope".to_string();
    annotate_anomalies(&cfg, &mut stranger, &vec![Some(vec![])]);
    let r = stranger[0].result.as_ref().unwrap();
    assert!(r.anomalies.is_empty());
    assert_eq!(
        r.anomaly_note.as_deref(),
        Some("baseline unavailable (alias does not resolve)")
    );
    assert_eq!(r.overall, untouched.overall);

    // A host that failed stays as it is.
    let mut down = outcome(9.0);
    down[0].result = Err("timed out".to_string());
    annotate_anomalies(&cfg, &mut down, &vec![None]);
    assert_eq!(down[0].result.as_ref().unwrap_err(), "timed out");

    // Switched off: a note says so.
    let mut off = config();
    let vars = HostVars {
        anomaly: Some(AnomalyConfig {
            enabled: false,
            ..AnomalyConfig::default()
        }),
        ..HostVars::default()
    };
    let quiet = Target {
        host: "1.1.1.1".to_string(),
        vars,
    };
    off.targets.insert("web".to_string(), quiet);
    let mut disabled = outcome(9.0);
    annotate_anomalies(&off, &mut disabled, &vec![Some(vec![])]);
    let r = disabled[0].result.as_ref().unwrap();
    assert_eq!(r.anomaly_note.as_deref(), Some("anomaly detection disabled"));
}

#[test]
fn only_the_window_counts() {
    // Old readings of 9.0 are outside a window of 8, so 9.0 is a spike again.
    let cfg = AnomalyConfig {
        window: 8,
        ..AnomalyConfig::default()
    };
    let mut stored: Vec<Snapshot> = (0..20).map(|i| snap(i, 9.0)).collect();
    stored.extend((20..28).map(|i| snap(i, 0.3)));
    let mut r = load_report(9.0);
    compare_report(&mut r, &cfg, Some(&stored));
    assert_eq!(r.anomalies.len(), 1);
    assert_eq!(r.anomalies[0].median, micros(0.3));
}

fn counts(entries: &[(&str, u64)]) -> TextMap<u64> {
    let mut m = TextMap::new();
    for (k, v) in entries {
        m.insert(k.to_string(), *v);
    }
    m
}

/// A snapshot carrying container uptimes, failed units and event counters, for
/// the changes test.
fn snap_state(
    ts: u64,
    containers: &[(&str, u64)],
    failed: &[&str],
    events: &[(&str, u64)],
) -> Snapshot {
    Snapshot {
        ts,
        overall: HealthStatus::Okay,
        metrics: TextMap::new(),
        containers: counts(containers),
        failed_units: failed.iter().map(|s| s.to_string()).collect(),
        event_counters: counts(events),
    }
}

fn state_report(
    containers: &[(&str, u64)],
    failed: &[&str],
    events: &[(&str, u64)],
) -> Vec<HealthOutcome> {
    let mut r = load_report(0.3);
    r.container_uptimes = counts(containers);
    r.failed_units = failed.iter().map(|s| s.to_string()).collect();
    r.event_counters = counts(events);
    vec![HealthOutcome {
        alias: "web".to_string(),
        result: Ok(r),
    }]
}

#[test]
fn annotate_changes_flags_restart_and_new_failure() {
    // No history yet -> nothing flagged (first run is silent).
    let mut first = state_report(&[("proxy", 40)], &[], &[]);
    annotate_changes(&mut first, &vec![Some(vec![])]);
    assert!(first[0].result.as_ref().unwrap().changes.is_empty());

    // Previous run: proxy up 2 days, web up 1 hour, no failed units; conntrack
    // pressure at 100, one ext4 error already seen.
    let stored = vec![snap_state(
        1,
        &[("proxy", 172_800), ("web", 3_600)],
        &[],
        &[("conntrack table pressure", 100), ("kernel: ext4 error", 1)],
    )];

    // Now: proxy uptime dropped (restarted), web grew (fine), nginx failed;
    // conntrack pressure rose by 30, ext4 unchanged, a new block-I/O error class.
    let mut cur = state_report(
        &[("proxy", 40), ("web", 7_200)],
        &["nginx.service"],
        &[
            ("conntrack table pressure", 130),
            ("kernel: ext4 error", 1),
            ("kernel: block I/O error", 2),
        ],
    );
    annotate_changes(&mut cur, &vec![Some(stored)]);
    let changes = &cur[0].result.as_ref().unwrap().changes;
    assert_eq!(changes.len(), 4, "{changes:?}");
    assert!(changes.iter().any(|c| c.contains("proxy restarted")));
    assert!(changes
        .iter()
        .any(|c| c.contains("nginx.service newly failed")));
    // web's uptime grew, so it is not reported as restarted.
    assert!(!changes.iter().any(|c| c.contains("web restarted")));
    // Conntrack pressure rose by 30; a new event class is flagged fully; an
    // unchanged counter (ext4) is silent.
    assert!(changes
        .iter()
        .any(|c| c.contains("+30 conntrack table pressure")));
    assert!(changes
        .iter()
        .any(|c| c.contains("+2 kernel: block I/O error (new)")));
    assert!(!changes.iter().any(|c| c.contains("ext4")));
    assert_eq!(
        changes,
        &vec![
            "container proxy restarted since last check (up 40s, was up 2d)",
            "since last check: +2 kernel: block I/O error (new)",
            "since last check: +30 conntrack table pressure",
            "unit nginx.service newly failed since last check",
        ]
    );
}

#[test]
fn only_the_last_snapshot_is_compared_with() {
    let stored = vec![
        snap_state(1, &[("proxy", 90_000)], &[], &[]),
        snap_state(2, &[("proxy", 10)], &["a.service"], &[("x", 9)]),
    ];
    let mut cur = state_report(&[("proxy", 40)], &["a.service"], &[("x", 3)]);
    annotate_changes(&mut cur, &vec![Some(stored)]);
    // The uptime grew, the unit was failed already, and the counter was reset.
    assert!(cur[0].result.as_ref().unwrap().changes.is_empty());
}

#[test]
fn an_untracked_backlog_is_not_new() {
    let stored = vec![snap_state(1, &[], &[], &[])];
    let mut cur = state_report(&[], &[], &[("kernel: ext4 error", 7)]);
    annotate_changes(&mut cur, &vec![Some(stored)]);
    assert!(cur[0].result.as_ref().unwrap().changes.is_empty());
}

#[test]
fn failed_hosts_are_left_alone() {
    let mut outcomes = vec![HealthOutcome {
        alias: "web".to_string(),
        result: Err("connection failed".to_string()),
    }];
    annotate_anomalies(&config(), &mut outcomes, &vec![Some(vec![])]);
    annotate_changes(&mut outcomes, &vec![Some(vec![snap(1, 0.3)])]);
    assert_eq!(outcomes[0].result.as_ref().unwrap_err(), "connection failed");
}

#[test]
fn durations_are_coarse() {
    for (secs, text) in [
        (0, "0s"),
        (59, "59s"),
        (60, "1m"),
        (90, "1m"),
        (3_599, "59m"),
        (3_600, "1h"),
        (86_399, "23h"),
        (172_800, "2d"),
    ] {
        assert_eq!(fmt_dur(secs), text);
    }
}

#[test]
fn jobs_come_in_order_or_not_at_all() {
    let cfg = config();
    let aliases = |names: &[&str]| names.iter().map(|s| s.to_string()).collect::<Vec<_>>();
    let jobs = plan_jobs(&cfg, &aliases(&["web", "db", "web"])).unwrap();
    let hosts: Vec<(&str, &str)> = jobs
        .iter()
        .map(|j| (j.alias.as_str(), j.target.host.as_str()))
        .collect();
    assert_eq!(hosts, vec![("web", "1.1.1.1"), ("db", "2.2.2.2"), ("web", "1.1.1.1")]);

    let e = match plan_jobs(&cfg, &aliases(&["web", "nope", "gone"])) {
        Ok(_) => panic!("an unknown alias was planned"),
        Err(e) => e.text(),
    };
    assert!(e.contains("nope"), "{e}");
    assert!(plan_jobs(&cfg, &[]).unwrap().is_empty());
}

#[test]
fn the_asked_profile_wins() {
    let (b, h) = (Profile::Baseline, Profile::Hardened);
    assert_eq!(audit_profile(Some(b), Some(h)), b);
    assert_eq!(audit_profile(None, Some(h)), h);
    assert_eq!(audit_profile(None, None), b);
}

#[test]
fn replies_are_put_in_order() {
    let replies = vec![
        (2, "c".to_string()),
        (0, "a".to_string()),
        (3, "d".to_string()),
        (1, "b".to_string()),
    ];
    assert_eq!(collect_ordered(replies), vec!["a", "b", "c", "d"]);
}

fn findings(status: Status) -> Vec<Finding> {
    vec![Finding {
        id: "ssh-x",
        domain: Domain::Ssh,
        title: "t",
        severity: Severity::Low,
        status,
        detail: "d".to_string(),
        recommendation: "fix it",
    }]
}

fn audit_host(alias: &str, status: Status) -> AuditOutcome {
    audit_outcome(alias.to_string(), Ok(findings(status)), Profile::Baseline)
}

fn failed_audit(alias: &str) -> AuditOutcome {
    audit_outcome(
        alias.to_string(),
        Err("connection refused".to_string()),
        Profile::Baseline,
    )
}

#[test]
fn an_audit_is_scored() {
    let o = audit_host("web", Status::Fail);
    let (s, f) = o.result.as_ref().unwrap();
    assert_eq!(s.total, score(f, Profile::Baseline).total);
    assert_eq!(s.total, 99);
    assert_eq!(failed_audit("web").result.unwrap_err(), "connection refused");
}

#[test]
fn audit_group_text_collapses_identical_hosts() {
    // web1 and web2 are identical; web3 differs (a passing check vs a failing one).
    let outcomes = vec![
        audit_host("web1", Status::Fail),
        audit_host("web3", Status::Pass),
        audit_host("web2", Status::Fail),
    ];
    let text = audit_group_text("prod", &outcomes);
    assert!(
        text.starts_with("Audit group 'prod' (3 hosts): lowest score 99, 0 error\n"),
        "{text}"
    );
    assert!(
        text.contains("=== web1, web2 (2 hosts, identical) ===\nAudit of 'web1'"),
        "{text}"
    );
    let groups = group_identical(&outcomes);
    assert_eq!(groups.len(), 2);
    assert_eq!(groups[0].aliases, vec!["web1", "web2"]);
    assert_eq!(groups[1].aliases, vec!["web3"]);
    assert_eq!(groups[1].repr.alias, "web3");
}

#[test]
fn an_empty_group_has_no_lowest_score() {
    assert_eq!(
        audit_group_text("g", &[failed_audit("a")]),
        "Audit group 'g' (1 hosts): lowest score n/a, 1 error\n=== a [ERROR] ===\n  \
         connection refused\n"
    );
}

#[test]
fn health_group_text_counts_every_host() {
    let host = |alias: &str, overall: HealthStatus| {
        let mut r = load_report(0.3);
        r.overall = overall;
        HealthOutcome {
            alias: alias.to_string(),
            result: Ok(r),
        }
    };
    let outcomes = vec![
        host("a", HealthStatus::Okay),
        host("b", HealthStatus::Okay),
        host("c", HealthStatus::Warn),
        host("d", HealthStatus::Crit),
        host("e", HealthStatus::Unknown),
        HealthOutcome {
            alias: "f".to_string(),
            result: Err("timed out".to_string()),
        },
    ];
    let text = health_group_text("prod", &outcomes);
    assert!(
        text.starts_with("Health group 'prod' (6 hosts): 2 OK, 1 WARN, 1 CRIT, 1 error\n"),
        "{text}"
    );
    assert!(text.ends_with("=== f [ERROR] ===\n  timed out\n"), "{text}");
    let three = vec![
        host("a", HealthStatus::Okay),
        host("b", HealthStatus::Okay),
        host("c", HealthStatus::Warn),
    ];
    let text = health_group_text("prod", &three);
    let first = "Health group 'prod' (3 hosts): 2 OK, 1 WARN, 0 CRIT, 0 error\n";
    assert!(text.starts_with(first), "{text}");
}
