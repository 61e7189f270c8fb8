//! Reports as text and as JSON.

use linux_audit_mcp::audit::Outputs;
use linux_audit_mcp::checks::{Domain, Finding, Severity, Status};
use linux_audit_mcp::health::{self, Anomaly, HealthReport, HealthStatus, Thresholds};
use linux_audit_mcp::history::{self, Snapshot};
use linux_audit_mcp::json::{decimal, list_of, null, text, whole, Fields};
use linux_audit_mcp::json_text::{compact, parse, pretty, pretty_ordered, JsonError};
use linux_audit_mcp::report;
use linux_audit_mcp::report_sarif::{sarif, sarif_group};
use linux_audit_mcp::run::{
    audit_group_json, audit_group_text, health_group_json, AuditOutcome, HealthOutcome,
};
use linux_audit_mcp::scoring::{score, Profile};
use linux_audit_mcp::textmap::TextMap;
use serde_json::Value;

/// A reading in millionths.
fn micros(x: f64) -> i64 {
    (x * 1_000_000.0).round() as i64
}

fn value(json: Result<String, JsonError>) -> Value {
    serde_json::from_str(&json.unwrap()).unwrap()
}

fn texts(items: &[&str]) -> Value {
    Value::from(items.to_vec())
}

fn sample() -> HealthReport {
    let mut outputs = Outputs::new();
    for (k, v) in [
        ("uptime", "load average: 6.0, 5.0, 4.0"),
        ("nproc", "4"),
        ("df -P", "Filesystem 1024-blocks Used Available Capacity Mounted on\n/dev/sda1 100 90 10 90% /\n"),
        ("ps -eo pid,comm,pcpu,pmem --sort=-pcpu", "PID COMMAND %CPU %MEM\n1 mysqld 80.0 40.0\n"),
    ] {
        outputs.insert(k, Ok(v.to_string()));
    }
    health::evaluate(&outputs, &Thresholds::default())
}

#[test]
fn text_flags_status_and_is_not_a_score() {
    let out = health::report::text("web", &sample());
    assert!(out.contains("WARN"));
    assert!(out.contains("not a security score"));
    assert!(out.contains("top CPU:"));
    assert!(out.contains("mysqld"));
}

#[test]
fn text_renders_anomaly_section() {
    let mut r = sample();
    r.anomalies.push(Anomaly {
        metric_id: "health-load".to_string(),
        current: micros(4.0),
        median: micros(0.3),
        pct_change: micros(1233.0),
        z: Some(micros(12.5)),
    });
    let out = health::report::text("web", &r);
    assert!(out.contains("ANOMALY vs baseline (1)"));
    assert!(out.contains("health-load"));
    assert!(out.contains("z=12.5"));
}

#[test]
fn text_shows_warming_up_note_when_no_anomalies() {
    let mut r = sample();
    r.anomaly_note = Some("baseline warming up (3/8)".to_string());
    let out = health::report::text("web", &r);
    assert!(out.contains("baseline warming up (3/8)"));
}

#[test]
fn json_tags_kind_and_overall() {
    let v = value(health::report::json("web", &sample()));
    assert_eq!(v["kind"], "health");
    assert_eq!(v["target"], "web");
    assert_eq!(v["report"]["overall"], "warn");
}

#[test]
fn health_json_lists_the_readings() {
    let mut r = sample();
    r.anomalies.push(Anomaly {
        metric_id: "health-load".to_string(),
        current: micros(4.0),
        median: micros(0.3),
        pct_change: micros(1233.0),
        z: None,
    });
    let v = value(health::report::json("web", &r));
    let metrics = v["report"]["metrics"].as_array().unwrap();
    assert_eq!(metrics.len(), r.metrics.len());
    assert_eq!(metrics[0]["id"], "health-load");
    assert_eq!(metrics[0]["status"], "warn");
    // The number is kept for the history only.
    assert!(metrics[0].get("numeric").is_none());
    let cpu = &v["report"]["top_cpu"][0];
    assert_eq!(cpu["comm"], "mysqld");
    assert_eq!(cpu["cpu"], 80.0);
    // A flat history has no finite distance.
    assert_eq!(v["report"]["anomalies"][0]["z"], Value::Null);
    assert_eq!(v["report"]["anomalies"][0]["current"], 4.0);
}

fn snap(ts: u64, la: f64) -> Snapshot {
    let mut metrics = TextMap::new();
    metrics.insert("health-load".to_string(), micros(la));
    Snapshot {
        ts,
        overall: HealthStatus::Okay,
        metrics,
        containers: TextMap::new(),
        failed_units: vec!["a.service".to_string()],
        event_counters: TextMap::new(),
    }
}

#[test]
fn text_and_json_render() {
    let snaps = vec![snap(0, 0.5), snap(3600, 1.5)];
    let t = history::text("web", &snaps);
    assert!(t.contains("web"));
    assert!(t.contains("load"));
    assert!(t.contains("1970-01-01"));
    let v = value(history::json("web", &snaps));
    assert_eq!(v["kind"], "health-history");
    assert_eq!(v["count"], 2);
    assert_eq!(v["snapshots"][1]["ts"], 3600);
    assert_eq!(v["snapshots"][1]["overall"], "ok");
    assert_eq!(v["snapshots"][1]["metrics"]["health-load"], 1.5);
    assert_eq!(v["snapshots"][0]["failed_units"], texts(&["a.service"]));
}

fn finding(id: &'static str, sev: Severity, status: Status) -> Finding {
    Finding {
        id,
        domain: Domain::Ssh,
        title: "t",
        severity: sev,
        status,
        detail: "d".to_string(),
        recommendation: "r",
    }
}

#[test]
fn sarif_has_schema_and_one_result_per_fail() {
    let findings = vec![
        finding("ssh-permit-root-login", Severity::High, Status::Fail),
        finding("ssh-password-authentication", Severity::High, Status::Pass),
        finding("ssh-x11-forwarding", Severity::Low, Status::Skipped),
    ];
    let s = score(&findings, Profile::Baseline);
    let v = value(sarif("web", &s, &findings, "0.1.0"));

    assert_eq!(v["version"], "2.1.0");
    assert!(v["$schema"].is_string());
    let runs = v["runs"].as_array().unwrap();
    assert_eq!(runs.len(), 1);
    // Rules cover every check; results only the single fail.
    let rules = runs[0]["tool"]["driver"]["rules"].as_array().unwrap();
    assert_eq!(rules.len(), 3);
    let results = runs[0]["results"].as_array().unwrap();
    assert_eq!(results.len(), 1);
    assert_eq!(results[0]["ruleId"], "ssh-permit-root-login");
    assert_eq!(results[0]["level"], "error");
    assert_eq!(runs[0]["properties"]["target"], "web");
    assert_eq!(runs[0]["tool"]["driver"]["version"], "0.1.0");
}

fn audit_host(alias: &str, status: Status) -> AuditOutcome {
    let findings = vec![Finding {
        id: "ssh-x",
        domain: Domain::Ssh,
        title: "t",
        severity: Severity::Low,
        status,
        detail: "d".to_string(),
        recommendation: "fix it",
    }];
    let score = score(&findings, Profile::Baseline);
    AuditOutcome {
        alias: alias.to_string(),
        result: Ok((score, findings)),
    }
}

#[test]
fn a_sarif_log_has_a_run_for_each_audited_host() {
    let outcomes = vec![
        audit_host("web1", Status::Fail),
        AuditOutcome {
            alias: "web2".to_string(),
            result: Err("connection refused".to_string()),
        },
        audit_host("web3", Status::Pass),
    ];
    let v = value(sarif_group(&outcomes, "0.1.0"));
    let runs = v["runs"].as_array().unwrap();
    assert_eq!(runs.len(), 2);
    assert_eq!(runs[0]["properties"]["target"], "web1");
    assert_eq!(runs[1]["properties"]["target"], "web3");
    assert_eq!(runs[1]["results"].as_array().unwrap().len(), 0);
}

#[test]
fn audit_group_collapses_identical_hosts() {
    // web1 and web2 are identical; web3 differs (a passing check vs a failing one).
    let outcomes = vec![
        audit_host("web1", Status::Fail),
        audit_host("web2", Status::Fail),
        audit_host("web3", Status::Pass),
    ];

    // Text: web1+web2 collapse into one block; web3 renders separately.
    let text = audit_group_text("prod", &outcomes);
    assert!(
        text.contains("=== web1, web2 (2 hosts, identical) ==="),
        "{text}"
    );
    assert!(text.contains("=== web3 ==="), "{text}");
    // The shared findings appear once per block (twice total), not once per host.
    assert_eq!(text.matches("ssh-x").count(), 2, "{text}");

    // JSON: groups[] with merged aliases, in first-appearance order.
    let v = value(audit_group_json("prod", &outcomes));
    assert_eq!(v["kind"], "audit-group");
    let groups = v["groups"].as_array().unwrap();
    assert_eq!(groups.len(), 2);
    assert_eq!(groups[0]["aliases"], texts(&["web1", "web2"]));
    assert_eq!(groups[1]["aliases"], texts(&["web3"]));
}

#[test]
fn audit_group_errors_collapse_and_report_separately() {
    let outcomes = vec![
        AuditOutcome {
            alias: "web1".into(),
            result: Err("connection refused".into()),
        },
        AuditOutcome {
            alias: "web2".into(),
            result: Err("connection refused".into()),
        },
        audit_host("web3", Status::Fail),
    ];
    let text = audit_group_text("prod", &outcomes);
    assert!(
        text.contains("=== web1, web2 (2 hosts, identical) [ERROR] ==="),
        "{text}"
    );
    let v = value(audit_group_json("prod", &outcomes));
    let groups = v["groups"].as_array().unwrap();
    assert_eq!(groups.len(), 2);
    assert_eq!(groups[0]["aliases"], texts(&["web1", "web2"]));
    assert_eq!(groups[0]["error"], "connection refused");
}

#[test]
fn health_group_json_reports_each_host() {
    let outcomes = vec![
        HealthOutcome {
            alias: "web".to_string(),
            result: Ok(sample()),
        },
        HealthOutcome {
            alias: "db".to_string(),
            result: Err("timed out".to_string()),
        },
    ];
    let v = value(health_group_json("prod", &outcomes));
    assert_eq!(v["group"], "prod");
    assert_eq!(v["kind"], "health-group");
    assert_eq!(v["hosts"][0]["alias"], "web");
    assert_eq!(v["hosts"][0]["status"], "warn");
    assert_eq!(v["hosts"][0]["report"]["overall"], "warn");
    assert_eq!(v["hosts"][1]["error"], "timed out");
    assert!(v["hosts"][1].get("report").is_none());
}

#[test]
fn audit_json_carries_score_and_findings() {
    let findings = vec![finding("ssh-permit-root-login", Severity::High, Status::Fail)];
    let s = score(&findings, Profile::Baseline);
    let v = value(report::json("web", &s, &findings));
    assert_eq!(v["target"], "web");
    assert_eq!(v["score"]["total"], 86);
    assert_eq!(v["score"]["penalties"], 8);
    assert_eq!(v["score"]["profile"], "baseline");
    assert_eq!(v["findings"][0]["id"], "ssh-permit-root-login");
    assert_eq!(v["findings"][0]["status"], "fail");
    assert_eq!(v["findings"][0]["severity"], "high");
}

#[test]
fn audit_text_is_headed_by_the_score() {
    let findings = vec![
        finding("ssh-permit-root-login", Severity::High, Status::Fail),
        finding("ssh-x11-forwarding", Severity::Low, Status::Skipped),
    ];
    let s = score(&findings, Profile::Baseline);
    let text = report::text("web", &s, &findings);
    let lines: Vec<&str> = text.lines().collect();
    assert_eq!(
        lines[0],
        "Audit of 'web' [baseline]: score 86/100 (0 passed, 1 failed, 0 errored, 1 skipped)"
    );
    assert!(lines[1].starts_with("  domains: ssh 70, "), "{}", lines[1]);
    assert_eq!(lines[2], "  [FAIL] high     ssh-permit-root-login — d");
    assert_eq!(lines[3], "           ↳ r");
    assert_eq!(lines[4], "  [SKIP] low      ssh-x11-forwarding — d");
}

#[test]
fn values_are_written_on_one_line_or_laid_out() {
    let items = vec![null(), decimal(-1_250_000), decimal(2_000_000), decimal(1), Fields::new().close()];
    let value = Fields::new()
        .text("name", "a \"b\"\\\n\t\u{1}\u{1f}é")
        .whole("count", 3)
        .put("list", list_of(items))
        .close();
    let line = compact(&value);
    assert_eq!(
        line,
        "{\"name\":\"a \\\"b\\\"\\\\\\n\\t\\u0001\\u001fé\",\"count\":3,\
         \"list\":[null,-1.25,2.0,1e-6,{}]}"
    );
    assert_eq!(parse(&line), Some(value.clone()));
    assert_eq!(parse("{\"a\":"), None);
    assert_eq!(
        pretty(&value).unwrap(),
        serde_json::to_string_pretty(&value).unwrap()
    );
    assert!(pretty(&value).unwrap().contains("\n  \"count\": 3"));
}

#[test]
fn fields_keep_their_order_or_are_put_in_order() {
    let inner = Fields::new().whole("d", 2).whole("c", 3).close();
    let value = Fields::new().whole("b", 1).put("a", inner).close();
    assert_eq!(
        pretty(&value).unwrap(),
        "{\n  \"b\": 1,\n  \"a\": {\n    \"d\": 2,\n    \"c\": 3\n  }\n}"
    );
    assert_eq!(
        pretty_ordered(value).unwrap(),
        "{\n  \"a\": {\n    \"c\": 3,\n    \"d\": 2\n  },\n  \"b\": 1\n}"
    );
    // A name that comes twice keeps its place and gets the new value.
    let twice = Fields::new().whole("a", 1).whole("b", 2).whole("a", 3).close();
    assert_eq!(compact(&twice), "{\"a\":3,\"b\":2}");
}

#[test]
fn texts_and_numbers_are_written_as_serde_json_does() {
    for code in (0..0x80).chain([0xe9, 0x2028, 0x1f512]) {
        let s = format!("x{}y", char::from_u32(code).unwrap());
        assert_eq!(compact(&text(&s)), serde_json::to_string(&s).unwrap());
    }
    assert_eq!(compact(&whole(u64::MAX)), u64::MAX.to_string());
    for m in [0, 1, 10, 500_000, 1_000_000, -1, -2_500_000, 123_456_789, 21_000_000, i64::MIN] {
        let x = m as f64 / 1e6;
        assert_eq!(compact(&decimal(m)), serde_json::to_string(&x).unwrap());
    }
}
