//! Snapshots, their files and their listing.

use linux_audit_mcp::audit::Outputs;
use linux_audit_mcp::health::{evaluate, HealthStatus, Thresholds};
use linux_audit_mcp::history::{
    file_name, fmt_utc, history_lines, max_snapshots, recent, safe_alias, short_id, snapshot_line,
    text, trim_history, Snapshot, DEFAULT_MAX,
};
use linux_audit_mcp::snapshot_text::{read_history, read_line};
use linux_audit_mcp::textmap::TextMap;

/// A reading in millionths.
fn micros(x: f64) -> i64 {
    (x * 1_000_000.0).round() as i64
}

fn snap(ts: u64, la: f64) -> Snapshot {
    let mut metrics = TextMap::new();
    metrics.insert("health-load".to_string(), micros(la));
    Snapshot {
        ts,
        overall: HealthStatus::Okay,
        metrics,
        containers: TextMap::new(),
        failed_units: Vec::new(),
        event_counters: TextMap::new(),
    }
}

/// Appends an entry to a history file, then cuts the file down.
fn append(file: &mut String, line: &str, max: usize) {
    file.push_str(line);
    file.push('\n');
    if let Some(cut) = trim_history(file, max) {
        *file = cut;
    }
}

/// The time of an entry.
fn ts(line: &String) -> Option<u64> {
    let v: serde_json::Value = serde_json::from_str(line).ok()?;
    v["ts"].as_u64()
}

#[test]
fn what_is_recorded_is_read_back_under_both_limits() {
    for max in [0, 1, 3, 5, 9] {
        for limit in [0, 1, 2, 4, 9] {
            let mut file = String::new();
            for i in 0..6 {
                append(&mut file, &snapshot_line(&snap(i, 0.5)), max);
            }
            let read: Vec<u64> = read_history(&file, limit).iter().map(|s| s.ts).collect();
            let kept = [max, limit, 6].into_iter().filter(|&n| n > 0).min().unwrap() as u64;
            assert_eq!(read, (6 - kept..6).collect::<Vec<u64>>(), "{max} {limit}");
        }
    }
}

#[test]
fn a_line_gives_back_its_snapshot() {
    let mut s = snap(7, 0.5);
    s.overall = HealthStatus::Crit;
    s.metrics.insert("health-disk".to_string(), micros(91.25));
    s.metrics.insert("health-a".to_string(), -3);
    s.metrics.insert("health-net".to_string(), 1_250_000_000_000_000);
    s.containers.insert("web".to_string(), u64::MAX);
    s.containers.insert("db".to_string(), 0);
    s.failed_units.push("a\nb \u{1f512}\"\\".to_string());
    s.event_counters.insert("kernel: x".to_string(), 4);
    let line = snapshot_line(&s);
    // The entries of the maps stand in the order of their keys.
    assert_eq!(
        line,
        "{\"ts\":7,\"overall\":\"crit\",\"metrics\":{\"health-a\":-3e-6,\"health-disk\":91.25,\
         \"health-load\":0.5,\"health-net\":1250000000.0},\"containers\":{\"db\":0,\
         \"web\":18446744073709551615},\"failed_units\":[\"a\\nb \u{1f512}\\\"\\\\\"],\
         \"event_counters\":{\"kernel: x\":4}}"
    );
    let back = read_line(&line).unwrap();
    assert_eq!((back.ts, back.overall), (s.ts, s.overall));
    assert_eq!(back.failed_units, s.failed_units);
    for (k, v) in &s.metrics.entries {
        assert_eq!(back.metrics.get(k), Some(v), "{k}");
    }
    for (k, v) in &s.containers.entries {
        assert_eq!(back.containers.get(k), Some(v), "{k}");
    }
    assert_eq!(back.event_counters.entries, s.event_counters.entries);
    let keys: Vec<&str> = back.metrics.entries.iter().map(|e| e.0.as_str()).collect();
    assert_eq!(keys, ["health-a", "health-disk", "health-load", "health-net"]);
    assert_eq!(snapshot_line(&back), line);
}

#[test]
fn a_line_may_lack_what_is_empty() {
    let bare = read_line("{\"overall\":\"ok\",\"ts\":5,\"more\":[1]}").unwrap();
    assert_eq!((bare.ts, bare.overall), (5, HealthStatus::Okay));
    assert!(bare.metrics.is_empty() && bare.containers.is_empty());
    assert!(bare.failed_units.is_empty() && bare.event_counters.is_empty());
    let metrics = read_line("{\"ts\":5,\"overall\":\"warn\",\"metrics\":{\"a\":2,\"b\":1.5e1}}");
    assert_eq!(
        metrics.unwrap().metrics.entries,
        [("a".to_string(), 2_000_000), ("b".to_string(), 15_000_000)]
    );
    for bad in [
        "", "[]", "not json", "{}", "{\"ts\":5}", "{\"overall\":\"ok\"}",
        "{\"ts\":5.0,\"overall\":\"ok\"}", "{\"ts\":-5,\"overall\":\"ok\"}",
        "{\"ts\":5,\"overall\":\"fine\"}", "{\"ts\":5,\"overall\":\"ok\",\"metrics\":null}",
        "{\"ts\":5,\"overall\":\"ok\",\"metrics\":{\"a\":\"1\"}}",
        "{\"ts\":5,\"overall\":\"ok\",\"failed_units\":[1]}",
        "{\"ts\":5,\"overall\":\"ok\",\"containers\":{\"a\":1.5}}",
    ] {
        assert!(read_line(bad).is_none(), "{bad}");
    }
}

#[test]
fn a_snapshot_is_one_line_whatever_its_texts_hold() {
    let mut s = snap(1, 0.5);
    s.failed_units.push("a\nb\r\u{1}\"\\".to_string());
    let line = snapshot_line(&s);
    assert!(line.chars().all(|c| c >= ' '));
    assert_eq!(history_lines(&format!("{line}\n")), [line]);
}

#[test]
fn times_are_in_the_order_of_their_texts() {
    let times = [
        0, 1, 59, 60, 3_599, 3_600, 86_399, 86_400, 951_782_399, 951_782_400, 951_868_800,
        1_709_164_800, 1_709_251_199, 4_102_444_799, 4_102_444_800, 253_402_300_799,
    ];
    for pair in times.windows(2) {
        assert!(fmt_utc(pair[0]) < fmt_utc(pair[1]), "{pair:?}");
    }
    assert_eq!(fmt_utc(253_402_300_799), "9999-12-31 23:59:59Z");
}

#[test]
fn round_trips_and_preserves_order() {
    let mut file = String::new();
    for i in 0..3 {
        append(&mut file, &snapshot_line(&snap(1000 + i, i as f64)), 0);
    }
    let got: Vec<u64> = read_history(&file, 0).iter().map(|s| s.ts).collect();
    assert_eq!(got.len(), 3);
    assert_eq!(got[0], 1000);
    assert_eq!(got[2], 1002);
}

#[test]
fn skips_malformed_lines() {
    let mut file = String::new();
    append(&mut file, &snapshot_line(&snap(1, 0.0)), 0);
    append(&mut file, "not json", 0);
    append(&mut file, &snapshot_line(&snap(2, 0.0)), 0);
    let got = read_history(&file, 100);
    assert_eq!(got.len(), 2); // the junk line is skipped, the two snapshots survive
}

#[test]
fn a_snapshot_is_one_line_whatever_it_holds() {
    let mut s = snap(7, 0.5);
    s.failed_units.push("a\nb\r\n".to_string());
    s.containers.insert("c\"d".to_string(), 40);
    let line = snapshot_line(&s);
    assert_eq!(
        line,
        "{\"ts\":7,\"overall\":\"ok\",\"metrics\":{\"health-load\":0.5},\
         \"containers\":{\"c\\\"d\":40},\"failed_units\":[\"a\\nb\\r\\n\"],\
         \"event_counters\":{}}"
    );
    assert_eq!(history_lines(&format!("{line}\n")), vec![line]);
}

#[test]
fn retention_keeps_newest() {
    let mut file = String::new();
    for i in 0..10 {
        append(&mut file, &snapshot_line(&snap(i, i as f64)), 3);
    }
    let got: Vec<u64> = read_history(&file, 0).iter().map(|s| s.ts).collect();
    assert_eq!(got.len(), 3);
    assert_eq!(got[0], 7);
    assert_eq!(got[2], 9);
    // Nothing has to go.
    assert_eq!(trim_history("7\n8\n", 3), None);
    assert_eq!(trim_history("7\n8\n", 0), None);
    assert_eq!(trim_history("6\n\n7\n8", 2).as_deref(), Some("7\n8\n"));
}

#[test]
fn read_limit_returns_newest() {
    let all = || (0..10).map(|i| snap(i, 0.0)).collect::<Vec<_>>();
    let got = recent(all(), 2);
    assert_eq!(got.len(), 2);
    assert_eq!(got[0].ts, 8);
    assert_eq!(got[1].ts, 9);
    assert_eq!(recent(all(), 0).len(), 10);
    assert_eq!(recent(all(), 100)[0].ts, 0);
}

#[test]
fn an_empty_file_has_no_entries() {
    assert!(history_lines("").is_empty());
    assert!(history_lines("\n  \n").is_empty());
}

#[test]
fn rejects_unsafe_alias() {
    for alias in ["../evil", "a/b", "..", ".", "", "a b", "ä"] {
        let e = safe_alias(alias).unwrap_err();
        assert_eq!(
            e,
            format!("alias {alias:?} is not a safe history filename (allowed: A-Z a-z 0-9 . _ -)")
        );
        assert_eq!(file_name(alias).unwrap_err(), e);
    }
    assert!(safe_alias("ok.host_1-2").is_ok());
    assert_eq!(file_name("ok.host_1-2").unwrap(), "ok.host_1-2.jsonl");
}

#[test]
fn the_cap_is_configurable() {
    assert_eq!(DEFAULT_MAX, 1000);
    assert_eq!(max_snapshots(None), 1000);
    assert_eq!(max_snapshots(Some("12")), 12);
    assert_eq!(max_snapshots(Some("0")), 0);
    assert_eq!(max_snapshots(Some("+7")), 7);
    assert_eq!(max_snapshots(Some("many")), 1000);
    assert_eq!(max_snapshots(Some("99999999999999999999")), 1000);
}

#[test]
fn from_report_extracts_numerics() {
    let mut outputs = Outputs::new();
    outputs.insert("uptime", Ok("load average: 2.0, 1.0, 1.0".to_string()));
    outputs.insert("nproc", Ok("2".to_string()));
    let report = evaluate(&outputs, &Thresholds::default());
    let s = Snapshot::from_report(&report, 42);
    assert_eq!(s.ts, 42);
    assert_eq!(s.metrics.get("health-load"), Some(&micros(1.0))); // 2.0 over 2 cores
    assert!(!s.metrics.contains_key("health-disk")); // unknown -> absent
}

#[test]
fn fmt_utc_known_epochs() {
    assert_eq!(fmt_utc(0), "1970-01-01 00:00:00Z");
    // 2021-07-19 12:00:00 UTC
    assert_eq!(fmt_utc(1_626_696_000), "2021-07-19 12:00:00Z");
}

#[test]
fn fmt_utc_around_leap_days() {
    assert_eq!(fmt_utc(951_782_399), "2000-02-28 23:59:59Z");
    assert_eq!(fmt_utc(951_782_400), "2000-02-29 00:00:00Z");
    assert_eq!(fmt_utc(951_868_800), "2000-03-01 00:00:00Z");
    // 2100 is no leap year.
    assert_eq!(fmt_utc(4_107_542_399), "2100-02-28 23:59:59Z");
    assert_eq!(fmt_utc(4_107_542_400), "2100-03-01 00:00:00Z");
}

#[test]
fn text_lists_every_snapshot() {
    let snaps = vec![snap(0, 0.5), snap(3600, 1.5)];
    let t = text("web", &snaps);
    assert_eq!(
        t,
        "Health history of 'web' (2 snapshot(s), operational, not a security score):\n  \
         time (UTC)           stat            load\n  \
         1970-01-01 00:00:00Z OK              0.50\n  \
         1970-01-01 01:00:00Z OK              1.50\n"
    );
}

#[test]
fn columns_are_the_sorted_union() {
    let mut a = snap(0, 0.5);
    a.metrics.insert("health-disk".to_string(), micros(21.0));
    let mut b = snap(1, 0.25);
    b.metrics.insert("other".to_string(), micros(-3.0));
    let t = text("web", &[a, b]);
    let lines: Vec<&str> = t.lines().collect();
    let columns: Vec<&str> = lines[1].split_whitespace().skip(3).collect();
    assert_eq!(columns, vec!["disk", "load", "other"]);
    let first: Vec<&str> = lines[2].split_whitespace().skip(3).collect();
    assert_eq!(first, vec!["21.00", "0.50", "-"]);
    let second: Vec<&str> = lines[3].split_whitespace().skip(3).collect();
    assert_eq!(second, vec!["-", "0.25", "-3.00"]);
}

#[test]
fn short_ids() {
    assert_eq!(short_id("health-load"), "load");
    assert_eq!(short_id("load"), "load");
    assert_eq!(short_id("health-"), "");
}

#[test]
fn empty_history_text_is_clear() {
    assert!(text("web", &[]).contains("No health history"));
    assert_eq!(text("web", &[]), "No health history recorded for 'web'.\n");
}
