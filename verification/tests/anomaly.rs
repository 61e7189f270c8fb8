//! Deviations from a host's own norm.

use linux_audit_mcp::anomaly::{baseline_of, detect, median, AnomalyConfig};
use linux_audit_mcp::health::{HealthReport, HealthStatus, Metric};
use linux_audit_mcp::history::Snapshot;
use linux_audit_mcp::textmap::TextMap;

/// A reading in millionths.
fn micros(x: f64) -> i64 {
    (x * 1_000_000.0).round() as i64
}

fn all_micros(values: &[f64]) -> Vec<i64> {
    values.iter().map(|x| micros(*x)).collect()
}


fn metric(id: &'static str, value: f64) -> Metric {
    Metric {
        id,
        title: id,
        status: HealthStatus::Okay,
        value: String::new(),
        detail: String::new(),
        numeric: Some(micros(value)),
    }
}

fn report(metrics: Vec<Metric>) -> HealthReport {
    HealthReport {
        metrics,
        top_cpu: Vec::new(),
        top_mem: Vec::new(),
        overall: HealthStatus::Okay,
        anomalies: Vec::new(),
        anomaly_note: None,
        changes: Vec::new(),
        container_uptimes: TextMap::new(),
        failed_units: Vec::new(),
        event_counters: TextMap::new(),
    }
}

/// History of `n` snapshots each holding `id -> value`.
fn history(id: &str, values: &[f64]) -> Vec<Snapshot> {
    values
        .iter()
        .enumerate()
        .map(|(i, v)| {
            let mut m = TextMap::new();
            m.insert(id.to_string(), micros(*v));
            Snapshot {
                ts: i as u64,
                overall: HealthStatus::Okay,
                metrics: m,
                containers: TextMap::new(),
                failed_units: Vec::new(),
                event_counters: TextMap::new(),
            }
        })
        .collect()
}

#[test]
fn median_odd_and_even() {
    assert_eq!(median(&all_micros(&[3.0, 1.0, 2.0])), micros(2.0));
    assert_eq!(median(&all_micros(&[1.0, 2.0, 3.0, 4.0])), micros(2.5));
    assert_eq!(median(&[]), micros(0.0));
}

#[test]
fn an_even_median_is_exact() {
    let b = baseline_of(&[1, 2]);
    assert_eq!((b.twice_median, b.four_mads), (3, 2));
    // Rounded to millionths, a tie goes to the even one.
    assert_eq!((b.median, b.mad), (2, 0));
    assert_eq!(median(&[2, 3]), 2);
    assert_eq!(median(&[-2, -3]), -2);
    assert_eq!(median(&[-1, -2]), -2);
    assert_eq!(median(&[i64::MIN, i64::MIN]), i64::MIN);
    assert_eq!(median(&[i64::MAX, i64::MAX]), i64::MAX);
    let b = baseline_of(&[0, 1, 4, 9]);
    assert_eq!((b.twice_median, b.four_mads), (5, 8));
}

#[test]
fn baseline_median_and_mad() {
    // values 1..=9: median 5; |dev| = {4,3,2,1,0,1,2,3,4}; median of that = 2.
    let b = baseline_of(&all_micros(&[1., 2., 3., 4., 5., 6., 7., 8., 9.]));
    assert_eq!(b.median, micros(5.0));
    assert_eq!(b.mad, micros(2.0) as u64);
    assert_eq!(b.n, 9);
}

#[test]
fn spike_over_stable_history_is_flagged() {
    // 12 readings around 0.30, current 2.50 -> clear anomaly.
    let hist = history("health-load", &[0.30; 12]);
    let r = report(vec![metric("health-load", 2.50)]);
    let a = detect(&r, &hist, &AnomalyConfig::default());
    assert_eq!(a.len(), 1);
    assert_eq!(a[0].metric_id, "health-load");
    assert!(a[0].pct_change > micros(100.0));
}

#[test]
fn value_within_noisy_range_is_not_flagged() {
    let hist = history(
        "health-load",
        &[0.2, 0.4, 0.3, 0.5, 0.1, 0.35, 0.25, 0.45, 0.3, 0.4],
    );
    let r = report(vec![metric("health-load", 0.38)]); // ordinary
    assert!(detect(&r, &hist, &AnomalyConfig::default()).is_empty());
}

#[test]
fn flat_history_small_change_is_immaterial() {
    // disk pinned at 21%: MAD 0. 22% is only ~5% > baseline < 15% floor -> quiet.
    let hist = history("health-disk", &[21.0; 10]);
    let small = report(vec![metric("health-disk", 22.0)]);
    assert!(detect(&small, &hist, &AnomalyConfig::default()).is_empty());
    // 30% is +43% > floor and z is infinite -> flagged.
    let big = report(vec![metric("health-disk", 30.0)]);
    assert_eq!(detect(&big, &hist, &AnomalyConfig::default()).len(), 1);
}

#[test]
fn short_history_is_skipped() {
    let hist = history("health-load", &[0.3; 5]); // < min_samples (8)
    let r = report(vec![metric("health-load", 9.0)]);
    assert!(detect(&r, &hist, &AnomalyConfig::default()).is_empty());
}

#[test]
fn disabled_detects_nothing() {
    let hist = history("health-load", &[0.3; 20]);
    let r = report(vec![metric("health-load", 9.0)]);
    let cfg = AnomalyConfig {
        enabled: false,
        ..AnomalyConfig::default()
    };
    assert!(detect(&r, &hist, &cfg).is_empty());
}

#[test]
fn metric_absent_from_history_is_skipped() {
    // current has net-throughput, history only has load -> no series, no panic.
    let hist = history("health-load", &[0.3; 12]);
    let r = report(vec![metric("health-net-throughput", 500.0)]);
    assert!(detect(&r, &hist, &AnomalyConfig::default()).is_empty());
}

#[test]
fn defaults_are_the_documented_ones() {
    let cfg = AnomalyConfig::default();
    assert!(cfg.enabled);
    assert_eq!(cfg.k, micros(3.5));
    assert_eq!(cfg.rel_floor, micros(0.15));
    assert_eq!(cfg.min_samples, 8);
    assert_eq!(cfg.window, 100);
}

#[test]
fn a_spike_is_measured_exactly() {
    // Median 0.30, every deviation 0: the change is (2.50 - 0.30) / 0.30, about +733.33%.
    let hist = history("health-load", &[0.30; 12]);
    let r = report(vec![metric("health-load", 2.50)]);
    let a = detect(&r, &hist, &AnomalyConfig::default());
    assert_eq!(a[0].current, micros(2.5));
    assert_eq!(a[0].median, micros(0.3));
    assert_eq!(a[0].z, None);
    assert!((a[0].pct_change - micros(733.333333)).abs() <= micros(0.001), "{}", a[0].pct_change);
}

#[test]
fn a_transient_spike_in_the_history_does_not_move_the_norm() {
    let mut values = [0.30; 12];
    values[3] = 50.0;
    let hist = history("health-load", &values);
    let normal = report(vec![metric("health-load", 0.30)]);
    assert!(detect(&normal, &hist, &AnomalyConfig::default()).is_empty());
    let hot = report(vec![metric("health-load", 2.50)]);
    assert_eq!(detect(&hot, &hist, &AnomalyConfig::default())[0].median, micros(0.3));
}

#[test]
fn a_metric_without_a_number_is_not_judged() {
    let hist = history("health-load", &[0.3; 12]);
    let mut m = metric("health-load", 9.0);
    m.numeric = None;
    assert!(detect(&report(vec![m]), &hist, &AnomalyConfig::default()).is_empty());
}
