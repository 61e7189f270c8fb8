//! Rendering of the operational-health snapshot: a compact text summary and
//! machine-readable JSON.
//!
//! Deliberately distinct from [`crate::report`]: there is no 0-100 score here,
//! only an overall `Ok`/`Warn`/`Crit` status, so nobody is tempted to fold
//! workload into the security score.

use super::parse::{ProcInfo, ProcInfoView};
use super::{Anomaly, AnomalyView, HealthReport, HealthReportView, HealthStatus, Metric, MetricView};
use crate::json::{
    decimal, decimal_value, each, field, group_merged, held, list, list_each, merged, null,
    object, text_list, text_list_value, text_value, whole_value, Fields, FieldsView, JsonView,
};
use crate::json_text::{laid_out, pretty, JsonError};
use crate::text::compose::{
    align_left, align_right, append_all, left_aligned, right_aligned, written,
};
use crate::text::number::{digits, format_micros, format_u64, format_usize, micros_text};
use crate::textmap::put;
use vstd::prelude::*;
use vstd::string::StringExecFns;

verus! {

pub open spec fn metric_line(m: MetricView) -> Seq<char> {
    "  ["@ + left_aligned(m.status.tag_text(), 4) + "] "@ + left_aligned(m.id, 20) + " "@ + m.value
        + " ("@ + m.detail + ")\n"@
}

/// A percentage without places after the point, and always with its sign.
pub open spec fn signed_percent(m: int) -> Seq<char> {
    if m < 0 {
        micros_text(m, 0)
    } else {
        "+"@ + micros_text(m, 0)
    }
}

pub open spec fn z_text(z: Option<i64>) -> Seq<char> {
    match z {
        Some(m) => micros_text(m as int, 1),
        None => "inf"@,
    }
}

pub open spec fn anomaly_line(a: AnomalyView) -> Seq<char> {
    "    "@ + left_aligned(a.metric_id, 20) + " "@ + micros_text(a.current as int, 2)
        + " vs median "@ + micros_text(a.median as int, 2) + " ("@ + signed_percent(
        a.pct_change as int,
    ) + "%, z="@ + z_text(a.z) + ")\n"@
}

/// The anomalies, or the note that says why there are none.
pub open spec fn anomaly_section(r: HealthReportView) -> Seq<char> {
    if r.anomalies.len() > 0 {
        "  ANOMALY vs baseline ("@ + digits(r.anomalies.len() as int) + "), informational:\n"@
            + written(r.anomalies, |a: AnomalyView| anomaly_line(a))
    } else {
        match r.anomaly_note {
            Some(note) => "  (anomaly: "@ + note + ")\n"@,
            None => ""@,
        }
    }
}

pub open spec fn process_line(share: i64, p: ProcInfoView) -> Seq<char> {
    "    "@ + right_aligned(micros_text(share as int, 1), 7) + "%  "@ + p.comm + " (pid "@ + digits(
        p.pid as int,
    ) + ")\n"@
}

/// The whole text report.
pub open spec fn health_text(target: Seq<char>, r: HealthReportView) -> Seq<char> {
    "Health of '"@ + target + "': "@ + r.overall.tag_text()
        + " (operational, not a security score)\n"@ + written(
        r.metrics,
        |m: MetricView| metric_line(m),
    ) + anomaly_section(r) + "  top CPU:\n"@ + written(
        r.top_cpu,
        |p: ProcInfoView| process_line(p.cpu, p),
    ) + "  top MEM:\n"@ + written(r.top_mem, |p: ProcInfoView| process_line(p.mem, p))
}

fn format_metric(m: &Metric) -> (r: String)
    ensures
        r@ == metric_line(m@),
{
    let mut s = "  [".to_string();
    s.append(align_left(m.status.tag(), 4).as_str());
    s.append("] ");
    s.append(align_left(m.id, 20).as_str());
    s.append(" ");
    s.append(m.value.as_str());
    s.append(" (");
    s.append(m.detail.as_str());
    s.append(")\n");
    s
}

fn format_anomaly(a: &Anomaly) -> (r: String)
    ensures
        r@ == anomaly_line(a@),
{
    let pct = if a.pct_change < 0 {
        format_micros(a.pct_change, 0)
    } else {
        let mut p = "+".to_string();
        p.append(format_micros(a.pct_change, 0).as_str());
        p
    };
    let z = match a.z {
        Some(m) => format_micros(m, 1),
        None => "inf".to_string(),
    };
    let mut s = "    ".to_string();
    s.append(align_left(a.metric_id.as_str(), 20).as_str());
    s.append(" ");
    s.append(format_micros(a.current, 2).as_str());
    s.append(" vs median ");
    s.append(format_micros(a.median, 2).as_str());
    s.append(" (");
    s.append(pct.as_str());
    s.append("%, z=");
    s.append(z.as_str());
    s.append(")\n");
    s
}

fn format_process(share: i64, p: &ProcInfo) -> (r: String)
    ensures
        r@ == process_line(share, p@),
{
    let mut s = "    ".to_string();
    s.append(align_right(format_micros(share, 1).as_str(), 7).as_str());
    s.append("%  ");
    s.append(p.comm.as_str());
    s.append(" (pid ");
    s.append(format_u64(p.pid as u64).as_str());
    s.append(")\n");
    s
}

fn format_cpu(p: &ProcInfo) -> (r: String)
    ensures
        r@ == process_line(p@.cpu, p@),
{
    format_process(p.cpu, p)
}

fn format_mem(p: &ProcInfo) -> (r: String)
    ensures
        r@ == process_line(p@.mem, p@),
{
    format_process(p.mem, p)
}

fn format_anomalies(report: &HealthReport) -> (r: String)
    ensures
        r@ == anomaly_section(report@),
{
    if report.anomalies.len() > 0 {
        let mut s = "  ANOMALY vs baseline (".to_string();
        s.append(format_usize(report.anomalies.len()).as_str());
        s.append("), informational:\n");
        append_all(
            &mut s,
            report.anomalies.as_slice(),
            format_anomaly,
            Ghost(|a: AnomalyView| anomaly_line(a)),
        );
        s
    } else {
        match &report.anomaly_note {
            Some(note) => {
                let mut s = "  (anomaly: ".to_string();
                s.append(note.as_str());
                s.append(")\n");
                s
            },
            None => "".to_string(),
        }
    }
}

/// Human-readable snapshot: headline status, per-metric lines, hot processes.
pub fn text(target: &str, report: &HealthReport) -> (r: String)
    ensures
        r@ == health_text(target@, report@),
{
    let mut out = "Health of '".to_string();
    out.append(target);
    out.append("': ");
    out.append(report.overall.tag());
    out.append(" (operational, not a security score)\n");
    append_all(
        &mut out,
        report.metrics.as_slice(),
        format_metric,
        Ghost(|m: MetricView| metric_line(m)),
    );
    out.append(format_anomalies(report).as_str());
    out.append("  top CPU:\n");
    append_all(
        &mut out,
        report.top_cpu.as_slice(),
        format_cpu,
        Ghost(|p: ProcInfoView| process_line(p.cpu, p)),
    );
    out.append("  top MEM:\n");
    append_all(
        &mut out,
        report.top_mem.as_slice(),
        format_mem,
        Ghost(|p: ProcInfoView| process_line(p.mem, p)),
    );
    out
}

pub open spec fn status_name(s: HealthStatus) -> Seq<char> {
    match s {
        HealthStatus::Okay => "ok"@,
        HealthStatus::Warn => "warn"@,
        HealthStatus::Crit => "crit"@,
        HealthStatus::Unknown => "unknown"@,
    }
}

pub fn status_text(s: HealthStatus) -> (r: &'static str)
    ensures
        r@ == status_name(s),
{
    match s {
        HealthStatus::Okay => "ok",
        HealthStatus::Warn => "warn",
        HealthStatus::Crit => "crit",
        HealthStatus::Unknown => "unknown",
    }
}

pub open spec fn metric_json(m: MetricView) -> JsonView {
    object(
        field("id"@, text_value(m.id)) + field("title"@, text_value(m.title)) + field(
            "status"@,
            text_value(status_name(m.status)),
        ) + field("value"@, text_value(m.value)) + field("detail"@, text_value(m.detail)),
    )
}

pub open spec fn process_json(p: ProcInfoView) -> JsonView {
    object(
        field("pid"@, whole_value(p.pid as int)) + field("comm"@, text_value(p.comm)) + field(
            "cpu"@,
            decimal_value(p.cpu),
        ) + field("mem"@, decimal_value(p.mem)),
    )
}

/// An infinite z-score is null.
pub open spec fn anomaly_json(a: AnomalyView) -> JsonView {
    object(
        field("metric_id"@, text_value(a.metric_id)) + field(
            "current"@,
            decimal_value(a.current),
        ) + field("median"@, decimal_value(a.median)) + field(
            "pct_change"@,
            decimal_value(a.pct_change),
        ) + field(
            "z"@,
            match a.z {
                Some(z) => decimal_value(z),
                None => JsonView::Null,
            },
        ),
    )
}

/// The readings and the hot processes.
pub open spec fn measured_fields(r: HealthReportView) -> FieldsView {
    field("metrics"@, list(each(r.metrics, |m: MetricView| metric_json(m)))) + field(
        "top_cpu"@,
        list(each(r.top_cpu, |p: ProcInfoView| process_json(p))),
    ) + field("top_mem"@, list(each(r.top_mem, |p: ProcInfoView| process_json(p)))) + field(
        "overall"@,
        text_value(status_name(r.overall)),
    )
}

/// The anomalies, where there are any.
pub open spec fn anomaly_fields(r: HealthReportView) -> FieldsView {
    if r.anomalies.len() > 0 {
        field("anomalies"@, list(each(r.anomalies, |a: AnomalyView| anomaly_json(a))))
    } else {
        Seq::empty()
    }
}

/// The note, where there is one.
pub open spec fn note_fields(r: HealthReportView) -> FieldsView {
    match r.anomaly_note {
        Some(note) => field("anomaly_note"@, text_value(note)),
        None => Seq::empty(),
    }
}

/// The changes, where there are any.
pub open spec fn change_fields(r: HealthReportView) -> FieldsView {
    if r.changes.len() > 0 {
        field("changes"@, text_list_value(r.changes))
    } else {
        Seq::empty()
    }
}

/// The anomalies, the note and the changes; what is empty is left out.
pub open spec fn noted_fields(r: HealthReportView) -> FieldsView {
    anomaly_fields(r) + note_fields(r) + change_fields(r)
}

/// The report; what is empty is left out.
pub open spec fn report_json(r: HealthReportView) -> JsonView {
    object(measured_fields(r) + noted_fields(r))
}

/// `{ target, kind: "health", report }`.
pub open spec fn health_json(target: Seq<char>, r: HealthReportView) -> JsonView {
    object(
        field("target"@, text_value(target)) + field("kind"@, text_value("health"@)) + field(
            "report"@,
            report_json(r),
        ),
    )
}

fn metric_document(m: &Metric) -> (r: serde_json::Value)
    ensures
        held(r) == metric_json(m@),
{
    broadcast use group_merged;

    Fields::new().text("id", m.id).text("title", m.title).text(
        "status",
        status_text(m.status),
    ).text("value", m.value.as_str()).text("detail", m.detail.as_str()).close()
}

fn process_document(p: &ProcInfo) -> (r: serde_json::Value)
    ensures
        held(r) == process_json(p@),
{
    broadcast use group_merged;

    Fields::new().whole("pid", p.pid as u64).text("comm", p.comm.as_str()).decimal(
        "cpu",
        p.cpu,
    ).decimal("mem", p.mem).close()
}

fn anomaly_document(a: &Anomaly) -> (r: serde_json::Value)
    ensures
        held(r) == anomaly_json(a@),
{
    broadcast use group_merged;

    let z = match a.z {
        Some(z) => decimal(z),
        None => null(),
    };
    Fields::new().text("metric_id", a.metric_id.as_str()).decimal("current", a.current).decimal(
        "median",
        a.median,
    ).decimal("pct_change", a.pct_change).put("z", z).close()
}

/// The report itself.
pub fn report_document(r: &HealthReport) -> (v: serde_json::Value)
    ensures
        held(v) == report_json(r@),
{
    broadcast use group_merged;

    let metrics = list_each(
        r.metrics.as_slice(),
        metric_document,
        Ghost(|m: MetricView| metric_json(m)),
    );
    let cpu = list_each(
        r.top_cpu.as_slice(),
        process_document,
        Ghost(|p: ProcInfoView| process_json(p)),
    );
    let mem = list_each(
        r.top_mem.as_slice(),
        process_document,
        Ghost(|p: ProcInfoView| process_json(p)),
    );
    let ghost measured = measured_fields(r@);
    let measures = Fields::new().put("metrics", metrics).put("top_cpu", cpu).put(
        "top_mem",
        mem,
    ).text("overall", status_text(r.overall));
    let ghost empty = FieldsView::empty();
    assert(measures@ == merged(empty, measured));
    let ghost a = anomaly_fields(r@);
    let with_anomalies = if r.anomalies.len() > 0 {
        let found = list_each(
            r.anomalies.as_slice(),
            anomaly_document,
            Ghost(|a: AnomalyView| anomaly_json(a)),
        );
        measures.put("anomalies", found)
    } else {
        measures
    };
    proof {
        lemma_optional_field(measured, a);
    }
    assert(with_anomalies@ == merged(empty, measured + a));
    let ghost b = note_fields(r@);
    let with_note = match &r.anomaly_note {
        Some(note) => with_anomalies.text("anomaly_note", note.as_str()),
        None => with_anomalies,
    };
    proof {
        lemma_optional_field(measured + a, b);
    }
    assert(with_note@ == merged(empty, measured + a + b));
    let ghost c = change_fields(r@);
    let all = if r.changes.len() > 0 {
        with_note.put("changes", text_list(&r.changes))
    } else {
        with_note
    };
    proof {
        lemma_optional_field(measured + a + b, c);
        assert(measured + a + b + c == measured + noted_fields(r@));
    }
    all.close()
}

/// At most one field more: it is put into those before it, or nothing changes.
proof fn lemma_optional_field(fields: FieldsView, more: FieldsView)
    requires
        more.len() <= 1,
    ensures
        merged(FieldsView::empty(), fields + more) == if more.len() == 0 {
            merged(FieldsView::empty(), fields)
        } else {
            put(merged(FieldsView::empty(), fields), more[0].0, more[0].1)
        },
{
    if more.len() == 0 {
        assert(fields + more == fields);
    } else {
        assert((fields + more).drop_last() == fields);
    }
}

/// The JSON report: `{ target, kind: "health", report }`.
pub fn document(target: &str, report: &HealthReport) -> (r: serde_json::Value)
    ensures
        held(r) == health_json(target@, report@),
{
    broadcast use group_merged;

    Fields::new().text("target", target).text("kind", "health").put(
        "report",
        report_document(report),
    ).close()
}

/// Machine-readable JSON: `{ target, kind: "health", report }`.
pub fn json(target: &str, report: &HealthReport) -> (r: Result<String, JsonError>)
    ensures
        r is Ok,
        r->Ok_0@ == laid_out(health_json(target@, report@)),
{
    pretty(&document(target, report))
}

} // verus!
