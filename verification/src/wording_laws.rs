//! How histories, groups and refusals are worded, what a request selects, and what a report
//! document holds.

use crate::anomaly::default_anomaly_config;
use crate::audit::{collected, result_of, CmdOutputView, OutputsView};
use crate::calendar::utc;
use crate::catalog::{catalog_error_text, CatalogErrorView};
use crate::checks::{AnyCheck, Check, FindingView};
use crate::cli::{
    audit_output, health_output, history_output, profile_asked, selected, Format, RenderedView,
    SelectErrorView,
};
use crate::config::{config_error_text, ConfigErrorView, ConfigView};
use crate::health::{AnomalyView, HealthReportView, MetricView};
use crate::health::parse::ProcInfoView;
use crate::health::report::{
    anomaly_json, health_text, metric_json, process_json, report_json, status_name,
};
use crate::history::{
    columns, file_safe, history_row, history_text, short_name, value_cell, SnapshotView,
};
use crate::json::{each, field, list, text_list_value, text_value};
use crate::report::audit_text;
use crate::report_laws::{lemma_member, member};
use crate::run::{AuditOutcomeView, HealthOutcomeView};
use crate::run::annotate::warming_up;
use crate::run::group::{
    audit_block, audit_group, health_block, health_group, health_headline, hosts_label,
    HostGroupView,
};
use crate::scoring::{profile_named, Profile, ScoreView};
use crate::ssh::{ssh_error_text, SshErrorView};
use crate::text::chars::lowercase;
use crate::text::compose::{joined, left_aligned, right_aligned, written};
use crate::text::debug::{quoted, quoted_char};
use crate::text::number::{digits, micros_text, signed_digits};
use crate::text::path::{components, names_something, same_path};
use crate::text::search::{index_of, lemma_first_at, lemma_index_of, starts_with};
use crate::text::split::{fields, words};
use crate::textmap::lookup;
use vstd::prelude::*;

verus! {

/// An anomaly stands out by three and a half scaled deviations and fifteen percent, against at
/// least eight and at most a hundred snapshots, unless the host says otherwise.
pub proof fn law_default_comparison()
    ensures
        default_anomaly_config().enabled,
        default_anomaly_config().k == 3_500_000,
        default_anomaly_config().rel_floor == 150_000,
        default_anomaly_config().min_samples == 8,
        default_anomaly_config().window == 100,
{
}

/// A profile is named in small or capital letters alike, and nothing else names one.
pub proof fn law_profiles_are_named(s: Seq<char>)
    ensures
        profile_named(s) == Some(Profile::Baseline) <==> lowercase(s) == "baseline"@,
        profile_named(s) == Some(Profile::Hardened) <==> lowercase(s) == "hardened"@,
        profile_asked(None) == Ok::<Option<Profile>, Seq<char>>(None),
        profile_asked(Some(s)) == match profile_named(s) {
            Some(p) => Ok(Some(p)),
            None => Err("unknown profile "@ + quoted(s)),
        },
{
    reveal_strlit("baseline");
    reveal_strlit("hardened");
    assert("baseline"@[0] == 'b' && "hardened"@[0] == 'h');
}

/// A request selects the one host that it names, or the members of the group that it names; one
/// that names neither or both is refused.
pub proof fn law_selection(c: ConfigView, target: Seq<char>, group: Seq<char>)
    ensures
        selected(c, Some(target), None) == Ok::<
            (Seq<Seq<char>>, Option<Seq<char>>),
            SelectErrorView,
        >((seq![target], None)),
        crate::config::membership(c, group) matches Ok(m) ==> selected(c, None, Some(group)) == Ok::<
            (Seq<Seq<char>>, Option<Seq<char>>),
            SelectErrorView,
        >((m, Some(group))),
        crate::config::membership(c, group) matches Err(e) ==> selected(c, None, Some(group))
            == Err::<(Seq<Seq<char>>, Option<Seq<char>>), SelectErrorView>(
            SelectErrorView::Config(e),
        ),
        selected(c, None, None) == Err::<(Seq<Seq<char>>, Option<Seq<char>>), SelectErrorView>(
            SelectErrorView::Neither,
        ),
        selected(c, Some(target), Some(group)) == Err::<
            (Seq<Seq<char>>, Option<Seq<char>>),
            SelectErrorView,
        >(SelectErrorView::Both),
{
}

/// What all metrics have in front of their names is left out of a history's columns.
pub proof fn law_columns_are_short(id: Seq<char>, rest: Seq<char>)
    ensures
        short_name("health-"@ + rest) == rest,
        !starts_with(id, "health-"@) ==> short_name(id) == id,
{
    let n = "health-"@.len() as int;
    let s = "health-"@ + rest;
    assert(s.take(n) =~= "health-"@);
    assert(s.skip(n) =~= rest);
}

/// A history in words: a heading, and a line for each snapshot with its time, its status and the
/// value of every metric, or a dash.
pub proof fn law_history_wording(
    alias: Seq<char>,
    snaps: Seq<SnapshotView>,
    s: SnapshotView,
    id: Seq<char>,
    v: i64,
)
    ensures
        snaps.len() == 0 ==> history_text(alias, snaps) == "No health history recorded for '"@
            + alias + "'.\n"@,
        snaps.len() > 0 ==> history_text(alias, snaps) == "Health history of '"@ + alias + "' ("@
            + digits(snaps.len() as int) + " snapshot(s), operational, not a security score):\n"@
            + "  "@ + left_aligned("time (UTC)"@, 20) + " "@ + left_aligned("stat"@, 5) + written(
            columns(snaps),
            |k: Seq<char>| " "@ + right_aligned(short_name(k), 14),
        ) + "\n"@ + written(snaps, |x: SnapshotView| history_row(x, columns(snaps))),
        history_row(s, columns(snaps)) == "  "@ + left_aligned(utc(s.ts as int), 20) + " "@
            + left_aligned(s.overall.tag_text(), 5) + written(
            columns(snaps),
            |k: Seq<char>| value_cell(s, k),
        ) + "\n"@,
        lookup(s.metrics, id) == Some(v) ==> value_cell(s, id) == " "@ + right_aligned(
            micros_text(v as int, 2),
            14,
        ),
        lookup(s.metrics, id) is None ==> value_cell(s, id) == " "@ + right_aligned("-"@, 14),
{
    crate::health::wording_laws::lemma_written_alike(
        columns(snaps),
        |k: Seq<char>| crate::history::header_cell(k),
        |k: Seq<char>| " "@ + right_aligned(short_name(k), 14),
    );
}

/// An alias names a history file exactly if it is made of letters, digits, `.`, `_` and `-`, and
/// is neither empty nor one or two dots.
pub proof fn law_safe_aliases(alias: Seq<char>)
    ensures
        file_safe(alias) <==> alias.len() > 0 && alias != "."@ && alias != ".."@ && forall|i: int|
            0 <= i < alias.len() ==> crate::outcome_laws::plain(#[trigger] alias[i]) || alias[i]
                == '.' || alias[i] == '_' || alias[i] == '-',
        crate::history::unsafe_alias_text(alias) == "alias "@ + quoted(alias)
            + " is not a safe history filename (allowed: A-Z a-z 0-9 . _ -)"@,
{
}

/// A group in words: the headline, and a block for each host with its name, its status and its
/// report, or why there is none.
pub proof fn law_health_group_wording(
    group: Seq<char>,
    o: Seq<HealthOutcomeView>,
    alias: Seq<char>,
    r: HealthReportView,
    e: Seq<char>,
)
    ensures
        health_group(group, o) == health_headline(group, o) + written(
            o,
            |x: HealthOutcomeView| health_block(x),
        ),
        health_block((HealthOutcomeView { alias, result: Ok(r) })) == "=== "@ + alias + " ["@
            + r.overall.tag_text() + "] ===\n"@ + health_text(alias, r),
        health_block((HealthOutcomeView { alias, result: Err(e) })) == "=== "@ + alias
            + " [ERROR] ===\n  "@ + e + "\n"@,
{
}

/// An audited group in words: hosts with the same result share a block, which names them all.
pub proof fn law_audit_group_wording(
    aliases: Seq<Seq<char>>,
    alias: Seq<char>,
    score: ScoreView,
    f: Seq<FindingView>,
    e: Seq<char>,
)
    requires
        aliases.len() > 0,
    ensures
        aliases.len() == 1 ==> hosts_label(aliases) == aliases[0],
        aliases.len() > 1 ==> hosts_label(aliases) == joined(aliases, ", "@) + " ("@ + digits(
            aliases.len() as int,
        ) + " hosts, identical)"@,
        audit_block(
            (HostGroupView { aliases, repr: (AuditOutcomeView { alias, result: Ok((score, f)) }) }),
        ) == "=== "@ + hosts_label(aliases) + " ===\n"@ + audit_text(aliases[0], score, f),
        audit_block(
            (HostGroupView { aliases, repr: (AuditOutcomeView { alias, result: Err(e) }) }),
        ) == "=== "@ + hosts_label(aliases) + " [ERROR] ===\n  "@ + e + "\n"@,
{
}

/// A run on one host prints that host's report, and on a group the group's, in words or as a
/// document as asked for; a host that failed is told with its error.
pub proof fn law_output_is_as_asked(
    group: Seq<char>,
    o: Seq<HealthOutcomeView>,
    a: Seq<AuditOutcomeView>,
    alias: Seq<char>,
    snaps: Seq<SnapshotView>,
    e: Seq<char>,
)
    ensures
        health_output(Some(group), o, Format::Text) == RenderedView::Text(health_group(group, o)),
        audit_output(Some(group), a, Format::Text) == RenderedView::Text(audit_group(group, a)),
        health_output(Some(group), o, Format::Json) is Json,
        audit_output(Some(group), a, Format::Json) is Json,
        o.len() > 0 ==> (o[0].result matches Ok(r) ==> health_output(None, o, Format::Text)
            == RenderedView::Text(health_text(o[0].alias, r)) && health_output(
            None,
            o,
            Format::Json,
        ) is Json),
        a.len() > 0 ==> (a[0].result matches Ok((score, f)) ==> audit_output(
            None,
            a,
            Format::Text,
        ) == RenderedView::Text(audit_text(a[0].alias, score, f)) && audit_output(
            None,
            a,
            Format::Json,
        ) is Json),
        o.len() > 0 ==> (o[0].result matches Err(x) ==> health_output(None, o, Format::Text)
            == RenderedView::Failure(
            "health snapshot of '"@ + o[0].alias + "' failed: "@ + x,
        )),
        a.len() > 0 ==> (a[0].result matches Err(x) ==> audit_output(None, a, Format::Text)
            == RenderedView::Failure("audit of '"@ + a[0].alias + "' failed: "@ + x)),
        history_output(alias, snaps, Format::Text) == RenderedView::Text(
            history_text(alias, snaps),
        ),
        history_output(alias, snaps, Format::Json) is Json,
{
}

/// Why a config or a command is refused, in words that name what is wrong.
pub proof fn law_refusals_in_words(a: Seq<char>, b: Seq<char>, c: char)
    ensures
        config_error_text(ConfigErrorView::UnknownTarget(a)) == "unknown target "@ + quoted(a),
        config_error_text(ConfigErrorView::UnknownGroup(a)) == "unknown group "@ + quoted(a),
        config_error_text(ConfigErrorView::EmptyGroup(a)) == "group "@ + quoted(a)
            + " has no members"@,
        config_error_text((ConfigErrorView::UnknownMember { group: a, member: b })) == "group "@
            + quoted(a) + " lists unknown target "@ + quoted(b),
        config_error_text((ConfigErrorView::ConflictingGroupVar { target: a, field: b }))
            == "target "@ + quoted(a) + " inherits conflicting "@ + quoted(b)
            + " from two groups; set it on the target to disambiguate"@,
        config_error_text((ConfigErrorView::Read { path: a, source: b })) == "cannot read config "@
            + a + ": "@ + b,
        config_error_text(ConfigErrorView::Parse(a)) == "invalid config: "@ + a,
        catalog_error_text(CatalogErrorView::Empty) == "empty command"@,
        catalog_error_text(CatalogErrorView::IllegalCharacter(c)) == "illegal character "@
            + quoted_char(c) + " in command"@,
        catalog_error_text(CatalogErrorView::NotInCatalog(a)) == "command "@ + quoted(a)
            + " is not in the read-only catalog"@,
{
}

/// Why an ssh invocation failed, in words; a command that failed tells its code.
pub proof fn law_ssh_failures_in_words(a: Seq<char>, b: Seq<char>, n: i32, c: CatalogErrorView)
    ensures
        ssh_error_text(SshErrorView::InvalidHost(a)) == "invalid host: "@ + quoted(a),
        ssh_error_text(SshErrorView::InvalidUser(a)) == "invalid user: "@ + quoted(a),
        ssh_error_text(SshErrorView::CommandRejected(c)) == "command rejected by catalog: "@
            + catalog_error_text(c),
        ssh_error_text(SshErrorView::Spawn(a)) == "failed to spawn ssh: "@ + a,
        ssh_error_text(SshErrorView::Io(a)) == "ssh i/o error: "@ + a,
        ssh_error_text(SshErrorView::Timeout) == "ssh command timed out"@,
        ssh_error_text(SshErrorView::Auth(a)) == "authentication failed: "@ + a,
        ssh_error_text(SshErrorView::Connection(a)) == "connection failed: "@ + a,
        ssh_error_text((SshErrorView::RemoteCommand { code: Some(n), stdout: a, stderr: b }))
            == "remote command failed (code "@ + ("Some("@ + signed_digits(n as int) + ")"@)
            + "): "@ + b,
        ssh_error_text((SshErrorView::RemoteCommand { code: None, stdout: a, stderr: b }))
            == "remote command failed (code "@ + "None"@ + "): "@ + b,
{
}

/// A check that is skipped says whether its tool is missing, and names it, or that the opt-in is.
pub proof fn law_skipped_checks_say_why(check: AnyCheck, o: OutputsView, privileged: bool)
    requires
        !privileged || (check.info().effective_command matches Some(cmd) ==> collected(o, cmd@)
            is None),
        words(check.info().command@).len() > 0,
    ensures
        lookup(o, check.info().command@) is None ==> result_of(check, o, privileged).detail
            == "privileged check not enabled for this target"@,
        lookup(o, check.info().command@) matches Some(CmdOutputView::Failed(e)) ==> (e.not_found
            && check.info().skip_if_tool_missing ==> result_of(check, o, privileged).detail
            == words(check.info().command@)[0]
            + " is not installed on this host; check not applicable."@),
{
}

/// Splitting at a character splits what stands before it and what stands behind it.
proof fn lemma_fields_around(a: Seq<char>, b: Seq<char>, c: char)
    ensures
        fields(a + seq![c] + b, c) == fields(a, c) + fields(b, c),
    decreases a.len(),
{
    let s = a + seq![c] + b;
    lemma_index_of(a, c);
    let i = index_of(a, c);
    if i < a.len() {
        assert forall|j: int| 0 <= j < i implies s[j] != c by {
            assert(s[j] == a[j]);
        }
        lemma_first_at(s, c, i);
        assert(s.take(i) =~= a.take(i));
        assert(s.skip(i + 1) =~= a.skip(i + 1) + seq![c] + b);
        lemma_fields_around(a.skip(i + 1), b, c);
        assert(fields(a, c) == seq![a.take(i)] + fields(a.skip(i + 1), c));
        assert(fields(s, c) =~= fields(a, c) + fields(b, c));
    } else {
        assert forall|j: int| 0 <= j < a.len() implies s[j] != c by {
            assert(s[j] == a[j]);
        }
        assert(s[a.len() as int] == c);
        lemma_first_at(s, c, a.len() as int);
        assert(s.take(a.len() as int) =~= a);
        assert(s.skip(a.len() as int + 1) =~= b);
        assert(fields(a, c) =~= seq![a]);
    }
}

proof fn lemma_none_kept(x: Seq<char>, p: spec_fn(Seq<char>) -> bool)
    requires
        !p(x),
    ensures
        seq![x].filter(p) == Seq::<Seq<char>>::empty(),
{
    let s = seq![x];
    if s.filter(p).len() > 0 {
        s.lemma_filter_pred(p, 0);
        s.lemma_filter_contains_rev(p, s.filter(p)[0]);
    }
    assert(s.filter(p) =~= Seq::<Seq<char>>::empty());
}

/// A path stays the same with a `.` or a further `/` between two parts of it.
pub proof fn law_same_path(a: Seq<char>, b: Seq<char>)
    requires
        a.len() > 0,
    ensures
        same_path(a + seq!['/'] + (seq!['.'] + seq!['/'] + b), a + seq!['/'] + b),
        same_path(a + seq!['/'] + (Seq::empty() + seq!['/'] + b), a + seq!['/'] + b),
{
    reveal_strlit(".");
    assert(seq!['.'] =~= "."@);
    let p = |c: Seq<char>| names_something(c);
    lemma_fields_around(a, b, '/');
    lemma_fields_around(seq!['.'], b, '/');
    lemma_fields_around(Seq::empty(), b, '/');
    lemma_fields_around(a, seq!['.'] + seq!['/'] + b, '/');
    lemma_fields_around(a, Seq::empty() + seq!['/'] + b, '/');
    lemma_first_at(seq!['.'], '/', 1);
    lemma_first_at(Seq::<char>::empty(), '/', 0);
    assert(fields(seq!['.'], '/') == seq![seq!['.']]);
    assert(fields(Seq::<char>::empty(), '/') == seq![Seq::<char>::empty()]);
    let (fa, fb) = (fields(a, '/'), fields(b, '/'));
    let dot = seq![seq!['.']];
    let none = seq![Seq::<char>::empty()];
    Seq::filter_distributes_over_add(fa, fb, p);
    Seq::filter_distributes_over_add(fa, dot + fb, p);
    Seq::filter_distributes_over_add(dot, fb, p);
    Seq::filter_distributes_over_add(fa, none + fb, p);
    Seq::filter_distributes_over_add(none, fb, p);
    lemma_none_kept(seq!['.'], p);
    lemma_none_kept(Seq::empty(), p);
    assert(fa.len() > 0);
    assert((fa + (dot + fb))[0] == fa[0] && (fa + (none + fb))[0] == fa[0] && (fa + fb)[0]
        == fa[0]);
    let x = a + seq!['/'] + (seq!['.'] + seq!['/'] + b);
    let y = a + seq!['/'] + b;
    let z = a + seq!['/'] + (Seq::empty() + seq!['/'] + b);
    assert(x[0] == a[0] && y[0] == a[0] && z[0] == a[0]);
    assert(components(x) =~= components(y));
    assert(components(z) =~= components(y));
}

/// Until there are enough snapshots, the note tells how many there are and how many it takes.
pub proof fn law_warming_up_wording(have: int, need: int)
    ensures
        warming_up(have, need) == "baseline warming up ("@ + digits(have) + "/"@ + digits(need)
            + ")"@,
{
}

/// The document of a report holds its metrics, its processes and its status, and what was noted
/// only where there is something.
pub proof fn law_report_document(r: HealthReportView)
    ensures
        member(report_json(r), "metrics"@) == Some(
            list(each(r.metrics, |m: MetricView| metric_json(m))),
        ),
        member(report_json(r), "top_cpu"@) == Some(
            list(each(r.top_cpu, |p: ProcInfoView| process_json(p))),
        ),
        member(report_json(r), "top_mem"@) == Some(
            list(each(r.top_mem, |p: ProcInfoView| process_json(p))),
        ),
        member(report_json(r), "overall"@) == Some(text_value(status_name(r.overall))),
        r.anomalies.len() > 0 ==> member(report_json(r), "anomalies"@) == Some(
            list(each(r.anomalies, |a: AnomalyView| anomaly_json(a))),
        ),
        r.anomaly_note matches Some(note) ==> member(report_json(r), "anomaly_note"@) == Some(
            text_value(note),
        ),
        r.changes.len() > 0 ==> member(report_json(r), "changes"@) == Some(
            text_list_value(r.changes),
        ),
{
    reveal_strlit("metrics");
    reveal_strlit("top_cpu");
    reveal_strlit("top_mem");
    reveal_strlit("overall");
    reveal_strlit("anomalies");
    reveal_strlit("anomaly_note");
    reveal_strlit("changes");
    assert("metrics"@.len() == 7 && "top_cpu"@.len() == 7 && "top_mem"@.len() == 7
        && "overall"@.len() == 7 && "anomalies"@.len() == 9 && "anomaly_note"@.len() == 12
        && "changes"@.len() == 7);
    assert("metrics"@[0] == 'm' && "top_cpu"@[0] == 't' && "top_mem"@[0] == 't' && "overall"@[0]
        == 'o' && "changes"@[0] == 'c' && "top_cpu"@[4] == 'c' && "top_mem"@[4] == 'm');
    let measured = crate::health::report::measured_fields(r);
    let (a, b, c) = (
        crate::health::report::anomaly_fields(r),
        crate::health::report::note_fields(r),
        crate::health::report::change_fields(r),
    );
    let fields = measured + (a + b + c);
    assert(measured.len() == 4);
    assert forall|j: int| 4 <= j < fields.len() implies (#[trigger] fields[j]).0 == "anomalies"@
        || fields[j].0 == "anomaly_note"@ || fields[j].0 == "changes"@ by {
        let k = j - 4;
        assert(fields[j] == (a + b + c)[k]);
    }
    assert(fields[0].0 == "metrics"@ && fields[1].0 == "top_cpu"@ && fields[2].0 == "top_mem"@
        && fields[3].0 == "overall"@);
    lemma_member(fields, 0);
    lemma_member(fields, 1);
    lemma_member(fields, 2);
    lemma_member(fields, 3);
    let n = 4 + a.len() as int;
    if r.anomalies.len() > 0 {
        assert(fields[4] == a[0]);
        assert forall|j: int| 4 < j < fields.len() implies (#[trigger] fields[j]).0
            != "anomalies"@ by {
            assert(fields[j] == (b + c)[j - 5]);
        }
        lemma_member(fields, 4);
    }
    if r.anomaly_note is Some {
        assert(fields[n] == b[0]);
        assert forall|j: int| n < j < fields.len() implies (#[trigger] fields[j]).0
            != "anomaly_note"@ by {
            assert(fields[j] == c[j - n - 1]);
        }
        lemma_member(fields, n);
    }
    if r.changes.len() > 0 {
        let k = fields.len() - 1;
        assert(fields[k] == c[0]);
        lemma_member(fields, k);
    }
}

} // verus!
