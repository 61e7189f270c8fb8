//! Group rendering (text + JSON).

use super::{AuditOutcome, AuditOutcomeView, HealthOutcome, HealthOutcomeView};
use crate::health::report::{
    health_text, report_document, report_json, status_name, status_text,
};
use crate::health::{self, HealthStatus};
use crate::json::{
    each, field, group_merged, held, list, list_each, object, text_list, text_list_value,
    text_value, Fields, JsonView,
};
use crate::json_text::{keys_sorted, laid_out, pretty_ordered, JsonError};
use crate::report::{
    self, audit_text, findings_document, findings_json, score_document, score_json,
};
use crate::text::chars::{deep, lemma_deep_empty};
use crate::text::compose::{append_all, join_texts, joined, written};
use crate::text::number::{digits, format_u64, format_usize};
use crate::text::search::eq_text;
use crate::text::split::lemma_take_all;
use vstd::prelude::*;
use vstd::string::StringExecFns;

verus! {

/// How many hosts came out with a status.
pub open spec fn hosts_at(o: Seq<HealthOutcomeView>, s: HealthStatus) -> int
    decreases o.len(),
{
    if o.len() == 0 {
        0
    } else {
        hosts_at(o.drop_last(), s) + match o.last().result {
            Ok(r) => if r.overall == s {
                1int
            } else {
                0
            },
            Err(_) => 0,
        }
    }
}

/// How many hosts failed.
pub open spec fn hosts_failed(o: Seq<HealthOutcomeView>) -> int
    decreases o.len(),
{
    if o.len() == 0 {
        0
    } else {
        hosts_failed(o.drop_last()) + match o.last().result {
            Ok(_) => 0int,
            Err(_) => 1,
        }
    }
}

/// The summary line of a health group.
pub open spec fn health_headline(group: Seq<char>, o: Seq<HealthOutcomeView>) -> Seq<char> {
    "Health group '"@ + group + "' ("@ + digits(o.len() as int) + " hosts): "@ + digits(
        hosts_at(o, HealthStatus::Okay),
    ) + " OK, "@ + digits(hosts_at(o, HealthStatus::Warn)) + " WARN, "@ + digits(
        hosts_at(o, HealthStatus::Crit),
    ) + " CRIT, "@ + digits(hosts_failed(o)) + " error\n"@
}

/// One host's block.
pub open spec fn health_block(o: HealthOutcomeView) -> Seq<char> {
    match o.result {
        Ok(r) => "=== "@ + o.alias + " ["@ + r.overall.tag_text() + "] ===\n"@ + health_text(
            o.alias,
            r,
        ),
        Err(e) => "=== "@ + o.alias + " [ERROR] ===\n  "@ + e + "\n"@,
    }
}

/// The whole health report of a group.
pub open spec fn health_group(group: Seq<char>, o: Seq<HealthOutcomeView>) -> Seq<char> {
    health_headline(group, o) + written(o, |x: HealthOutcomeView| health_block(x))
}

fn count_hosts(outcomes: &[HealthOutcome], status: HealthStatus) -> (r: usize)
    ensures
        r == hosts_at(deep(outcomes@), status),
{
    let ghost all = deep(outcomes@);
    let mut n: usize = 0;
    let mut i: usize = 0;
    while i < outcomes.len()
        invariant
            all == deep(outcomes@),
            i <= outcomes@.len(),
            n <= i,
            n == hosts_at(all.take(i as int), status),
        decreases outcomes@.len() - i,
    {
        proof {
            assert(all.take(i + 1).drop_last() == all.take(i as int));
        }
        match &outcomes[i].result {
            Ok(r) => {
                if r.overall == status {
                    n = n + 1;
                }
            },
            Err(_) => {},
        }
        i = i + 1;
    }
    proof {
        lemma_take_all(all);
    }
    n
}

fn count_failed(outcomes: &[HealthOutcome]) -> (r: usize)
    ensures
        r == hosts_failed(deep(outcomes@)),
{
    let ghost all = deep(outcomes@);
    let mut n: usize = 0;
    let mut i: usize = 0;
    while i < outcomes.len()
        invariant
            all == deep(outcomes@),
            i <= outcomes@.len(),
            n <= i,
            n == hosts_failed(all.take(i as int)),
        decreases outcomes@.len() - i,
    {
        proof {
            assert(all.take(i + 1).drop_last() == all.take(i as int));
        }
        if outcomes[i].result.is_err() {
            n = n + 1;
        }
        i = i + 1;
    }
    proof {
        lemma_take_all(all);
    }
    n
}

fn format_health_block(o: &HealthOutcome) -> (r: String)
    ensures
        r@ == health_block(o@),
{
    let mut s = "=== ".to_string();
    s.append(o.alias.as_str());
    match &o.result {
        Ok(r) => {
            s.append(" [");
            s.append(r.overall.tag());
            s.append("] ===\n");
            s.append(health::report::text(o.alias.as_str(), r).as_str());
        },
        Err(e) => {
            s.append(" [ERROR] ===\n  ");
            s.append(e.as_str());
            s.append("\n");
        },
    }
    s
}

/// Human-readable group health report: a summary line, then each host's block.
pub fn health_group_text(group: &str, outcomes: &[HealthOutcome]) -> (r: String)
    ensures
        r@ == health_group(group@, deep(outcomes@)),
{
    let mut out = "Health group '".to_string();
    out.append(group);
    out.append("' (");
    out.append(format_usize(outcomes.len()).as_str());
    out.append(" hosts): ");
    out.append(format_usize(count_hosts(outcomes, HealthStatus::Okay)).as_str());
    out.append(" OK, ");
    out.append(format_usize(count_hosts(outcomes, HealthStatus::Warn)).as_str());
    out.append(" WARN, ");
    out.append(format_usize(count_hosts(outcomes, HealthStatus::Crit)).as_str());
    out.append(" CRIT, ");
    out.append(format_usize(count_failed(outcomes)).as_str());
    out.append(" error\n");
    append_all(
        &mut out,
        outcomes,
        format_health_block,
        Ghost(|x: HealthOutcomeView| health_block(x)),
    );
    out
}

pub open spec fn health_host_json(o: HealthOutcomeView) -> JsonView {
    match o.result {
        Ok(r) => object(
            field("alias"@, text_value(o.alias)) + field(
                "status"@,
                text_value(status_name(r.overall)),
            ) + field("report"@, report_json(r)),
        ),
        Err(e) => object(field("alias"@, text_value(o.alias)) + field("error"@, text_value(e))),
    }
}

/// `{ group, kind: "health-group", hosts }`.
pub open spec fn health_group_document(group: Seq<char>, o: Seq<HealthOutcomeView>) -> JsonView {
    object(
        field("group"@, text_value(group)) + field("kind"@, text_value("health-group"@)) + field(
            "hosts"@,
            list(each(o, |x: HealthOutcomeView| health_host_json(x))),
        ),
    )
}

fn host_document(o: &HealthOutcome) -> (r: serde_json::Value)
    ensures
        held(r) == health_host_json(o@),
{
    broadcast use group_merged;

    let fields = Fields::new().text("alias", o.alias.as_str());
    match &o.result {
        Ok(r) => fields.text("status", status_text(r.overall)).put(
            "report",
            report_document(r),
        ).close(),
        Err(e) => fields.text("error", e.as_str()).close(),
    }
}

/// The JSON report of a health group: `{ group, kind: "health-group", hosts }`.
pub fn health_document(group: &str, outcomes: &[HealthOutcome]) -> (r: serde_json::Value)
    ensures
        held(r) == health_group_document(group@, deep(outcomes@)),
{
    broadcast use group_merged;

    let hosts = list_each(
        outcomes,
        host_document,
        Ghost(|x: HealthOutcomeView| health_host_json(x)),
    );
    Fields::new().text("group", group).text("kind", "health-group").put("hosts", hosts).close()
}

/// Machine-readable group health report: `{ group, kind: "health-group", hosts }`.
pub fn health_group_json(group: &str, outcomes: &[HealthOutcome]) -> (r: Result<String, JsonError>)
    ensures
        r is Ok,
        r->Ok_0@ == laid_out(keys_sorted(health_group_document(group@, deep(outcomes@)))),
{
    pretty_ordered(health_document(group, outcomes))
}

/// What a host's result looks like whatever its alias: the rendered report with an empty
/// alias. Two hosts collapse iff their profile, score and every finding match; it is used only
/// as a key and never surfaced.
pub open spec fn signature(o: AuditOutcomeView) -> Seq<char> {
    match o.result {
        Ok((score, findings)) => audit_text(""@, score, findings),
        Err(e) => "__err__"@ + e,
    }
}

/// A run of hosts whose audit result is identical (same score + findings, or the
/// same error message), so a homogeneous fleet renders once instead of per host.
pub struct HostGroup<'a> {
    pub aliases: Vec<String>,
    pub repr: &'a AuditOutcome,
}

/// The model of a [`HostGroup`].
pub ghost struct HostGroupView {
    pub aliases: Seq<Seq<char>>,
    pub repr: AuditOutcomeView,
}

impl<'a> View for HostGroup<'a> {
    type V = HostGroupView;

    open spec fn view(&self) -> HostGroupView {
        HostGroupView { aliases: deep(self.aliases@), repr: self.repr@ }
    }
}

/// Some outcome has the signature.
pub open spec fn seen(o: Seq<AuditOutcomeView>, key: Seq<char>) -> bool {
    exists|i: int| 0 <= i < o.len() && signature(#[trigger] o[i]) == key
}

/// The first outcome of each signature, in order.
pub open spec fn firsts(o: Seq<AuditOutcomeView>) -> Seq<AuditOutcomeView>
    decreases o.len(),
{
    if o.len() == 0 {
        Seq::empty()
    } else if seen(o.drop_last(), signature(o.last())) {
        firsts(o.drop_last())
    } else {
        firsts(o.drop_last()).push(o.last())
    }
}

/// The aliases of the outcomes with the signature, in order.
pub open spec fn aliases_like(o: Seq<AuditOutcomeView>, key: Seq<char>) -> Seq<Seq<char>>
    decreases o.len(),
{
    if o.len() == 0 {
        Seq::empty()
    } else if signature(o.last()) == key {
        aliases_like(o.drop_last(), key).push(o.last().alias)
    } else {
        aliases_like(o.drop_last(), key)
    }
}

/// The hosts by signature, in order of first appearance (both of the groups and of the aliases
/// within each).
pub open spec fn grouped(o: Seq<AuditOutcomeView>) -> Seq<HostGroupView> {
    firsts(o).map_values(
        |r: AuditOutcomeView|
            HostGroupView { aliases: aliases_like(o, signature(r)), repr: r },
    )
}

/// The groups' representatives are outcomes of their own, no two with one signature, and every
/// signature has one.
proof fn lemma_firsts(o: Seq<AuditOutcomeView>)
    ensures
        forall|i: int, j: int|
            0 <= i < j < firsts(o).len() ==> signature(#[trigger] firsts(o)[i]) != signature(
                #[trigger] firsts(o)[j],
            ),
        forall|i: int|
            0 <= i < firsts(o).len() ==> seen(o, signature(#[trigger] firsts(o)[i])),
        forall|i: int|
            0 <= i < o.len() ==> seen(firsts(o), signature(#[trigger] o[i])),
    decreases o.len(),
{
    if o.len() > 0 {
        let front = o.drop_last();
        let n = o.len() - 1;
        let key = signature(o.last());
        lemma_firsts(front);
        let f = firsts(front);
        let g = firsts(o);
        assert forall|i: int| 0 <= i < g.len() implies seen(o, signature(#[trigger] g[i])) by {
            if i < f.len() {
                assert(g[i] == f[i]);
                let k = choose|k: int|
                    0 <= k < front.len() && signature(#[trigger] front[k]) == signature(f[i]);
                assert(o[k] == front[k]);
            } else {
                assert(signature(o[n]) == signature(g[i]));
            }
        }
        assert forall|i: int| 0 <= i < o.len() implies seen(g, signature(#[trigger] o[i])) by {
            if i < n || seen(front, key) {
                let h: int = if i < n {
                    i
                } else {
                    choose|k: int| 0 <= k < front.len() && signature(#[trigger] front[k]) == key
                };
                assert(signature(front[h]) == signature(o[i]));
                let k = choose|k: int|
                    0 <= k < f.len() && signature(#[trigger] f[k]) == signature(front[h]);
                assert(g[k] == f[k]);
            } else {
                assert(signature(g[f.len() as int]) == key);
            }
        }
        assert forall|i: int, j: int| 0 <= i < j < g.len() implies signature(#[trigger] g[i])
            != signature(#[trigger] g[j]) by {
            if j == f.len() {
                assert(seen(front, signature(f[i])));
            }
        }
    }
}

fn signature_of(o: &AuditOutcome) -> (r: String)
    ensures
        r@ == signature(o@),
{
    match &o.result {
        Ok((score, findings)) => report::text("", score, findings.as_slice()),
        Err(e) => {
            let mut s = "__err__".to_string();
            s.append(e.as_str());
            s
        },
    }
}

/// Buckets hosts by an alias-independent signature, preserving first-appearance
/// order (both of the buckets and of the aliases within each).
pub fn group_identical<'a>(outcomes: &'a [AuditOutcome]) -> (r: Vec<HostGroup<'a>>)
    ensures
        deep(r@) == grouped(deep(outcomes@)),
{
    broadcast use lemma_deep_empty;

    let ghost all = deep(outcomes@);
    let mut groups: Vec<HostGroup<'a>> = Vec::new();
    let mut keys: Vec<String> = Vec::new();
    let mut i: usize = 0;
    proof {
        assert(deep(groups@) =~= grouped(all.take(0)));
    }
    while i < outcomes.len()
        invariant
            all == deep(outcomes@),
            i <= outcomes@.len(),
            deep(groups@) == grouped(all.take(i as int)),
            keys@.len() == groups@.len(),
            forall|j: int|
                0 <= j < keys@.len() ==> (#[trigger] keys@[j])@ == signature(
                    firsts(all.take(i as int))[j],
                ),
        decreases outcomes@.len() - i,
    {
        let ghost before = all.take(i as int);
        let ghost now = all.take(i + 1);
        let ghost old_groups = groups@;
        let o = &outcomes[i];
        let key = signature_of(o);
        proof {
            lemma_firsts(before);
            assert(now.drop_last() == before);
            assert(now.last() == o@);
            assert(grouped(before).len() == firsts(before).len());
        }
        let mut k: usize = 0;
        while k < keys.len() && !eq_text(keys[k].as_str(), key.as_str())
            invariant
                k <= keys@.len(),
                forall|j: int| 0 <= j < k ==> (#[trigger] keys@[j])@ != key@,
            decreases keys@.len() - k,
        {
            k = k + 1;
        }
        if k < keys.len() {
            proof {
                assert(signature(firsts(before)[k as int]) == key@);
                assert(seen(before, key@));
            }
            let g = &mut groups[k];
            g.aliases.push(o.alias.clone());
            proof {
                lemma_grouped_known(before, o@, k as int);
                let gs = deep(groups@);
                assert(before.push(o@) == now);
                assert(deep(groups@[k as int].aliases@) =~= deep(
                    old_groups[k as int].aliases@,
                ).push(o@.alias));
                assert forall|j: int| 0 <= j < gs.len() implies gs[j] == grouped(now)[j] by {
                    assert(deep(old_groups)[j] == grouped(before)[j]);
                    assert(groups@[j]@.repr == old_groups[j]@.repr);
                }
                assert(gs =~= grouped(now));
            }
        } else {
            let mut aliases: Vec<String> = Vec::new();
            aliases.push(o.alias.clone());
            proof {
                assert(!seen(before, key@)) by {
                    if seen(before, key@) {
                        let h = choose|h: int|
                            0 <= h < before.len() && signature(#[trigger] before[h]) == key@;
                        assert(seen(firsts(before), signature(before[h])));
                        let j = choose|j: int|
                            0 <= j < firsts(before).len() && signature(
                                #[trigger] firsts(before)[j],
                            ) == key@;
                        assert(keys@[j]@ == key@);
                    }
                }
                lemma_grouped_new(before, o@);
                assert(before.push(o@) == now);
                assert(deep(aliases@) =~= seq![o@.alias]);
            }
            keys.push(key);
            groups.push(HostGroup { aliases, repr: o });
            proof {
                assert(deep(groups@) =~= grouped(now));
            }
        }
        i = i + 1;
    }
    proof {
        lemma_take_all(all);
    }
    groups
}

proof fn lemma_grouped_known(o: Seq<AuditOutcomeView>, x: AuditOutcomeView, k: int)
    requires
        0 <= k < firsts(o).len(),
        signature(firsts(o)[k]) == signature(x),
    ensures
        firsts(o.push(x)) == firsts(o),
        grouped(o.push(x)) == grouped(o).update(
            k,
            (HostGroupView {
                aliases: grouped(o)[k].aliases.push(x.alias),
                repr: grouped(o)[k].repr,
            }),
        ),
{
    lemma_firsts(o);
    assert(seen(o, signature(firsts(o)[k])));
    assert(o.push(x).drop_last() == o);
    let g = grouped(o.push(x));
    assert forall|j: int| 0 <= j < g.len() implies g[j] == grouped(o).update(
        k,
        (HostGroupView {
            aliases: grouped(o)[k].aliases.push(x.alias),
            repr: grouped(o)[k].repr,
        }),
    )[j] by {
        if j < k {
            assert(signature(firsts(o)[j]) != signature(firsts(o)[k]));
        } else if k < j {
            assert(signature(firsts(o)[k]) != signature(firsts(o)[j]));
        }
    }
    assert(g =~= grouped(o).update(
        k,
        (HostGroupView {
            aliases: grouped(o)[k].aliases.push(x.alias),
            repr: grouped(o)[k].repr,
        }),
    ));
}

proof fn lemma_aliases_of_stranger(o: Seq<AuditOutcomeView>, key: Seq<char>)
    requires
        !seen(o, key),
    ensures
        aliases_like(o, key) == Seq::<Seq<char>>::empty(),
    decreases o.len(),
{
    if o.len() > 0 {
        let front = o.drop_last();
        assert(signature(o[o.len() - 1]) != key);
        assert forall|i: int| 0 <= i < front.len() implies signature(#[trigger] front[i])
            != key by {
            assert(front[i] == o[i]);
        }
        lemma_aliases_of_stranger(front, key);
    }
}

proof fn lemma_grouped_new(o: Seq<AuditOutcomeView>, x: AuditOutcomeView)
    requires
        !seen(o, signature(x)),
    ensures
        firsts(o.push(x)) == firsts(o).push(x),
        grouped(o.push(x)) == grouped(o).push(
            (HostGroupView { aliases: seq![x.alias], repr: x }),
        ),
{
    lemma_firsts(o);
    lemma_aliases_of_stranger(o, signature(x));
    assert(o.push(x).drop_last() == o);
    assert(firsts(o.push(x)) == firsts(o).push(x));
    let g = grouped(o.push(x));
    let h = grouped(o).push((HostGroupView { aliases: seq![x.alias], repr: x }));
    assert forall|j: int| 0 <= j < g.len() implies g[j] == h[j] by {
        if j < firsts(o).len() {
            assert(seen(o, signature(firsts(o)[j])));
        } else {
            assert(aliases_like(o.push(x), signature(x)) =~= seq![x.alias]);
        }
    }
    assert(g =~= h);
}

/// The lowest score among the hosts that have one.
pub open spec fn lowest_score(o: Seq<AuditOutcomeView>) -> Option<u8>
    decreases o.len(),
{
    if o.len() == 0 {
        None
    } else {
        let before = lowest_score(o.drop_last());
        match o.last().result {
            Err(_) => before,
            Ok((score, _)) => match before {
                Some(b) => if b <= score.total {
                    Some(b)
                } else {
                    Some(score.total)
                },
                None => Some(score.total),
            },
        }
    }
}

/// How many audits failed.
pub open spec fn audits_failed(o: Seq<AuditOutcomeView>) -> int
    decreases o.len(),
{
    if o.len() == 0 {
        0
    } else {
        audits_failed(o.drop_last()) + match o.last().result {
            Ok(_) => 0int,
            Err(_) => 1,
        }
    }
}

/// The summary line of an audit group.
pub open spec fn audit_headline(group: Seq<char>, o: Seq<AuditOutcomeView>) -> Seq<char> {
    "Audit group '"@ + group + "' ("@ + digits(o.len() as int) + " hosts): lowest score "@ + (
    match lowest_score(o) {
        Some(s) => digits(s as int),
        None => "n/a"@,
    }) + ", "@ + digits(audits_failed(o)) + " error\n"@
}

/// The hosts of a group.
pub open spec fn hosts_label(aliases: Seq<Seq<char>>) -> Seq<char> {
    if aliases.len() > 1 {
        joined(aliases, ", "@) + " ("@ + digits(aliases.len() as int) + " hosts, identical)"@
    } else {
        aliases[0]
    }
}

/// One block per set of identical hosts.
pub open spec fn audit_block(g: HostGroupView) -> Seq<char> {
    match g.repr.result {
        Ok((score, findings)) => "=== "@ + hosts_label(g.aliases) + " ===\n"@ + audit_text(
            g.aliases[0],
            score,
            findings,
        ),
        Err(e) => "=== "@ + hosts_label(g.aliases) + " [ERROR] ===\n  "@ + e + "\n"@,
    }
}

/// The whole audit report of a group.
pub open spec fn audit_group(group: Seq<char>, o: Seq<AuditOutcomeView>) -> Seq<char> {
    audit_headline(group, o) + written(grouped(o), |g: HostGroupView| audit_block(g))
}

fn find_lowest(outcomes: &[AuditOutcome]) -> (r: (Option<u8>, usize))
    ensures
        r.0 == lowest_score(deep(outcomes@)),
        r.1 == audits_failed(deep(outcomes@)),
{
    let ghost all = deep(outcomes@);
    let mut lowest: Option<u8> = None;
    let mut errored: usize = 0;
    let mut i: usize = 0;
    while i < outcomes.len()
        invariant
            all == deep(outcomes@),
            i <= outcomes@.len(),
            lowest == lowest_score(all.take(i as int)),
            errored == audits_failed(all.take(i as int)),
            errored <= i,
        decreases outcomes@.len() - i,
    {
        proof {
            assert(all.take(i + 1).drop_last() == all.take(i as int));
        }
        match &outcomes[i].result {
            Ok((score, _)) => {
                lowest = match lowest {
                    Some(b) => if b <= score.total {
                        Some(b)
                    } else {
                        Some(score.total)
                    },
                    None => Some(score.total),
                };
            },
            Err(_) => {
                errored = errored + 1;
            },
        }
        i = i + 1;
    }
    proof {
        lemma_take_all(all);
    }
    (lowest, errored)
}

fn format_hosts(aliases: &Vec<String>) -> (r: String)
    requires
        aliases@.len() > 0,
    ensures
        r@ == hosts_label(deep(aliases@)),
{
    if aliases.len() > 1 {
        let mut s = join_texts(aliases, ", ");
        s.append(" (");
        s.append(format_usize(aliases.len()).as_str());
        s.append(" hosts, identical)");
        s
    } else {
        aliases[0].clone()
    }
}

fn format_audit_block(g: &HostGroup) -> (r: String)
    requires
        g.aliases@.len() > 0,
    ensures
        r@ == audit_block(g@),
{
    let hosts = format_hosts(&g.aliases);
    let mut s = "=== ".to_string();
    s.append(hosts.as_str());
    match &g.repr.result {
        Ok((score, findings)) => {
            s.append(" ===\n");
            s.append(report::text(g.aliases[0].as_str(), score, findings.as_slice()).as_str());
        },
        Err(e) => {
            s.append(" [ERROR] ===\n  ");
            s.append(e.as_str());
            s.append("\n");
        },
    }
    s
}

/// Human-readable group audit report: a summary line, then one block per set of
/// identical hosts (a homogeneous fleet renders its shared findings once).
pub fn audit_group_text(group: &str, outcomes: &[AuditOutcome]) -> (r: String)
    ensures
        r@ == audit_group(group@, deep(outcomes@)),
{
    let ghost f = |g: HostGroupView| audit_block(g);
    let (lowest, errored) = find_lowest(outcomes);
    let shown = match lowest {
        Some(s) => format_u64(s as u64),
        None => "n/a".to_string(),
    };
    let mut out = "Audit group '".to_string();
    out.append(group);
    out.append("' (");
    out.append(format_usize(outcomes.len()).as_str());
    out.append(" hosts): lowest score ");
    out.append(shown.as_str());
    out.append(", ");
    out.append(format_usize(errored).as_str());
    out.append(" error\n");
    let groups = group_identical(outcomes);
    let ghost start = out@;
    let ghost all = deep(groups@);
    let mut i: usize = 0;
    proof {
        assert(start =~= start + written(all.take(0), f));
    }
    while i < groups.len()
        invariant
            all == deep(groups@),
            all == grouped(deep(outcomes@)),
            f == |g: HostGroupView| audit_block(g),
            i <= groups@.len(),
            out@ == start + written(all.take(i as int), f),
        decreases groups@.len() - i,
    {
        proof {
            law_groups_are_by_signature(deep(outcomes@), i as int);
            assert(all[i as int] == groups@[i as int]@);
            assert(all.take(i + 1).drop_last() =~= all.take(i as int));
        }
        out.append(format_audit_block(&groups[i]).as_str());
        proof {
            assert(out@ =~= start + written(all.take(i + 1), f));
        }
        i = i + 1;
    }
    proof {
        lemma_take_all(all);
    }
    out
}

pub open spec fn host_group_json(g: HostGroupView) -> JsonView {
    match g.repr.result {
        Ok((score, findings)) => object(
            field("aliases"@, text_list_value(g.aliases)) + field("score"@, score_json(score))
                + field("findings"@, findings_json(findings)),
        ),
        Err(e) => object(
            field("aliases"@, text_list_value(g.aliases)) + field("error"@, text_value(e)),
        ),
    }
}

/// `{ group, kind: "audit-group", groups }`.
pub open spec fn audit_group_document(group: Seq<char>, o: Seq<AuditOutcomeView>) -> JsonView {
    object(
        field("group"@, text_value(group)) + field("kind"@, text_value("audit-group"@)) + field(
            "groups"@,
            list(each(grouped(o), |g: HostGroupView| host_group_json(g))),
        ),
    )
}

fn group_document(g: &HostGroup) -> (r: serde_json::Value)
    ensures
        held(r) == host_group_json(g@),
{
    broadcast use group_merged;

    let fields = Fields::new().put("aliases", text_list(&g.aliases));
    match &g.repr.result {
        Ok((score, findings)) => fields.put("score", score_document(score)).put(
            "findings",
            findings_document(findings.as_slice()),
        ).close(),
        Err(e) => fields.text("error", e.as_str()).close(),
    }
}

/// The JSON report of an audit group: `{ group, kind: "audit-group", groups }`.
pub fn audit_document(group: &str, outcomes: &[AuditOutcome]) -> (r: serde_json::Value)
    ensures
        held(r) == audit_group_document(group@, deep(outcomes@)),
{
    broadcast use group_merged;

    let groups = group_identical(outcomes);
    let hosts = list_each(
        groups.as_slice(),
        group_document,
        Ghost(|g: HostGroupView| host_group_json(g)),
    );
    Fields::new().text("group", group).text("kind", "audit-group").put("groups", hosts).close()
}

/// Machine-readable group audit report: `{ group, kind: "audit-group", groups }`.
pub fn audit_group_json(group: &str, outcomes: &[AuditOutcome]) -> (r: Result<String, JsonError>)
    ensures
        r is Ok,
        r->Ok_0@ == laid_out(keys_sorted(audit_group_document(group@, deep(outcomes@)))),
{
    pretty_ordered(audit_document(group, outcomes))
}

proof fn lemma_aliases_like(o: Seq<AuditOutcomeView>, key: Seq<char>)
    ensures
        aliases_like(o, key).len() > 0 <==> seen(o, key),
        forall|a: Seq<char>|
            aliases_like(o, key).contains(a) <==> exists|i: int|
                0 <= i < o.len() && signature(#[trigger] o[i]) == key && o[i].alias == a,
    decreases o.len(),
{
    let like = aliases_like(o, key);
    if o.len() > 0 {
        let front = o.drop_last();
        let n = o.len() - 1;
        let rest = aliases_like(front, key);
        lemma_aliases_like(front, key);
        assert forall|i: int| 0 <= i < n implies front[i] == o[i] by {}
        assert forall|a: Seq<char>|
            like.contains(a) <==> exists|i: int|
                0 <= i < o.len() && signature(#[trigger] o[i]) == key && o[i].alias == a by {
            if like.contains(a) {
                let k = choose|k: int| 0 <= k < like.len() && like[k] == a;
                if k < rest.len() {
                    assert(rest[k] == a);
                    assert(rest.contains(a));
                    let i = choose|i: int|
                        0 <= i < front.len() && signature(#[trigger] front[i]) == key
                            && front[i].alias == a;
                    assert(signature(o[i]) == key && o[i].alias == a);
                } else {
                    assert(signature(o[n]) == key && o[n].alias == a);
                }
            }
            if exists|i: int|
                0 <= i < o.len() && signature(#[trigger] o[i]) == key && o[i].alias == a {
                let i = choose|i: int|
                    0 <= i < o.len() && signature(#[trigger] o[i]) == key && o[i].alias == a;
                if i < n {
                    assert(signature(front[i]) == key && front[i].alias == a);
                    assert(rest.contains(a));
                    let k = choose|k: int| 0 <= k < rest.len() && rest[k] == a;
                    assert(like[k] == a);
                } else {
                    assert(like[rest.len() as int] == a);
                }
            }
        }
        if seen(o, key) {
            let i = choose|i: int| 0 <= i < o.len() && signature(#[trigger] o[i]) == key;
            if i < n {
                assert(signature(front[i]) == key);
                assert(seen(front, key));
            }
        }
        if like.len() > 0 {
            if signature(o.last()) == key {
                assert(signature(o[n]) == key);
            } else {
                let i = choose|i: int|
                    0 <= i < front.len() && signature(#[trigger] front[i]) == key;
                assert(signature(o[i]) == key);
            }
        }
    }
}

/// Every group has a host, and its hosts are exactly those whose result looks like that of the
/// group's representative.
pub proof fn law_groups_are_by_signature(o: Seq<AuditOutcomeView>, k: int)
    requires
        0 <= k < grouped(o).len(),
    ensures
        grouped(o)[k].aliases.len() > 0,
        forall|a: Seq<char>|
            #[trigger] grouped(o)[k].aliases.contains(a) <==> exists|i: int|
                0 <= i < o.len() && signature(#[trigger] o[i]) == signature(grouped(o)[k].repr)
                    && o[i].alias == a,
{
    lemma_firsts(o);
    let key = signature(firsts(o)[k]);
    assert(seen(o, key));
    lemma_aliases_like(o, key);
}

/// Every host stands in exactly one group: one group has its signature, and no other.
pub proof fn law_every_host_has_one_group(o: Seq<AuditOutcomeView>, i: int)
    requires
        0 <= i < o.len(),
    ensures
        exists|k: int|
            0 <= k < grouped(o).len() && signature((#[trigger] grouped(o)[k]).repr) == signature(
                o[i],
            ) && grouped(o)[k].aliases.contains(o[i].alias),
        forall|j: int, k: int|
            0 <= j < k < grouped(o).len() ==> signature((#[trigger] grouped(o)[j]).repr)
                != signature((#[trigger] grouped(o)[k]).repr),
{
    lemma_firsts(o);
    let g = grouped(o);
    assert(seen(firsts(o), signature(o[i])));
    let k = choose|k: int|
        0 <= k < firsts(o).len() && signature(#[trigger] firsts(o)[k]) == signature(o[i]);
    assert(g[k].repr == firsts(o)[k]);
    law_groups_are_by_signature(o, k);
    assert(g[k].aliases.contains(o[i].alias));
    assert forall|j: int, l: int| 0 <= j < l < g.len() implies signature((#[trigger] g[j]).repr)
        != signature((#[trigger] g[l]).repr) by {
        assert(g[j].repr == firsts(o)[j]);
        assert(g[l].repr == firsts(o)[l]);
    }
}

/// The hosts of all groups together are as many as there are outcomes.
pub proof fn law_no_host_is_lost(o: Seq<AuditOutcomeView>)
    ensures
        hosts_in(grouped(o)) == o.len(),
    decreases o.len(),
{
    if o.len() > 0 {
        let front = o.drop_last();
        let x = o.last();
        law_no_host_is_lost(front);
        assert(front.push(x) == o);
        lemma_firsts(front);
        if seen(front, signature(x)) {
            let h = choose|h: int|
                0 <= h < front.len() && signature(#[trigger] front[h]) == signature(x);
            assert(seen(firsts(front), signature(front[h])));
            let k = choose|k: int|
                0 <= k < firsts(front).len() && signature(#[trigger] firsts(front)[k])
                    == signature(x);
            lemma_grouped_known(front, x, k);
            let g = grouped(front);
            lemma_hosts_in_update(
                g,
                k,
                (HostGroupView { aliases: g[k].aliases.push(x.alias), repr: g[k].repr }),
            );
        } else {
            lemma_grouped_new(front, x);
            assert(grouped(o).drop_last() == grouped(front));
        }
    }
}

/// How many hosts the groups hold.
pub open spec fn hosts_in(g: Seq<HostGroupView>) -> int
    decreases g.len(),
{
    if g.len() == 0 {
        0
    } else {
        hosts_in(g.drop_last()) + g.last().aliases.len()
    }
}

proof fn lemma_hosts_in_update(g: Seq<HostGroupView>, k: int, x: HostGroupView)
    requires
        0 <= k < g.len(),
    ensures
        hosts_in(g.update(k, x)) == hosts_in(g) - g[k].aliases.len() + x.aliases.len(),
    decreases g.len(),
{
    let u = g.update(k, x);
    if k == g.len() - 1 {
        assert(u.drop_last() == g.drop_last());
    } else {
        assert(u.drop_last() == g.drop_last().update(k, x));
        lemma_hosts_in_update(g.drop_last(), k, x);
    }
}

/// Every host of a health group is counted once: under its overall status, or as failed.
pub proof fn law_health_counts_add_up(o: Seq<HealthOutcomeView>)
    ensures
        hosts_at(o, HealthStatus::Okay) + hosts_at(o, HealthStatus::Warn) + hosts_at(
            o,
            HealthStatus::Crit,
        ) + hosts_at(o, HealthStatus::Unknown) + hosts_failed(o) == o.len(),
    decreases o.len(),
{
    if o.len() > 0 {
        law_health_counts_add_up(o.drop_last());
    }
}

/// A host's total, if it was scored.
pub open spec fn host_total(o: AuditOutcomeView) -> Option<u8> {
    match o.result {
        Ok((score, _)) => Some(score.total),
        Err(_) => None,
    }
}

/// The lowest score is the score of some host, and no host scored less.
pub proof fn law_lowest_score_is_lowest(o: Seq<AuditOutcomeView>)
    ensures
        match lowest_score(o) {
            Some(low) => {
                &&& exists|i: int| 0 <= i < o.len() && host_total(#[trigger] o[i]) == Some(low)
                &&& forall|i: int|
                    0 <= i < o.len() ==> (host_total(#[trigger] o[i]) matches Some(t) ==> t >= low)
            },
            None => forall|i: int| 0 <= i < o.len() ==> host_total(#[trigger] o[i]) is None,
        },
    decreases o.len(),
{
    if o.len() > 0 {
        let front = o.drop_last();
        let n = o.len() - 1;
        law_lowest_score_is_lowest(front);
        assert(forall|i: int| 0 <= i < n ==> front[i] == #[trigger] o[i]);
        assert(host_total(o[n]) == host_total(o.last()));
        match lowest_score(front) {
            Some(low) => {
                let i = choose|i: int|
                    0 <= i < front.len() && host_total(#[trigger] front[i]) == Some(low);
                assert(host_total(o[i]) == Some(low));
            },
            None => {},
        }
    }
}

} // verus!
