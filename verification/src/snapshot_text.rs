//! Reading the lines of a history file back into snapshots.

use crate::health::report::status_name;
use crate::health::HealthStatus;
use crate::history::{
    all_recorded, by_key, counter_json, counters_json, entries, entry_under, history_lines,
    law_recorded_lines_are_kept, lesser_limit, most_recent, one_entry, reading_json, readings_json,
    recent, snapshot_json, Snapshot, SnapshotView,
};
use crate::json::{
    each, exact, field, fields_view, held, list_view, merged, open, reads_back, show_number,
    text_list_value, text_value, whole_value, FieldsView, JsonView, Node,
};
use crate::json_text::{nested_within, parse, read_as};
use crate::text::chars::{chars_of, deep, deep_option, lemma_deep_empty, lemma_deep_push};
use crate::text::number::{decimal_of, lemma_digits_value, parse_decimal, parse_u64, u64_of};
use crate::text::order::{lemma_sorted, sorted};
use crate::text::search::eq_text;
use crate::text::split::{lemma_filter_map_step, lemma_take_all};
use crate::textmap::{
    distinct_keys, lemma_lookup_put, lemma_slot, lemma_slot_is, lookup, put, slot, TextMap,
};
use vstd::prelude::*;

verus! {

/// The status of that name.
pub open spec fn status_named(s: Seq<char>) -> Option<HealthStatus> {
    if s == "ok"@ {
        Some(HealthStatus::Okay)
    } else if s == "warn"@ {
        Some(HealthStatus::Warn)
    } else if s == "crit"@ {
        Some(HealthStatus::Crit)
    } else if s == "unknown"@ {
        Some(HealthStatus::Unknown)
    } else {
        None
    }
}

pub open spec fn status_from(v: JsonView) -> Option<HealthStatus> {
    match v {
        JsonView::Text(s) => status_named(s),
        _ => None,
    }
}

/// A number, in millionths.
pub open spec fn reading_from(v: JsonView) -> Option<i64> {
    match v {
        JsonView::Number(x) => decimal_of(x),
        _ => None,
    }
}

/// A whole number that is not negative.
pub open spec fn count_from(v: JsonView) -> Option<u64> {
    match v {
        JsonView::Number(x) => u64_of(x),
        _ => None,
    }
}

pub open spec fn text_from(v: JsonView) -> Option<Seq<char>> {
    match v {
        JsonView::Text(s) => Some(s),
        _ => None,
    }
}

/// What must be there.
pub open spec fn needed<A>(v: Option<JsonView>, f: spec_fn(JsonView) -> Option<A>) -> Option<A> {
    match v {
        Some(x) => f(x),
        None => None,
    }
}

/// The values of a list, if each of them is one; none where the list is missing.
pub open spec fn values_from<A>(v: Option<JsonView>, f: spec_fn(JsonView) -> Option<A>) -> Option<
    Seq<A>,
> {
    match v {
        None => Some(Seq::empty()),
        Some(JsonView::List(values)) => if forall|i: int|
            0 <= i < values.len() ==> f(#[trigger] values[i]) is Some {
            Some(values.map_values(|x: JsonView| f(x)->0))
        } else {
            None
        },
        Some(_) => None,
    }
}

/// The entries of an object, if each value is one; none where the object is missing.
pub open spec fn entries_from<A>(v: Option<JsonView>, f: spec_fn(JsonView) -> Option<A>) -> Option<
    Seq<(Seq<char>, A)>,
> {
    match v {
        None => Some(Seq::empty()),
        Some(JsonView::Object(fields)) => if forall|i: int|
            0 <= i < fields.len() ==> f((#[trigger] fields[i]).1) is Some {
            Some(fields.map_values(|e: (Seq<char>, JsonView)| (e.0, f(e.1)->0)))
        } else {
            None
        },
        Some(_) => None,
    }
}

pub open spec fn status_fn() -> spec_fn(JsonView) -> Option<HealthStatus> {
    |v: JsonView| status_from(v)
}

pub open spec fn reading_fn() -> spec_fn(JsonView) -> Option<i64> {
    |v: JsonView| reading_from(v)
}

pub open spec fn count_fn() -> spec_fn(JsonView) -> Option<u64> {
    |v: JsonView| count_from(v)
}

pub open spec fn text_fn() -> spec_fn(JsonView) -> Option<Seq<char>> {
    |v: JsonView| text_from(v)
}

/// The snapshot that fields spell: the time and the overall status must be there; what else is
/// missing is empty, and unknown fields do not count.
pub open spec fn snapshot_of_fields(fields: FieldsView) -> Option<SnapshotView> {
    match (
        needed(lookup(fields, "ts"@), count_fn()),
        needed(lookup(fields, "overall"@), status_fn()),
        entries_from(lookup(fields, "metrics"@), reading_fn()),
        entries_from(lookup(fields, "containers"@), count_fn()),
        values_from(lookup(fields, "failed_units"@), text_fn()),
        entries_from(lookup(fields, "event_counters"@), count_fn()),
    ) {
        (
            Some(ts),
            Some(overall),
            Some(metrics),
            Some(containers),
            Some(failed_units),
            Some(event_counters),
        ) => Some(
            SnapshotView { ts, overall, metrics, containers, failed_units, event_counters },
        ),
        _ => None,
    }
}

pub open spec fn snapshot_from(v: JsonView) -> Option<SnapshotView> {
    match v {
        JsonView::Object(fields) => snapshot_of_fields(fields),
        _ => None,
    }
}

/// The snapshot that a line of a history file spells, if it is one.
pub open spec fn read_snapshot(line: Seq<char>) -> Option<SnapshotView> {
    match read_as(line) {
        Some(v) => snapshot_from(v),
        None => None,
    }
}

/// The snapshots of a history file in the order of its lines, without the lines that spell none:
/// the most recent `limit`, or all where that is 0.
pub open spec fn history_read(file: Seq<char>, limit: usize) -> Seq<SnapshotView> {
    most_recent(entries(file).filter_map(|l: Seq<char>| read_snapshot(l)), limit)
}

fn read_status(v: serde_json::Value) -> (r: Option<HealthStatus>)
    ensures
        r == status_from(held(v)),
{
    match open(v) {
        Node::Text(s) => {
            if eq_text(s.as_str(), "ok") {
                Some(HealthStatus::Okay)
            } else if eq_text(s.as_str(), "warn") {
                Some(HealthStatus::Warn)
            } else if eq_text(s.as_str(), "crit") {
                Some(HealthStatus::Crit)
            } else if eq_text(s.as_str(), "unknown") {
                Some(HealthStatus::Unknown)
            } else {
                None
            }
        },
        _ => None,
    }
}

fn read_reading(v: serde_json::Value) -> (r: Option<i64>)
    ensures
        r == reading_from(held(v)),
{
    match open(v) {
        Node::Number(n) => {
            let x = chars_of(show_number(&n).as_str());
            parse_decimal(x.as_slice())
        },
        _ => None,
    }
}

fn read_count(v: serde_json::Value) -> (r: Option<u64>)
    ensures
        r == count_from(held(v)),
{
    match open(v) {
        Node::Number(n) => {
            let x = chars_of(show_number(&n).as_str());
            parse_u64(x.as_slice())
        },
        _ => None,
    }
}

fn read_text(v: serde_json::Value) -> (r: Option<String>)
    ensures
        deep_option(r) == text_from(held(v)),
{
    match open(v) {
        Node::Text(s) => Some(s),
        _ => None,
    }
}

/// The items in the opposite order.
fn turned<T>(items: Vec<T>) -> (r: Vec<T>)
    ensures
        r@ == items@.reverse(),
{
    let ghost all = items@;
    let mut rest = items;
    let mut out: Vec<T> = Vec::new();
    while rest.len() > 0
        invariant
            rest@.len() <= all.len(),
            rest@ == all.take(rest@.len() as int),
            out@ == all.skip(rest@.len() as int).reverse(),
        decreases rest@.len(),
    {
        let ghost n = rest@.len() as int;
        match rest.pop() {
            Some(x) => {
                out.push(x);
                proof {
                    assert(x == all[n - 1]);
                    assert(all.skip(n - 1).reverse() =~= all.skip(n).reverse().push(x));
                    assert(all.take(n).drop_last() =~= all.take(n - 1));
                }
            },
            None => {},
        }
    }
    proof {
        assert(all.skip(0) =~= all);
    }
    out
}

fn read_entries<A: View, F: Fn(serde_json::Value) -> Option<A>>(
    v: Option<serde_json::Value>,
    f: F,
    Ghost(g): Ghost<spec_fn(JsonView) -> Option<A::V>>,
) -> (r: Option<TextMap<A>>)
    requires
        forall|x: serde_json::Value| call_requires(f, (x,)),
        forall|x: serde_json::Value, o: Option<A>|
            call_ensures(f, (x,), o) ==> deep_option(o) == g(held(x)),
    ensures
        deep_option(r) == entries_from(held_option(v), g),
{
    broadcast use lemma_deep_empty;

    let value = match v {
        Some(x) => x,
        None => {
            return Some(TextMap::new());
        },
    };
    let fields = match open(value) {
        Node::Object(fields) => fields,
        _ => {
            return None;
        },
    };
    let ghost all = fields_view(fields@);
    let ghost pick = |e: (Seq<char>, JsonView)| (e.0, g(e.1)->0);
    let ghost whole = fields@;
    let mut rest = turned(fields);
    let mut out: Vec<(String, A)> = Vec::new();
    let ghost mut i: int = 0;
    proof {
        assert(whole.skip(0) =~= whole);
        assert(deep(out@) =~= all.take(0).map_values(pick));
    }
    while rest.len() > 0
        invariant
            0 <= i <= all.len(),
            all == fields_view(whole),
            rest@ == whole.skip(i).reverse(),
            pick == |e: (Seq<char>, JsonView)| (e.0, g(e.1)->0),
            deep(out@) == all.take(i).map_values(pick),
            forall|j: int| 0 <= j < i ==> g((#[trigger] all[j]).1) is Some,
            held(value) == JsonView::Object(all),
            v == Some(value),
            forall|x: serde_json::Value| call_requires(f, (x,)),
            forall|x: serde_json::Value, o: Option<A>|
                call_ensures(f, (x,), o) ==> deep_option(o) == g(held(x)),
        decreases rest@.len(),
    {
        broadcast use lemma_deep_push;

        match rest.pop() {
            Some((k, x)) => {
                proof {
                    assert((k, x) == whole[i]);
                    assert(all[i] == (k@, held(x)));
                    assert(whole.skip(i).reverse().drop_last() =~= whole.skip(i + 1).reverse());
                }
                match f(x) {
                    Some(a) => {
                        out.push((k, a));
                        proof {
                            assert(all.take(i + 1).map_values(pick) =~= all.take(i).map_values(
                                pick,
                            ).push(pick(all[i])));
                        }
                    },
                    None => {
                        proof {
                            assert(g(all[i].1) is None);
                        }
                        return None;
                    },
                }
                proof {
                    i = i + 1;
                }
            },
            None => {},
        }
    }
    proof {
        assert(i == all.len());
        lemma_take_all(all);
        assert(all.map_values(pick) =~= all.map_values(
            |e: (Seq<char>, JsonView)| (e.0, g(e.1)->0),
        ));
    }
    Some(TextMap { entries: out })
}

/// What a value holds, where there is one.
pub open spec fn held_option(v: Option<serde_json::Value>) -> Option<JsonView> {
    match v {
        Some(x) => Some(held(x)),
        None => None,
    }
}

fn read_texts(v: Option<serde_json::Value>) -> (r: Option<Vec<String>>)
    ensures
        (match r {
            Some(t) => Some(deep(t@)),
            None => None,
        }) == values_from(held_option(v), text_fn()),
{
    broadcast use lemma_deep_empty;

    let value = match v {
        Some(x) => x,
        None => {
            return Some(Vec::new());
        },
    };
    let values = match open(value) {
        Node::List(values) => values,
        _ => {
            return None;
        },
    };
    let ghost all = list_view(values@);
    let ghost pick = |x: JsonView| text_fn()(x)->0;
    let ghost whole = values@;
    let mut rest = turned(values);
    let mut out: Vec<String> = Vec::new();
    let ghost mut i: int = 0;
    proof {
        assert(whole.skip(0) =~= whole);
        assert(deep(out@) =~= all.take(0).map_values(pick));
    }
    while rest.len() > 0
        invariant
            0 <= i <= all.len(),
            all == list_view(whole),
            rest@ == whole.skip(i).reverse(),
            pick == |x: JsonView| text_fn()(x)->0,
            deep(out@) == all.take(i).map_values(pick),
            forall|j: int| 0 <= j < i ==> text_fn()(#[trigger] all[j]) is Some,
            held(value) == JsonView::List(all),
            v == Some(value),
        decreases rest@.len(),
    {
        broadcast use lemma_deep_push;

        match rest.pop() {
            Some(x) => {
                proof {
                    assert(x == whole[i]);
                    assert(all[i] == held(x));
                    assert(whole.skip(i).reverse().drop_last() =~= whole.skip(i + 1).reverse());
                }
                match read_text(x) {
                    Some(s) => {
                        out.push(s);
                        proof {
                            assert(all.take(i + 1).map_values(pick) =~= all.take(i).map_values(
                                pick,
                            ).push(pick(all[i])));
                        }
                    },
                    None => {
                        proof {
                            assert(text_fn()(all[i]) is None);
                        }
                        return None;
                    },
                }
                proof {
                    i = i + 1;
                }
            },
            None => {},
        }
    }
    proof {
        assert(i == all.len());
        lemma_take_all(all);
    }
    Some(out)
}

/// The values of the fields that a snapshot has.
struct Parts {
    ts: Option<serde_json::Value>,
    overall: Option<serde_json::Value>,
    metrics: Option<serde_json::Value>,
    containers: Option<serde_json::Value>,
    failed_units: Option<serde_json::Value>,
    event_counters: Option<serde_json::Value>,
}

spec fn parts_of(p: Parts, fields: FieldsView) -> bool {
    &&& held_option(p.ts) == lookup(fields, "ts"@)
    &&& held_option(p.overall) == lookup(fields, "overall"@)
    &&& held_option(p.metrics) == lookup(fields, "metrics"@)
    &&& held_option(p.containers) == lookup(fields, "containers"@)
    &&& held_option(p.failed_units) == lookup(fields, "failed_units"@)
    &&& held_option(p.event_counters) == lookup(fields, "event_counters"@)
}

/// A field before the others is found first.
proof fn lemma_lookup_first<V>(m: Seq<(Seq<char>, V)>, k: Seq<char>)
    requires
        m.len() > 0,
    ensures
        lookup(m, k) == if m[0].0 == k {
            Some(m[0].1)
        } else {
            lookup(m.skip(1), k)
        },
{
    lemma_slot(m, k);
    lemma_slot(m.skip(1), k);
}

/// The names of a snapshot's fields are different.
proof fn lemma_names_differ()
    ensures
        "ts"@ != "overall"@ && "ts"@ != "metrics"@ && "ts"@ != "containers"@ && "ts"@
            != "failed_units"@ && "ts"@ != "event_counters"@,
        "overall"@ != "metrics"@ && "overall"@ != "containers"@ && "overall"@ != "failed_units"@
            && "overall"@ != "event_counters"@,
        "metrics"@ != "containers"@ && "metrics"@ != "failed_units"@ && "metrics"@
            != "event_counters"@,
        "containers"@ != "failed_units"@ && "containers"@ != "event_counters"@,
        "failed_units"@ != "event_counters"@,
{
    reveal_strlit("ts");
    reveal_strlit("overall");
    reveal_strlit("metrics");
    reveal_strlit("containers");
    reveal_strlit("failed_units");
    reveal_strlit("event_counters");
    assert("ts"@.len() == 2 && "overall"@.len() == 7 && "metrics"@.len() == 7);
    assert("containers"@.len() == 10 && "failed_units"@.len() == 12);
    assert("event_counters"@.len() == 14);
    assert("overall"@[0] != "metrics"@[0]);
}

fn gather(fields: Vec<(String, serde_json::Value)>) -> (r: Parts)
    ensures
        parts_of(r, fields_view(fields@)),
{
    let ghost all = fields_view(fields@);
    let ghost whole = fields@;
    let mut rest = fields;
    let mut p = Parts {
        ts: None,
        overall: None,
        metrics: None,
        containers: None,
        failed_units: None,
        event_counters: None,
    };
    proof {
        lemma_names_differ();
        let none = all.skip(all.len() as int);
        lemma_slot(none, "ts"@);
        lemma_slot(none, "overall"@);
        lemma_slot(none, "metrics"@);
        lemma_slot(none, "containers"@);
        lemma_slot(none, "failed_units"@);
        lemma_slot(none, "event_counters"@);
        lemma_take_all(whole);
    }
    while rest.len() > 0
        invariant
            rest@.len() <= whole.len(),
            all == fields_view(whole),
            rest@ == whole.take(rest@.len() as int),
            parts_of(p, all.skip(rest@.len() as int)),
        decreases rest@.len(),
    {
        let ghost n = rest@.len() as int;
        proof {
            lemma_names_differ();
            let tail = all.skip(n - 1);
            assert(tail.skip(1) =~= all.skip(n));
            lemma_lookup_first(tail, "ts"@);
            lemma_lookup_first(tail, "overall"@);
            lemma_lookup_first(tail, "metrics"@);
            lemma_lookup_first(tail, "containers"@);
            lemma_lookup_first(tail, "failed_units"@);
            lemma_lookup_first(tail, "event_counters"@);
        }
        match rest.pop() {
            Some((k, x)) => {
                proof {
                    assert((k, x) == whole[n - 1]);
                    assert(all.skip(n - 1)[0] == (k@, held(x)));
                    assert(whole.take(n).drop_last() =~= whole.take(n - 1));
                }
                let key = k.as_str();
                if eq_text(key, "ts") {
                    p.ts = Some(x);
                } else if eq_text(key, "overall") {
                    p.overall = Some(x);
                } else if eq_text(key, "metrics") {
                    p.metrics = Some(x);
                } else if eq_text(key, "containers") {
                    p.containers = Some(x);
                } else if eq_text(key, "failed_units") {
                    p.failed_units = Some(x);
                } else if eq_text(key, "event_counters") {
                    p.event_counters = Some(x);
                }
            },
            None => {},
        }
    }
    proof {
        assert(all.skip(0) =~= all);
    }
    p
}

/// Reads a snapshot from a line of a history file; `None` where the line spells none.
pub fn read_line(line: &str) -> (r: Option<Snapshot>)
    ensures
        deep_option(r) == read_snapshot(line@),
{
    let value = match parse(line) {
        Some(v) => v,
        None => {
            return None;
        },
    };
    let fields = match open(value) {
        Node::Object(fields) => fields,
        _ => {
            return None;
        },
    };
    let p = gather(fields);
    let ts = match p.ts {
        Some(v) => read_count(v),
        None => None,
    };
    let overall = match p.overall {
        Some(v) => read_status(v),
        None => None,
    };
    let reading = |v: serde_json::Value| -> (o: Option<i64>)
        ensures
            o == reading_from(held(v)),
        { read_reading(v) };
    let metrics = read_entries(p.metrics, reading, Ghost(reading_fn()));
    let count = |v: serde_json::Value| -> (o: Option<u64>)
        ensures
            o == count_from(held(v)),
        { read_count(v) };
    let containers = read_entries(p.containers, count, Ghost(count_fn()));
    let failed_units = read_texts(p.failed_units);
    let counter = |v: serde_json::Value| -> (o: Option<u64>)
        ensures
            o == count_from(held(v)),
        { read_count(v) };
    let event_counters = read_entries(p.event_counters, counter, Ghost(count_fn()));
    match (ts, overall, metrics, containers, failed_units, event_counters) {
        (
            Some(ts),
            Some(overall),
            Some(metrics),
            Some(containers),
            Some(failed_units),
            Some(event_counters),
        ) => Some(Snapshot { ts, overall, metrics, containers, failed_units, event_counters }),
        _ => None,
    }
}

/// Reads the most recent `limit` snapshots of a history file in chronological order; lines that
/// spell none are skipped, so that one bad line does not sink the whole history. `limit == 0`
/// gives everything.
pub fn read_history(file: &str, limit: usize) -> (r: Vec<Snapshot>)
    ensures
        deep(r@) == history_read(file@, limit),
{
    broadcast use lemma_deep_empty;

    let ls = history_lines(file);
    let ghost all = deep(ls@);
    let ghost f = |l: Seq<char>| read_snapshot(l);
    let mut out: Vec<Snapshot> = Vec::new();
    let mut i: usize = 0;
    while i < ls.len()
        invariant
            i <= ls@.len(),
            all == deep(ls@),
            f == |l: Seq<char>| read_snapshot(l),
            deep(out@) == all.take(i as int).filter_map(f),
        decreases ls@.len() - i,
    {
        broadcast use lemma_deep_push;

        proof {
            lemma_filter_map_step(all, f, i as int);
        }
        match read_line(ls[i].as_str()) {
            Some(s) => {
                out.push(s);
            },
            None => {},
        }
        i = i + 1;
    }
    let ghost found = out@;
    let r = recent(out, limit);
    proof {
        lemma_take_all(all);
        assert(deep(most_recent(found, limit)) =~= most_recent(deep(found), limit));
    }
    r
}

/// Entries in the order of their keys are the same entries.
pub proof fn law_by_key_keeps_entries<V>(m: Seq<(Seq<char>, V)>, q: Seq<char>)
    requires
        distinct_keys(m),
    ensures
        by_key(m).len() == m.len(),
        distinct_keys(by_key(m)),
        lookup(by_key(m), q) == lookup(m, q),
{
    broadcast use vstd::seq_lib::group_to_multiset_ensures;

    let keys = m.map_values(|e: (Seq<char>, V)| e.0);
    let ks = sorted(keys);
    let f = |k: Seq<char>| entry_under(m, k);
    lemma_sorted(keys);
    assert(keys.no_duplicates());
    keys.lemma_multiset_has_no_duplicates();
    ks.lemma_multiset_has_no_duplicates_conv();
    assert forall|i: int| 0 <= i < ks.len() implies lookup(m, #[trigger] ks[i]) is Some by {
        assert(ks.contains(ks[i]));
        assert(keys.to_multiset().count(ks[i]) > 0);
        assert(keys.contains(ks[i]));
        let j = keys.index_of(ks[i]);
        lemma_slot(m, ks[i]);
        assert(m[j].0 == ks[i]);
    }
    lemma_all_found(ks, f);
    let r = by_key(m);
    assert(forall|i: int| 0 <= i < r.len() ==> (#[trigger] r[i]).0 == ks[i]);
    lemma_slot(r, q);
    lemma_slot(m, q);
    let i = slot(r, q);
    let j = slot(m, q);
    if i < r.len() {
        assert(r[i] == f(ks[i])->0);
    } else if j < m.len() {
        assert(keys[j] == q);
        assert(keys.contains(q));
        assert(ks.to_multiset().count(q) > 0);
        assert(ks.contains(q));
        let k = ks.index_of(q);
        assert(r[k].0 == q);
    }
}

/// What holds of every value of a map holds of them in the order of their keys.
pub proof fn lemma_by_key_all<V>(m: Seq<(Seq<char>, V)>, p: spec_fn(V) -> bool)
    requires
        forall|i: int| 0 <= i < m.len() ==> p((#[trigger] m[i]).1),
    ensures
        forall|i: int| 0 <= i < by_key(m).len() ==> p((#[trigger] by_key(m)[i]).1),
{
    lemma_found_all(sorted(m.map_values(|e: (Seq<char>, V)| e.0)), m, p);
}

proof fn lemma_found_all<V>(ks: Seq<Seq<char>>, m: Seq<(Seq<char>, V)>, p: spec_fn(V) -> bool)
    requires
        forall|i: int| 0 <= i < m.len() ==> p((#[trigger] m[i]).1),
    ensures
        ({
            let r = ks.filter_map(|k: Seq<char>| entry_under(m, k));
            forall|i: int| 0 <= i < r.len() ==> p((#[trigger] r[i]).1)
        }),
    decreases ks.len(),
{
    let f = |k: Seq<char>| entry_under(m, k);
    let r = ks.filter_map(f);
    if ks.len() > 0 {
        lemma_found_all(ks.drop_last(), m, p);
        let front = ks.drop_last().filter_map(f);
        let k = ks.last();
        lemma_slot(m, k);
        if slot(m, k) < m.len() {
            assert(p(m[slot(m, k)].1));
        }
        assert forall|i: int| 0 <= i < r.len() implies p((#[trigger] r[i]).1) by {
            if i < front.len() {
                assert(r[i] == front[i]);
            }
        }
    }
}

/// Where everything is found, nothing is left out.
proof fn lemma_all_found<A, B>(s: Seq<A>, f: spec_fn(A) -> Option<B>)
    requires
        forall|i: int| 0 <= i < s.len() ==> f(#[trigger] s[i]) is Some,
    ensures
        s.filter_map(f) == s.map_values(|x: A| f(x)->0),
    decreases s.len(),
{
    let g = |x: A| f(x)->0;
    if s.len() > 0 {
        let n = s.len() - 1;
        let front = s.take(n);
        assert forall|i: int| 0 <= i < front.len() implies f(#[trigger] front[i]) is Some by {
            assert(front[i] == s[i]);
        }
        lemma_all_found(front, f);
        lemma_filter_map_step(s, f, n);
        lemma_take_all(s);
        assert(f(s[n]) is Some);
        assert(s.map_values(g) =~= front.map_values(g).push(g(s[n])));
    } else {
        assert(s.filter_map(f) =~= s.map_values(g));
    }
}

/// The snapshot with the entries of its maps in the order of their keys.
pub open spec fn ordered(s: SnapshotView) -> SnapshotView {
    SnapshotView {
        metrics: by_key(s.metrics),
        containers: by_key(s.containers),
        event_counters: by_key(s.event_counters),
        ..s
    }
}

/// A snapshot whose maps have no key twice, and whose readings a JSON number holds exactly.
pub open spec fn storable(s: SnapshotView) -> bool {
    &&& distinct_keys(s.metrics)
    &&& distinct_keys(s.containers)
    &&& distinct_keys(s.event_counters)
    &&& forall|i: int| 0 <= i < s.metrics.len() ==> exact((#[trigger] s.metrics[i]).1)
}

/// Fields with distinct names stay as they are.
proof fn lemma_merged_distinct(fields: FieldsView)
    requires
        distinct_keys(fields),
    ensures
        merged(FieldsView::empty(), fields) == fields,
    decreases fields.len(),
{
    if fields.len() > 0 {
        let front = fields.drop_last();
        let n = fields.len() - 1;
        assert forall|i: int, j: int| 0 <= i < j < front.len() implies (#[trigger] front[i]).0 != (
        #[trigger] front[j]).0 by {
            assert(fields[i].0 != fields[j].0);
        }
        lemma_merged_distinct(front);
        let k = fields.last().0;
        assert forall|j: int| 0 <= j < n implies (#[trigger] front[j]).0 != k by {
            assert(fields[j].0 != fields[n].0);
        }
        lemma_slot_is(front, k, n);
        assert(front.push(fields.last()) =~= fields);
    }
}

/// What holds of every value holds of those that are merged.
proof fn lemma_merged_values(fields: FieldsView, p: spec_fn(JsonView) -> bool)
    requires
        forall|i: int| 0 <= i < fields.len() ==> p((#[trigger] fields[i]).1),
    ensures
        ({
            let m = merged(FieldsView::empty(), fields);
            forall|i: int| 0 <= i < m.len() ==> p((#[trigger] m[i]).1)
        }),
    decreases fields.len(),
{
    if fields.len() > 0 {
        let front = fields.drop_last();
        assert forall|i: int| 0 <= i < front.len() implies p((#[trigger] front[i]).1) by {
            assert(front[i] == fields[i]);
        }
        lemma_merged_values(front, p);
        let n = fields.len() - 1;
        assert(p(fields[n].1));
        let before = merged(FieldsView::empty(), front);
        let k = fields[n].0;
        lemma_slot(before, k);
        let m = put(before, k, fields[n].1);
        assert forall|i: int| 0 <= i < m.len() implies p((#[trigger] m[i]).1) by {
            if i < before.len() {
                assert(p(before[i].1));
            }
        }
    } else {
        assert(merged(FieldsView::empty(), fields).len() == 0);
    }
}

proof fn lemma_readings_back(m: Seq<(Seq<char>, i64)>)
    requires
        distinct_keys(m),
        forall|i: int| 0 <= i < by_key(m).len() ==> reads_back((#[trigger] by_key(m)[i]).1),
    ensures
        entries_from(Some(readings_json(m)), reading_fn()) == Some(by_key(m)),
        nested_within(readings_json(m), 1),
{
    let s = by_key(m);
    law_by_key_keeps_entries(m, Seq::empty());
    let fields = s.map_values(|e: (Seq<char>, i64)| reading_json(e));
    assert forall|i: int, j: int| 0 <= i < j < fields.len() implies (#[trigger] fields[i]).0 != (
    #[trigger] fields[j]).0 by {
        assert(s[i].0 != s[j].0);
    }
    lemma_merged_distinct(fields);
    assert forall|i: int| 0 <= i < fields.len() implies reading_fn()((#[trigger] fields[i]).1)
        == Some(s[i].1) by {
        assert(reads_back(s[i].1));
    }
    assert(fields.map_values(|e: (Seq<char>, JsonView)| (e.0, reading_fn()(e.1)->0)) =~= s);
    assert forall|i: int| 0 <= i < fields.len() implies nested_within(
        (#[trigger] fields[i]).1,
        0,
    ) by {}
}

proof fn lemma_counters_back(m: Seq<(Seq<char>, u64)>)
    requires
        distinct_keys(m),
    ensures
        entries_from(Some(counters_json(m)), count_fn()) == Some(by_key(m)),
        nested_within(counters_json(m), 1),
{
    let s = by_key(m);
    law_by_key_keeps_entries(m, Seq::empty());
    let fields = s.map_values(|e: (Seq<char>, u64)| counter_json(e));
    assert forall|i: int, j: int| 0 <= i < j < fields.len() implies (#[trigger] fields[i]).0 != (
    #[trigger] fields[j]).0 by {
        assert(s[i].0 != s[j].0);
    }
    lemma_merged_distinct(fields);
    assert forall|i: int| 0 <= i < fields.len() implies count_fn()((#[trigger] fields[i]).1)
        == Some(s[i].1) by {
        lemma_digits_value(s[i].1);
    }
    assert(fields.map_values(|e: (Seq<char>, JsonView)| (e.0, count_fn()(e.1)->0)) =~= s);
    assert forall|i: int| 0 <= i < fields.len() implies nested_within(
        (#[trigger] fields[i]).1,
        0,
    ) by {}
}

proof fn lemma_texts_back(items: Seq<Seq<char>>)
    ensures
        values_from(Some(text_list_value(items)), text_fn()) == Some(items),
        nested_within(text_list_value(items), 1),
{
    let values = each(items, |s: Seq<char>| text_value(s));
    assert forall|i: int| 0 <= i < values.len() implies text_fn()(#[trigger] values[i]) == Some(
        items[i],
    ) by {}
    assert(values.map_values(|x: JsonView| text_fn()(x)->0) =~= items);
    assert forall|i: int| 0 <= i < values.len() implies nested_within(#[trigger] values[i], 0) by {}
}

proof fn lemma_status_back(s: HealthStatus)
    ensures
        status_named(status_name(s)) == Some(s),
{
    reveal_strlit("ok");
    reveal_strlit("warn");
    reveal_strlit("crit");
    reveal_strlit("unknown");
    assert("ok"@.len() == 2 && "warn"@.len() == 4 && "crit"@.len() == 4 && "unknown"@.len() == 7);
    assert("warn"@[0] != "crit"@[0]);
}

/// One more field is found under its name, and the others under theirs.
proof fn lemma_lookup_field(fields: FieldsView, k: Seq<char>, v: JsonView, q: Seq<char>)
    ensures
        lookup(merged(FieldsView::empty(), fields + field(k, v)), q) == if q == k {
            Some(v)
        } else {
            lookup(merged(FieldsView::empty(), fields), q)
        },
{
    let all = fields + field(k, v);
    assert(all.drop_last() =~= fields);
    lemma_lookup_put(merged(FieldsView::empty(), fields), k, v, q);
}

/// The fields of a snapshot are found under their names.
proof fn lemma_snapshot_fields(
    a: JsonView,
    b: JsonView,
    c: JsonView,
    d: JsonView,
    e: JsonView,
    f: JsonView,
    q: Seq<char>,
)
    ensures
        ({
            let all = field("ts"@, a) + field("overall"@, b) + field("metrics"@, c) + field(
                "containers"@,
                d,
            ) + field("failed_units"@, e) + field("event_counters"@, f);
            lookup(merged(FieldsView::empty(), all), q) == if q == "event_counters"@ {
                Some(f)
            } else if q == "failed_units"@ {
                Some(e)
            } else if q == "containers"@ {
                Some(d)
            } else if q == "metrics"@ {
                Some(c)
            } else if q == "overall"@ {
                Some(b)
            } else if q == "ts"@ {
                Some(a)
            } else {
                None
            }
        }),
{
    let none = FieldsView::empty();
    let s1 = field("ts"@, a);
    let s2 = s1 + field("overall"@, b);
    let s3 = s2 + field("metrics"@, c);
    let s4 = s3 + field("containers"@, d);
    let s5 = s4 + field("failed_units"@, e);
    assert(none + s1 =~= s1);
    lemma_slot(none, q);
    assert(merged(none, none) == none);
    lemma_lookup_field(none, "ts"@, a, q);
    lemma_lookup_field(s1, "overall"@, b, q);
    lemma_lookup_field(s2, "metrics"@, c, q);
    lemma_lookup_field(s3, "containers"@, d, q);
    lemma_lookup_field(s4, "failed_units"@, e, q);
    lemma_lookup_field(s5, "event_counters"@, f, q);
}

/// The JSON of a snapshot spells the snapshot, with its maps in the order of their keys.
pub proof fn lemma_snapshot_back(s: SnapshotView)
    requires
        distinct_keys(s.metrics),
        distinct_keys(s.containers),
        distinct_keys(s.event_counters),
        forall|i: int|
            0 <= i < by_key(s.metrics).len() ==> reads_back((#[trigger] by_key(s.metrics)[i]).1),
    ensures
        snapshot_from(snapshot_json(s)) == Some(ordered(s)),
        nested_within(snapshot_json(s), 100),
{
    let a = whole_value(s.ts as int);
    let b = text_value(status_name(s.overall));
    let c = readings_json(s.metrics);
    let d = counters_json(s.containers);
    let e = text_list_value(s.failed_units);
    let f = counters_json(s.event_counters);
    let all = field("ts"@, a) + field("overall"@, b) + field("metrics"@, c) + field(
        "containers"@,
        d,
    ) + field("failed_units"@, e) + field("event_counters"@, f);
    lemma_names_differ();
    lemma_snapshot_fields(a, b, c, d, e, f, "ts"@);
    lemma_snapshot_fields(a, b, c, d, e, f, "overall"@);
    lemma_snapshot_fields(a, b, c, d, e, f, "metrics"@);
    lemma_snapshot_fields(a, b, c, d, e, f, "containers"@);
    lemma_snapshot_fields(a, b, c, d, e, f, "failed_units"@);
    lemma_snapshot_fields(a, b, c, d, e, f, "event_counters"@);
    lemma_digits_value(s.ts);
    lemma_status_back(s.overall);
    lemma_readings_back(s.metrics);
    lemma_counters_back(s.containers);
    lemma_texts_back(s.failed_units);
    lemma_counters_back(s.event_counters);
    let p = |v: JsonView| nested_within(v, 99);
    lemma_nested_more(c, 1, 99);
    lemma_nested_more(d, 1, 99);
    lemma_nested_more(e, 1, 99);
    lemma_nested_more(f, 1, 99);
    assert forall|i: int| 0 <= i < all.len() implies p((#[trigger] all[i]).1) by {
        assert(all[0].1 == a && all[1].1 == b && all[2].1 == c && all[3].1 == d && all[4].1 == e
            && all[5].1 == f);
    }
    lemma_merged_values(all, p);
    let m = merged(FieldsView::empty(), all);
    assert forall|i: int| 0 <= i < m.len() implies nested_within((#[trigger] m[i]).1, 99) by {
        assert(p(m[i].1));
    }
}

/// What is nested within a depth is nested within a greater one.
proof fn lemma_nested_more(v: JsonView, m: nat, n: nat)
    requires
        nested_within(v, m),
        m <= n,
    ensures
        nested_within(v, n),
    decreases m,
{
    match v {
        JsonView::List(values) => {
            assert forall|i: int| 0 <= i < values.len() implies nested_within(
                #[trigger] values[i],
                (n - 1) as nat,
            ) by {
                lemma_nested_more(values[i], (m - 1) as nat, (n - 1) as nat);
            }
        },
        JsonView::Object(fields) => {
            assert forall|i: int| 0 <= i < fields.len() implies nested_within(
                (#[trigger] fields[i]).1,
                (n - 1) as nat,
            ) by {
                lemma_nested_more(fields[i].1, (m - 1) as nat, (n - 1) as nat);
            }
        },
        _ => {},
    }
}

/// A line that a snapshot was written to: one entry, from which the snapshot is read.
pub open spec fn line_for(line: Seq<char>, s: SnapshotView) -> bool {
    one_entry(line) && read_snapshot(line) == Some(s)
}

/// Whatever was recorded is read back: of the snapshots that were written to a new history file
/// one after the other, with the file cut down to `max` each time, a reading with a limit gives
/// the newest that both allow, in the order of recording.
pub proof fn law_recorded_is_read_back(
    ls: Seq<Seq<char>>,
    snaps: Seq<SnapshotView>,
    max: usize,
    limit: usize,
)
    requires
        ls.len() == snaps.len(),
        forall|i: int| 0 <= i < ls.len() ==> line_for(#[trigger] ls[i], snaps[i]),
    ensures
        history_read(all_recorded(ls, max), limit) == most_recent(snaps, lesser_limit(max, limit)),
{
    assert forall|i: int| 0 <= i < ls.len() implies one_entry(#[trigger] ls[i]) by {
        assert(line_for(ls[i], snaps[i]));
    }
    law_recorded_lines_are_kept(ls, max, limit);
    let f = |l: Seq<char>| read_snapshot(l);
    let kept = most_recent(ls, max);
    let d = ls.len() - kept.len();
    assert forall|i: int| 0 <= i < kept.len() implies f(#[trigger] kept[i]) is Some by {
        assert(kept[i] == ls[d + i]);
        assert(line_for(ls[d + i], snaps[d + i]));
    }
    lemma_all_found(kept, f);
    let read = kept.map_values(|l: Seq<char>| f(l)->0);
    assert(read =~= most_recent(snaps, max)) by {
        assert forall|i: int| 0 <= i < kept.len() implies #[trigger] read[i] == snaps[d + i] by {
            assert(kept[i] == ls[d + i]);
            assert(line_for(ls[d + i], snaps[d + i]));
        }
    }
    assert(most_recent(most_recent(snaps, max), limit) =~= most_recent(
        snaps,
        lesser_limit(max, limit),
    ));
}

} // verus!
