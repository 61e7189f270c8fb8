//! How load, counters, certificates and kernel events are read from what the host prints.

use super::metric_laws::lemma_first_found;
use super::network_laws::held;
use super::parse::{
    cert_date, cert_notafter, column_sum, conntrack_drops, cpu_count, event_category, events_upto,
    is_digit_fn, kernel_events, lines_under, load_average, load_figure, load_figures, named,
    notafter_field, number_after, retransmits, section, tcp_error_counters, KernelEventCategoryView,
    KERNEL_SIGNATURES,
};
use super::snapshot::{event_counter, event_counters};
use crate::audit::{collected, OutputsView};
use crate::text::chars::white;
use crate::text::number::{
    decimal_of, digits, hex_of, lemma_digits_are_read, lemma_digits_shape, lemma_digits_value,
    strip_plus,
};
use crate::text::search::{
    after_first, first_occurrence, lemma_first_at, lemma_first_occurrence, mentions, occurs_at,
    starts_with,
};
use crate::text::split::{
    blank, column, is_white_fn, lemma_column, lemma_filter_map_step, lemma_run_ends_at,
    lemma_take_all, lines, one_of, trim, trim_end_by, trim_set, words,
};
use crate::textmap::lookup;
use vstd::prelude::*;

verus! {

/// A text has no comma in it.
pub open spec fn no_comma(s: Seq<char>) -> bool {
    forall|i: int| 0 <= i < s.len() ==> s[i] != ','
}

/// A figure of the load is a decimal number, with a comma behind it or not, and with a point or a
/// comma in it.
pub proof fn law_load_figure_is_read(whole: Seq<char>, part: Seq<char>)
    requires
        whole.len() > 0,
        part.len() > 0,
        no_comma(whole),
        no_comma(part),
    ensures
        load_figure(whole) == decimal_of(whole),
        load_figure(whole + seq![',']) == decimal_of(whole),
        load_figure(whole + seq![','] + part) == decimal_of(whole + seq!['.'] + part),
        load_figure(whole + seq![','] + part + seq![',']) == decimal_of(
            whole + seq!['.'] + part,
        ),
{
    lemma_bare_figure(whole);
    lemma_first_at(whole, ',', whole.len() as int);
    let mid = whole + seq![','] + part;
    assert(mid.last() == part.last());
    lemma_bare_figure(mid);
    lemma_first_at(mid, ',', whole.len() as int);
    assert(mid.update(whole.len() as int, '.') =~= whole + seq!['.'] + part);
}

proof fn lemma_bare_figure(t: Seq<char>)
    requires
        t.len() > 0,
        t[0] != ',',
        t.last() != ',',
    ensures
        trim_set(t, seq![',']) == t,
        trim_set(t + seq![','], seq![',']) == t,
{
    let set = seq![','];
    let q = one_of(set);
    assert(set[0] == ',');
    assert(set.contains(','));
    lemma_run_ends_at(t, q, 0);
    assert(t.skip(0) =~= t);
    assert(!q(t.last()));
    assert(trim_end_by(t, q) == t);
    let s = t + seq![','];
    assert(s[0] == t[0]);
    lemma_run_ends_at(s, q, 0);
    assert(s.skip(0) =~= s);
    assert(s.last() == ',');
    assert(s.drop_last() =~= t);
    assert(trim_end_by(s, q) == trim_end_by(t, q));
}

/// The load is told by the first three figures behind `load average:`.
pub proof fn law_load_is_read(
    before: Seq<char>,
    tail: Seq<char>,
    one: i64,
    five: i64,
    fifteen: i64,
)
    requires
        first_occurrence(before + "load average:"@ + tail, "load average:"@) == Some(
            before.len() as int,
        ),
        !mentions(tail, "load average:"@),
        words(tail).len() == 3,
        load_figure(words(tail)[0]) == Some(one),
        load_figure(words(tail)[1]) == Some(five),
        load_figure(words(tail)[2]) == Some(fifteen),
    ensures
        load_average(before + "load average:"@ + tail) == Some((one, five, fifteen)),
{
    let p = "load average:"@;
    let s = before + p + tail;
    assert(s.skip((before.len() + p.len()) as int) =~= tail);
    lemma_first_occurrence(tail, p);
    assert(first_occurrence(tail, p) is None) by {
        if first_occurrence(tail, p) is Some {
            assert(occurs_at(tail, p, first_occurrence(tail, p)->0));
        }
    }
    let ws = words(tail);
    let f = |w: Seq<char>| load_figure(w);
    lemma_filter_map_step(ws, f, 0);
    lemma_filter_map_step(ws, f, 1);
    lemma_filter_map_step(ws, f, 2);
    lemma_take_all(ws);
    assert(ws.take(0).filter_map(f) =~= Seq::<i64>::empty());
    assert(load_figures(tail) =~= seq![one, five, fifteen]);
}

/// Where the mark stands twice, what counts is what stands between.
pub proof fn law_first_of_two_counts(before: Seq<char>, mid: Seq<char>, rest: Seq<char>, p: Seq<char>)
    requires
        p.len() > 0,
        first_occurrence(before + p + (mid + p + rest), p) == Some(before.len() as int),
        first_occurrence(mid + p + rest, p) == Some(mid.len() as int),
    ensures
        after_first(before + p + (mid + p + rest), p) == Some(mid),
{
    let tail = mid + p + rest;
    let s = before + p + tail;
    assert(s.skip((before.len() + p.len()) as int) =~= tail);
    assert(tail.take(mid.len() as int) =~= mid);
}

/// The cores are told by the first line.
pub proof fn law_cores_are_read(output: Seq<char>, n: u32)
    requires
        lines(trim(output)).len() > 0,
        trim(lines(trim(output))[0]) == digits(n as int),
    ensures
        cpu_count(output) == Some(n),
{
    lemma_digits_are_read(n as int);
    lemma_digits_shape(n as int);
    assert(strip_plus(digits(n as int)) == digits(n as int));
}

/// The sum of the hexadecimal numbers in a column.
pub open spec fn hex_total(rows: Seq<Seq<char>>, k: int) -> int
    decreases rows.len(),
{
    if rows.len() == 0 {
        0
    } else {
        hex_total(rows.drop_last(), k) + if 0 <= k < words(rows.last()).len() && hex_of(
            words(rows.last())[k],
        ) is Some {
            hex_of(words(rows.last())[k])->0 as int
        } else {
            0
        }
    }
}

proof fn lemma_hex_total(rows: Seq<Seq<char>>, k: int)
    ensures
        column_sum(rows, Some(k)) == held(hex_total(rows, k)),
        hex_total(rows, k) >= 0,
    decreases rows.len(),
{
    if rows.len() > 0 {
        lemma_hex_total(rows.drop_last(), k);
    }
}

/// Line 0 is a heading with the word at the place, and not before.
pub open spec fn heads(output: Seq<char>, name: Seq<char>, k: int) -> bool {
    &&& lines(output).len() > 1
    &&& words(lines(output)[1]).len() > 0
    &&& 0 <= k < words(lines(output)[0]).len()
    &&& words(lines(output)[0])[k] == name
    &&& forall|j: int| 0 <= j < k ==> words(lines(output)[0])[j] != name
}

/// What the connection table dropped, dropped early, and failed to insert is the sum of the
/// hexadecimal numbers under that name, one of each processor, held at the greatest counter.
pub proof fn law_table_counters_are_summed(output: Seq<char>, k: int)
    ensures
        heads(output, "drop"@, k) ==> (conntrack_drops(output) matches Some(c) && c.0 == held(
            hex_total(lines(output).skip(1), k),
        )),
        heads(output, "early_drop"@, k) ==> (conntrack_drops(output) matches Some(c) && c.1 == held(
            hex_total(lines(output).skip(1), k),
        )),
        heads(output, "insert_failed"@, k) ==> (conntrack_drops(output) matches Some(c) && c.2
            == held(hex_total(lines(output).skip(1), k))),
{
    let ls = lines(output);
    if ls.len() > 1 {
        let rows = ls.skip(1);
        let head = words(ls[0]);
        assert(rows[0] == ls[1]);
        lemma_hex_total(rows, k);
        lemma_head(head, "drop"@, k);
        lemma_head(head, "early_drop"@, k);
        lemma_head(head, "insert_failed"@, k);
    }
}

proof fn lemma_head(head: Seq<Seq<char>>, name: Seq<char>, k: int)
    ensures
        0 <= k < head.len() && head[k] == name && (forall|j: int| 0 <= j < k ==> head[j] != name)
            ==> column(head, name) == Some(k),
{
    lemma_column(head, name);
    if 0 <= k < head.len() && head[k] == name {
        assert(head.contains(name));
    }
}

/// The section has the number in the column of that name.
pub open spec fn section_has(
    output: Seq<char>,
    prefix: Seq<char>,
    name: Seq<char>,
    n: u64,
) -> bool {
    section(output, prefix) matches Some(sec) && exists|k: int|
        0 <= k < sec.0.len() && k < sec.1.len() && #[trigger] sec.0[k] == name && sec.1[k] == digits(
            n as int,
        ) && forall|j: int| 0 <= j < k ==> sec.0[j] != name
}

proof fn lemma_section_has(output: Seq<char>, prefix: Seq<char>, name: Seq<char>, n: u64)
    requires
        section_has(output, prefix, name, n),
    ensures
        named(section(output, prefix)->0, name) == Some(n),
{
    let sec = section(output, prefix)->0;
    let k = choose|k: int|
        0 <= k < sec.0.len() && k < sec.1.len() && #[trigger] sec.0[k] == name && sec.1[k] == digits(
            n as int,
        ) && forall|j: int| 0 <= j < k ==> sec.0[j] != name;
    lemma_head(sec.0, name, k);
    lemma_digits_value(n);
}

/// The counters of the TCP stack and the retransmissions are read by their names.
pub proof fn law_stack_counters_are_read(output: Seq<char>, n: u64)
    ensures
        section_has(output, "TcpExt:"@, "TCPAbortOnMemory"@, n) ==> (tcp_error_counters(
            output,
        ) matches Some(c) && c.0 == n),
        section_has(output, "TcpExt:"@, "PruneCalled"@, n) ==> (tcp_error_counters(
            output,
        ) matches Some(c) && c.1 == n),
        section_has(output, "TcpExt:"@, "TCPRcvQDrop"@, n) ==> (tcp_error_counters(
            output,
        ) matches Some(c) && c.2 == n),
        section_has(output, "Tcp:"@, "RetransSegs"@, n) ==> retransmits(output) == Some(n),
{
    if section_has(output, "TcpExt:"@, "TCPAbortOnMemory"@, n) {
        lemma_section_has(output, "TcpExt:"@, "TCPAbortOnMemory"@, n);
    }
    if section_has(output, "TcpExt:"@, "PruneCalled"@, n) {
        lemma_section_has(output, "TcpExt:"@, "PruneCalled"@, n);
    }
    if section_has(output, "TcpExt:"@, "TCPRcvQDrop"@, n) {
        lemma_section_has(output, "TcpExt:"@, "TCPRcvQDrop"@, n);
    }
    if section_has(output, "Tcp:"@, "RetransSegs"@, n) {
        lemma_section_has(output, "Tcp:"@, "RetransSegs"@, n);
    }
}

/// A number behind a mark is read, whatever follows it, and whatever space stands before it.
pub proof fn law_number_behind_is_read(
    before: Seq<char>,
    mark: Seq<char>,
    gap: Seq<char>,
    n: u64,
    after: Seq<char>,
)
    requires
        first_occurrence(before + mark + (gap + digits(n as int) + after), mark) == Some(
            before.len() as int,
        ),
        !mentions(gap + digits(n as int) + after, mark),
        blank(gap),
        after.len() > 0 ==> !('0' <= after[0] <= '9'),
    ensures
        number_after(before + mark + (gap + digits(n as int) + after), mark) == Some(n),
{
    let d = digits(n as int);
    let tail = gap + d + after;
    let s = before + mark + tail;
    assert(s.skip((before.len() + mark.len()) as int) =~= tail);
    lemma_first_occurrence(tail, mark);
    if first_occurrence(tail, mark) is Some {
        assert(occurs_at(tail, mark, first_occurrence(tail, mark)->0));
    }
    lemma_digits_shape(n as int);
    lemma_digits_value(n);
    let g = gap.len() as int;
    let p = is_white_fn();
    assert('0' <= d[0] <= '9');
    assert(tail[g] == d[0]);
    assert forall|j: int| 0 <= j < g implies p(#[trigger] tail[j]) by {
        assert(tail[j] == gap[j]);
        assert(white(gap[j]));
    }
    lemma_run_ends_at(tail, p, g);
    let t = d + after;
    assert(tail.skip(g) =~= t);
    let q = is_digit_fn();
    let m = d.len() as int;
    assert forall|j: int| 0 <= j < m implies q(#[trigger] t[j]) by {
        assert(t[j] == d[j]);
        assert('0' <= d[j] <= '9');
    }
    if m < t.len() {
        assert(t[m] == after[0]);
    }
    lemma_run_ends_at(t, q, m);
    assert(t.take(m) =~= d);
}

/// The end of a certificate is the date behind the first `notAfter=`.
pub proof fn law_cert_end_is_read(output: Seq<char>, i: int, date: Seq<char>)
    requires
        0 <= i < lines(output).len(),
        trim(lines(output)[i]) == "notAfter="@ + date,
        forall|j: int| 0 <= j < i ==> !starts_with(trim(#[trigger] lines(output)[j]), "notAfter="@),
    ensures
        cert_notafter(output) == cert_date(date),
{
    let ls = lines(output);
    let f = |l: Seq<char>| notafter_field(l);
    let n = "notAfter="@.len() as int;
    let t = trim(ls[i]);
    assert(t.take(n) =~= "notAfter="@);
    assert(t.skip(n) =~= date);
    assert(f(ls[i]) == Some(date));
    lemma_first_found(ls, f, i);
}

/// What a kernel event is called.
pub open spec fn event_name(k: int) -> Seq<char> {
    if k == 0 {
        "soft lockup"@
    } else if k == 1 {
        "hung task"@
    } else if k == 2 {
        "kernel panic"@
    } else if k == 3 {
        "hardware error (MCE)"@
    } else if k == 4 {
        "machine check exception"@
    } else if k == 5 {
        "kernel oops"@
    } else if k == 6 {
        "kernel BUG"@
    } else if k == 7 {
        "conntrack table full"@
    } else if k == 8 {
        "neighbour table overflow"@
    } else if k == 9 {
        "ext4 filesystem error"@
    } else {
        "block I/O error"@
    }
}

/// A kind of kernel event that some line shows is told by its name, with how many lines do and
/// the last of them.
pub proof fn law_events_are_counted(text: Seq<char>, k: int)
    requires
        0 <= k < 11,
        lines_under(lines(text), k).len() > 0,
    ensures
        kernel_events(text).contains(
            (KernelEventCategoryView {
                label: event_name(k),
                count: lines_under(lines(text), k).len() as int,
                last_line: trim(lines_under(lines(text), k).last()),
                critical: k < 7,
            }),
        ),
{
    lemma_event_in(lines(text), k, 11);
    assert(KERNEL_SIGNATURES@[k].1@ == event_name(k));
    assert(KERNEL_SIGNATURES@[k].2 == (k < 7));
}

proof fn lemma_event_in(ls: Seq<Seq<char>>, k: int, n: int)
    requires
        0 <= k < n <= 11,
        lines_under(ls, k).len() > 0,
    ensures
        events_upto(ls, n).contains(event_category(ls, k)->0),
    decreases n,
{
    let all = events_upto(ls, n);
    let c = event_category(ls, k)->0;
    if k == n - 1 {
        assert(all[all.len() - 1] == c);
    } else {
        lemma_event_in(ls, k, n - 1);
        let before = events_upto(ls, n - 1);
        let i = before.index_of(c);
        assert(all[i] == c);
    }
}

/// A kernel event is carried to the history under its name, with its count.
pub proof fn law_events_are_carried(o: OutputsView, text: Seq<char>, i: int)
    requires
        collected(o, "sudo -n dmesg"@) == Some(text),
        0 <= i < kernel_events(text).len(),
        forall|j: int|
            i < j < kernel_events(text).len() ==> (#[trigger] kernel_events(text)[j]).label
                != kernel_events(text)[i].label,
    ensures
        lookup(event_counters(o), "kernel: "@ + kernel_events(text)[i].label) == Some(
            kernel_events(text)[i].count as u64,
        ),
{
    let es = kernel_events(text);
    let pairs = es.map_values(|c: KernelEventCategoryView| event_counter(c));
    let p = "kernel: "@;
    let k = p + es[i].label;
    assert forall|j: int| i < j < pairs.len() implies (#[trigger] pairs[j]).0 != k by {
        assert(pairs[j].0 == p + es[j].label);
        let n = p.len() as int;
        assert((p + es[j].label).skip(n) =~= es[j].label);
        assert(k.skip(n) =~= es[i].label);
    }
    assert(pairs[i].0 == k);
    super::report_laws::lemma_put_all(Seq::empty(), pairs, k, i);
}

} // verus!
