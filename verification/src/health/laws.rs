//! What holds of the network counters and of the kernel log, however their text is arranged.

use super::parse::{
    event_category, event_total, events_upto, kernel_events, lines_under, listen_counters, named,
    section, section_row, signature_from, KERNEL_SIGNATURES,
};
use crate::text::number::u64_of;
use crate::text::search::{index_of, starts_with};
use crate::text::split::{
    column, ends_in_line_break, in_a_row, lemma_column, lemma_filter_map_step, lemma_lines_concat,
    lemma_one_line, lemma_take_all, lemma_words_of_row, lines, one_word,
};
use vstd::prelude::*;

verus! {

/// The order of a section's columns does not change what is read from it: where the same names
/// stand above the same values, and no name twice, the counters are the same.
pub proof fn law_column_order_is_immaterial(a: Seq<char>, b: Seq<char>)
    requires
        section(a, "TcpExt:"@) matches Some(s) && section(b, "TcpExt:"@) matches Some(t)
            && s.0.len() == s.1.len() && t.0.len() == t.1.len() && s.0.no_duplicates()
            && s.0.zip_with(s.1).to_multiset() == t.0.zip_with(t.1).to_multiset(),
    ensures
        listen_counters(a) == listen_counters(b),
{
    let s = section(a, "TcpExt:"@)->0;
    let t = section(b, "TcpExt:"@)->0;
    lemma_named_reordered(s, t, "ListenOverflows"@);
    lemma_named_reordered(s, t, "ListenDrops"@);
}

proof fn lemma_named_reordered(
    s: (Seq<Seq<char>>, Seq<Seq<char>>),
    t: (Seq<Seq<char>>, Seq<Seq<char>>),
    name: Seq<char>,
)
    requires
        s.0.len() == s.1.len(),
        t.0.len() == t.1.len(),
        s.0.no_duplicates(),
        s.0.zip_with(s.1).to_multiset() == t.0.zip_with(t.1).to_multiset(),
    ensures
        named(s, name) == named(t, name),
{
    broadcast use vstd::seq_lib::group_to_multiset_ensures;

    let x = s.0.zip_with(s.1);
    let y = t.0.zip_with(t.1);
    lemma_column(s.0, name);
    lemma_column(t.0, name);
    match column(s.0, name) {
        Some(i) => {
            assert(x.contains(x[i]));
            assert(y.to_multiset().count(x[i]) > 0);
            assert(y.contains(x[i]));
            let k = y.index_of(x[i]);
            assert(t.0[k] == name);
            assert(t.0.contains(name));
        },
        None => {},
    }
    match column(t.0, name) {
        Some(j) => {
            assert(y.contains(y[j]));
            assert(x.to_multiset().count(y[j]) > 0);
            assert(x.contains(y[j]));
            let k = x.index_of(y[j]);
            assert(s.0[k] == name);
            assert(s.0.contains(name));
        },
        None => {},
    }
}

/// Lines outside the section do not change what is read from it.
pub proof fn law_other_sections_are_immaterial(a: Seq<char>, b: Seq<char>)
    requires
        lines(a).filter(|l: Seq<char>| starts_with(l, "TcpExt:"@)) == lines(b).filter(
            |l: Seq<char>| starts_with(l, "TcpExt:"@),
        ),
    ensures
        listen_counters(a) == listen_counters(b),
{
    lemma_rows_of_section(lines(a), "TcpExt:"@);
    lemma_rows_of_section(lines(b), "TcpExt:"@);
}

proof fn lemma_rows_of_section(ls: Seq<Seq<char>>, prefix: Seq<char>)
    ensures
        ls.filter_map(|l: Seq<char>| section_row(l, prefix)) == ls.filter(
            |l: Seq<char>| starts_with(l, prefix),
        ).filter_map(|l: Seq<char>| section_row(l, prefix)),
    decreases ls.len(),
{
    reveal(Seq::filter);
    let f = |l: Seq<char>| section_row(l, prefix);
    let p = |l: Seq<char>| starts_with(l, prefix);
    if ls.len() > 0 {
        let n = ls.len() - 1;
        lemma_rows_of_section(ls.take(n), prefix);
        lemma_filter_map_step(ls, f, n);
        lemma_take_all(ls);
        assert(ls.drop_last() == ls.take(n));
        let kept = ls.take(n).filter(p);
        if p(ls[n]) {
            let all = kept.push(ls[n]);
            lemma_filter_map_step(all, f, kept.len() as int);
            lemma_take_all(all);
            assert(all.take(kept.len() as int) == kept);
        }
    }
}

/// A section as its two lines: the names, and the values under them.
pub open spec fn section_text(
    prefix: Seq<char>,
    names: Seq<Seq<char>>,
    values: Seq<Seq<char>>,
) -> Seq<char> {
    prefix + in_a_row(names) + "\n"@ + (prefix + in_a_row(values) + "\n"@)
}

/// A section that is written as names with the values under them is read as such.
pub proof fn law_section_is_read_back(
    prefix: Seq<char>,
    names: Seq<Seq<char>>,
    values: Seq<Seq<char>>,
)
    requires
        one_word(prefix),
        forall|i: int| 0 <= i < names.len() ==> one_word(#[trigger] names[i]),
        forall|i: int| 0 <= i < values.len() ==> one_word(#[trigger] values[i]),
    ensures
        section(section_text(prefix, names, values), prefix) == Some((names, values)),
{
    reveal_strlit("\n");
    let f = |l: Seq<char>| section_row(l, prefix);
    let a = prefix + in_a_row(names);
    let b = prefix + in_a_row(values);
    lemma_row_line(prefix, names);
    lemma_row_line(prefix, values);
    let ls = lines(section_text(prefix, names, values));
    lemma_lines_concat(a + "\n"@, b + "\n"@);
    assert(ls == seq![a, b]);
    lemma_filter_map_step(ls, f, 0);
    lemma_filter_map_step(ls, f, 1);
    assert(ls.take(0).filter_map(f) == Seq::<Seq<Seq<char>>>::empty());
    lemma_take_all(ls);
}

proof fn lemma_row_line(prefix: Seq<char>, ws: Seq<Seq<char>>)
    requires
        one_word(prefix),
        forall|i: int| 0 <= i < ws.len() ==> one_word(#[trigger] ws[i]),
    ensures
        lines(prefix + in_a_row(ws) + "\n"@) == seq![prefix + in_a_row(ws)],
        section_row(prefix + in_a_row(ws), prefix) == Some(ws),
{
    let l = prefix + in_a_row(ws);
    let n = prefix.len() as int;
    lemma_words_of_row(ws);
    assert(l.take(n) == prefix);
    assert(l.skip(n) == in_a_row(ws));
    assert forall|i: int| 0 <= i < l.len() implies l[i] != '\n' by {
        if i < n {
            assert(l[i] == prefix[i]);
        } else {
            assert(l[i] == in_a_row(ws)[i - n]);
            assert(in_a_row(ws).contains(in_a_row(ws)[i - n]));
        }
    }
    if ws.len() == 0 {
        assert(l.last() == prefix[n - 1]);
    } else {
        assert(l.last() == in_a_row(ws).last());
    }
    assert(l.last() != '\r');
    lemma_one_line(l);
}

/// Wherever the two counters stand among the columns, they are read by their names.
pub proof fn law_counters_are_read_by_name(
    names: Seq<Seq<char>>,
    values: Seq<Seq<char>>,
    i: int,
    j: int,
)
    requires
        names.len() == values.len(),
        names.no_duplicates(),
        forall|k: int| 0 <= k < names.len() ==> one_word(#[trigger] names[k]),
        forall|k: int| 0 <= k < values.len() ==> one_word(#[trigger] values[k]),
        0 <= i < names.len(),
        0 <= j < names.len(),
        names[i] == "ListenOverflows"@,
        names[j] == "ListenDrops"@,
        u64_of(values[i]) is Some,
        u64_of(values[j]) is Some,
    ensures
        listen_counters(section_text("TcpExt:"@, names, values)) == Some(
            (u64_of(values[i])->0, u64_of(values[j])->0),
        ),
{
    reveal_strlit("TcpExt:");
    law_section_is_read_back("TcpExt:"@, names, values);
    lemma_column(names, "ListenOverflows"@);
    lemma_column(names, "ListenDrops"@);
    assert(names.contains(names[i]));
    assert(names.contains(names[j]));
}

/// Without the section, or without either of the names in it, there are no counters.
pub proof fn law_both_names_are_needed(output: Seq<char>)
    ensures
        section(output, "TcpExt:"@) is None ==> listen_counters(output) is None,
        section(output, "TcpExt:"@) matches Some(s) ==> (!s.0.contains("ListenOverflows"@)
            || !s.0.contains("ListenDrops"@) ==> listen_counters(output) is None),
{
    match section(output, "TcpExt:"@) {
        Some(s) => {
            lemma_column(s.0, "ListenOverflows"@);
            lemma_column(s.0, "ListenDrops"@);
        },
        None => {},
    }
}

/// The lines that match some signature.
pub open spec fn event_lines(ls: Seq<Seq<char>>) -> Seq<Seq<char>> {
    ls.filter(|l: Seq<char>| signature_from(l, 0) is Some)
}

/// The lines under the first `n` signatures together.
spec fn lines_upto(ls: Seq<Seq<char>>, n: int) -> int
    decreases n,
{
    if n <= 0 {
        0
    } else {
        lines_upto(ls, n - 1) + lines_under(ls, n - 1).len()
    }
}

proof fn lemma_signature_in_range(line: Seq<char>, i: int)
    requires
        0 <= i,
    ensures
        signature_from(line, i) matches Some(k) ==> i <= k < KERNEL_SIGNATURES@.len(),
    decreases KERNEL_SIGNATURES@.len() - i,
{
    if i < KERNEL_SIGNATURES@.len() {
        lemma_signature_in_range(line, i + 1);
    }
}

proof fn lemma_lines_upto_step(ls: Seq<Seq<char>>, n: int)
    requires
        ls.len() > 0,
        0 <= n,
    ensures
        lines_upto(ls, n) == lines_upto(ls.drop_last(), n) + match signature_from(ls.last(), 0) {
            Some(k) => if 0 <= k < n {
                1int
            } else {
                0
            },
            None => 0,
        },
    decreases n,
{
    reveal(Seq::filter);
    if n > 0 {
        lemma_lines_upto_step(ls, n - 1);
    }
}

proof fn lemma_lines_upto(ls: Seq<Seq<char>>)
    ensures
        lines_upto(ls, KERNEL_SIGNATURES@.len() as int) == event_lines(ls).len(),
    decreases ls.len(),
{
    reveal(Seq::filter);
    if ls.len() > 0 {
        lemma_lines_upto(ls.drop_last());
        lemma_lines_upto_step(ls, KERNEL_SIGNATURES@.len() as int);
        lemma_signature_in_range(ls.last(), 0);
    } else {
        lemma_no_lines(ls, KERNEL_SIGNATURES@.len() as int);
    }
}

proof fn lemma_no_lines(ls: Seq<Seq<char>>, n: int)
    requires
        ls.len() == 0,
    ensures
        lines_upto(ls, n) == 0,
    decreases n,
{
    reveal(Seq::filter);
    if n > 0 {
        lemma_no_lines(ls, n - 1);
    }
}

proof fn lemma_total_upto(ls: Seq<Seq<char>>, n: int)
    requires
        0 <= n,
        lines_upto(ls, n) <= usize::MAX,
    ensures
        event_total(events_upto(ls, n)) == lines_upto(ls, n),
    decreases n,
{
    if n > 0 {
        lemma_total_upto(ls, n - 1);
        match event_category(ls, n - 1) {
            Some(c) => {
                let before = events_upto(ls, n - 1);
                assert(before.push(c).drop_last() == before);
            },
            None => {},
        }
    }
}

/// The total of a kernel log is the number of its lines that match a signature: no line counts
/// twice, and none is lost.
pub proof fn law_total_counts_matching_lines(output: Seq<char>)
    requires
        output.len() <= usize::MAX,
    ensures
        event_total(kernel_events(output)) == event_lines(lines(output)).len(),
{
    let ls = lines(output);
    lemma_lines_upto(ls);
    lemma_line_count(output);
    ls.lemma_filter_len(|l: Seq<char>| signature_from(l, 0) is Some);
    lemma_total_upto(ls, KERNEL_SIGNATURES@.len() as int);
}

proof fn lemma_line_count(s: Seq<char>)
    ensures
        lines(s).len() <= s.len(),
    decreases s.len(),
{
    if s.len() > 0 {
        let i = index_of(s, '\n');
        if 0 <= i < s.len() {
            lemma_line_count(s.skip(i + 1));
        }
    }
}

/// The totals of two logs add up to that of the logs put together.
pub proof fn law_totals_of_joined_logs(a: Seq<char>, b: Seq<char>)
    requires
        ends_in_line_break(a),
        a.len() + b.len() <= usize::MAX,
    ensures
        event_total(kernel_events(a + b)) == event_total(kernel_events(a)) + event_total(
            kernel_events(b),
        ),
{
    lemma_lines_concat(a, b);
    law_total_counts_matching_lines(a);
    law_total_counts_matching_lines(b);
    law_total_counts_matching_lines(a + b);
    lemma_event_lines_joined(lines(a), lines(b));
}

proof fn lemma_event_lines_joined(a: Seq<Seq<char>>, b: Seq<Seq<char>>)
    ensures
        event_lines(a + b).len() == event_lines(a).len() + event_lines(b).len(),
    decreases b.len(),
{
    reveal(Seq::filter);
    if b.len() == 0 {
        assert(a + b == a);
    } else {
        lemma_event_lines_joined(a, b.drop_last());
        assert((a + b).drop_last() == a + b.drop_last());
        assert((a + b).last() == b.last());
    }
}

} // verus!
