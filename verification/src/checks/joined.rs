//! What the parsers make of texts that are put together, reordered or read under another limit.

use super::parse::{
    input_denied, iptables_posture, is_input_rule, keyword, keyword_map, keyword_step,
    nonexpiring_user, nonexpiring_users, passwordless_user, sysctl_entry, sysctl_map, sysctl_step,
};
use crate::catalog::lemma_trim_identity;
use crate::text::chars::{lower, lowercase, white};
use crate::text::number::{digits, lemma_digits_shape, u32_of};
use crate::text::search::{index_of, lemma_first_at, lemma_index_of};
use crate::text::split::{
    blank, ends_in_line_break, fields, lemma_filter_map_step, lemma_lines_blank,
    lemma_lines_concat, lemma_run, lemma_run_ends_at, lemma_take_all, lemma_trim_blank,
    lemma_trim_ends, lines, not_white_fn, one_word, run, trim, words,
};
use crate::textmap::{lemma_lookup_put, lemma_lookup_put_if_absent, lemma_slot, lookup};
use vstd::prelude::*;

verus! {

/// Keyword configuration of two texts put together: a keyword is set if either sets it, and
/// where both do, the first text decides.
pub proof fn law_keywords_of_joined(a: Seq<char>, b: Seq<char>, k: Seq<char>)
    requires
        ends_in_line_break(a),
    ensures
        lookup(keyword_map(a + b), k) == match lookup(keyword_map(a), k) {
            Some(v) => Some(v),
            None => lookup(keyword_map(b), k),
        },
{
    lemma_lines_concat(a, b);
    let la = lines(a);
    let lb = lines(b);
    lemma_keywords_joined(la, lb, lb.len() as int, k);
    lemma_take_all(lb);
}

proof fn lemma_keywords_joined(la: Seq<Seq<char>>, lb: Seq<Seq<char>>, n: int, k: Seq<char>)
    requires
        0 <= n <= lb.len(),
    ensures
        ({
            let step = |m: Seq<(Seq<char>, Seq<char>)>, l: Seq<char>| keyword_step(m, l);
            lookup((la + lb.take(n)).fold_left(Seq::empty(), step), k) == match lookup(
                la.fold_left(Seq::empty(), step),
                k,
            ) {
                Some(v) => Some(v),
                None => lookup(lb.take(n).fold_left(Seq::empty(), step), k),
            }
        }),
    decreases n,
{
    let step = |m: Seq<(Seq<char>, Seq<char>)>, l: Seq<char>| keyword_step(m, l);
    let empty = Seq::<(Seq<char>, Seq<char>)>::empty();
    if n == 0 {
        assert(la + lb.take(0) == la);
        assert(lb.take(0).fold_left(empty, step) == empty);
        lemma_slot(empty, k);
    } else {
        lemma_keywords_joined(la, lb, n - 1, k);
        let both = la + lb.take(n);
        assert(both.drop_last() == la + lb.take(n - 1));
        assert(both.last() == lb[n - 1]);
        assert(lb.take(n).drop_last() == lb.take(n - 1));
        let m = (la + lb.take(n - 1)).fold_left(empty, step);
        let mb = lb.take(n - 1).fold_left(empty, step);
        match keyword(lb[n - 1]) {
            Some((key, v)) => {
                lemma_lookup_put_if_absent(m, key, v, k);
                lemma_lookup_put_if_absent(mb, key, v, k);
            },
            None => {},
        }
    }
}

/// A keyword as a configuration map holds it: not empty, no capital, no white space, and not a
/// comment; its value has no white space around it.
pub open spec fn clean_keyword(e: (Seq<char>, Seq<char>)) -> bool {
    &&& e.0.len() > 0
    &&& e.0[0] != '#'
    &&& forall|i: int| 0 <= i < e.0.len() ==> !white(#[trigger] e.0[i]) && !('A' <= e.0[i] <= 'Z')
    &&& trim(e.1) == e.1
}

proof fn lemma_lower(c: char)
    ensures
        !('A' <= lower(c) <= 'Z'),
        !white(c) ==> !white(lower(c)),
        c != '#' ==> lower(c) != '#',
{
}

proof fn lemma_keyword_is_clean(line: Seq<char>)
    ensures
        keyword(line) matches Some(e) ==> clean_keyword(e),
{
    let t = trim(line);
    lemma_trim_ends(line);
    if t.len() > 0 && t[0] != '#' {
        let n = run(t, not_white_fn());
        lemma_run(t, not_white_fn());
        lemma_trim_ends(t.skip(n));
        let key = lowercase(t.take(n));
        assert forall|i: int| 0 <= i < key.len() implies !white(#[trigger] key[i]) && !('A'
            <= key[i] <= 'Z') by {
            assert(key[i] == lower(t[i]));
            assert(not_white_fn()(t[i]));
            lemma_lower(t[i]);
        }
        assert(n > 0) by {
            if n == 0 {
                assert(!not_white_fn()(t[0]));
            }
        }
        assert(key[0] == lower(t[0]));
        lemma_lower(t[0]);
    }
}

/// A line that holds a keyword alone gives it an empty value.
pub proof fn law_bare_keyword_has_no_value(w: Seq<char>)
    requires
        one_word(w),
        w[0] != '#',
    ensures
        keyword(w) == Some((lowercase(w), Seq::<char>::empty())),
{
    let n = w.len() as int;
    let empty = Seq::<char>::empty();
    assert(!white(w[0]) && !white(w[n - 1]));
    lemma_trim_identity(w);
    assert forall|j: int| 0 <= j < n implies not_white_fn()(#[trigger] w[j]) by {
        assert(!white(w[j]));
    }
    lemma_run_ends_at(w, not_white_fn(), n);
    assert(w.take(n) == w);
    assert(w.skip(n) == empty);
    lemma_trim_blank(empty);
    assert(trim(empty) == empty);
}

/// Every keyword of a configuration map is clean.
pub proof fn law_keywords_are_clean(output: Seq<char>, i: int)
    requires
        0 <= i < keyword_map(output).len(),
    ensures
        clean_keyword(keyword_map(output)[i]),
{
    lemma_keywords_clean(lines(output));
}

proof fn lemma_keywords_clean(ls: Seq<Seq<char>>)
    ensures
        ({
            let m = ls.fold_left(
                Seq::empty(),
                |m: Seq<(Seq<char>, Seq<char>)>, l: Seq<char>| keyword_step(m, l),
            );
            forall|i: int| 0 <= i < m.len() ==> clean_keyword(#[trigger] m[i])
        }),
    decreases ls.len(),
{
    let step = |m: Seq<(Seq<char>, Seq<char>)>, l: Seq<char>| keyword_step(m, l);
    let empty = Seq::<(Seq<char>, Seq<char>)>::empty();
    if ls.len() > 0 {
        lemma_keywords_clean(ls.drop_last());
        lemma_keyword_is_clean(ls.last());
        let before = ls.drop_last().fold_left(empty, step);
        assert(ls.fold_left(empty, step) == keyword_step(before, ls.last()));
    } else {
        assert(ls.fold_left(empty, step) == empty);
    }
}

/// Kernel parameters of two texts put together: a parameter is set if either sets it, and where
/// both do, the second text decides.
pub proof fn law_settings_of_joined(a: Seq<char>, b: Seq<char>, k: Seq<char>)
    requires
        ends_in_line_break(a),
    ensures
        lookup(sysctl_map(a + b), k) == match lookup(sysctl_map(b), k) {
            Some(v) => Some(v),
            None => lookup(sysctl_map(a), k),
        },
{
    lemma_lines_concat(a, b);
    let la = lines(a);
    let lb = lines(b);
    lemma_settings_joined(la, lb, lb.len() as int, k);
    lemma_take_all(lb);
}

proof fn lemma_settings_joined(la: Seq<Seq<char>>, lb: Seq<Seq<char>>, n: int, k: Seq<char>)
    requires
        0 <= n <= lb.len(),
    ensures
        ({
            let step = |m: Seq<(Seq<char>, Seq<char>)>, l: Seq<char>| sysctl_step(m, l);
            lookup((la + lb.take(n)).fold_left(Seq::empty(), step), k) == match lookup(
                lb.take(n).fold_left(Seq::empty(), step),
                k,
            ) {
                Some(v) => Some(v),
                None => lookup(la.fold_left(Seq::empty(), step), k),
            }
        }),
    decreases n,
{
    let step = |m: Seq<(Seq<char>, Seq<char>)>, l: Seq<char>| sysctl_step(m, l);
    let empty = Seq::<(Seq<char>, Seq<char>)>::empty();
    if n == 0 {
        assert(la + lb.take(0) == la);
        assert(lb.take(0).fold_left(empty, step) == empty);
        lemma_slot(empty, k);
    } else {
        lemma_settings_joined(la, lb, n - 1, k);
        let both = la + lb.take(n);
        assert(both.drop_last() == la + lb.take(n - 1));
        assert(both.last() == lb[n - 1]);
        assert(lb.take(n).drop_last() == lb.take(n - 1));
        let m = (la + lb.take(n - 1)).fold_left(empty, step);
        let mb = lb.take(n - 1).fold_left(empty, step);
        match sysctl_entry(lb[n - 1]) {
            Some((key, v)) => {
                lemma_lookup_put(m, key, v, k);
                lemma_lookup_put(mb, key, v, k);
            },
            None => {},
        }
    }
}

/// A kernel parameter as a map holds it: the name is not empty, and neither it nor the value
/// has white space around it.
pub open spec fn clean_setting(e: (Seq<char>, Seq<char>)) -> bool {
    &&& e.0.len() > 0
    &&& trim(e.0) == e.0
    &&& trim(e.1) == e.1
}

/// Every kernel parameter of a map is clean.
pub proof fn law_settings_are_clean(output: Seq<char>, i: int)
    requires
        0 <= i < sysctl_map(output).len(),
    ensures
        clean_setting(sysctl_map(output)[i]),
{
    lemma_settings_clean(lines(output));
}

proof fn lemma_settings_clean(ls: Seq<Seq<char>>)
    ensures
        ({
            let m = ls.fold_left(
                Seq::empty(),
                |m: Seq<(Seq<char>, Seq<char>)>, l: Seq<char>| sysctl_step(m, l),
            );
            forall|i: int| 0 <= i < m.len() ==> clean_setting(#[trigger] m[i])
        }),
    decreases ls.len(),
{
    let step = |m: Seq<(Seq<char>, Seq<char>)>, l: Seq<char>| sysctl_step(m, l);
    let empty = Seq::<(Seq<char>, Seq<char>)>::empty();
    if ls.len() > 0 {
        lemma_settings_clean(ls.drop_last());
        let l = ls.last();
        let i = index_of(l, '=');
        lemma_trim_ends(l.take(i));
        lemma_trim_ends(l.skip(i + 1));
        let before = ls.drop_last().fold_left(empty, step);
        assert(ls.fold_left(empty, step) == sysctl_step(before, l));
    } else {
        assert(ls.fold_left(empty, step) == empty);
    }
}

/// A line `name = value` sets the text before its first `=`, trimmed, to the text behind it,
/// trimmed, if there is a name. A line without `=` sets nothing.
pub proof fn law_setting_splits_at_first(name: Seq<char>, value: Seq<char>)
    requires
        !name.contains('='),
    ensures
        sysctl_entry(name + seq!['='] + value) == if trim(name).len() == 0 {
            None
        } else {
            Some((trim(name), trim(value)))
        },
        sysctl_entry(name) is None,
{
    lemma_index_of(name, '=');
    let l = name + seq!['='] + value;
    let n = name.len() as int;
    if index_of(name, '=') < n {
        assert(name.contains(name[index_of(name, '=')]));
    }
    assert forall|j: int| 0 <= j < n implies l[j] != '=' by {
        assert(name.contains(name[j]));
    }
    assert(l[n] == '=');
    lemma_first_at(l, '=', n);
    assert(l.take(n) == name);
    assert(l.skip(n + 1) == value);
}

/// The one sequence is left over from the other when some elements are taken out.
pub open spec fn subsequence<A>(a: Seq<A>, b: Seq<A>) -> bool
    decreases b.len(),
{
    if a.len() == 0 {
        true
    } else if b.len() == 0 {
        false
    } else {
        ||| a.last() == b.last() && subsequence(a.drop_last(), b.drop_last())
        ||| subsequence(a, b.drop_last())
    }
}

/// A longer age limit reports no account that a shorter one does not: what it reports is left
/// over from what the shorter one reports, in the same order. An account without a limit of its
/// own is reported under either.
pub proof fn law_longer_limit_reports_fewer(output: Seq<char>, shorter: u32, longer: u32)
    requires
        shorter <= longer,
    ensures
        subsequence(nonexpiring_users(output, longer), nonexpiring_users(output, shorter)),
        nonexpiring_users(output, longer).filter(|e: (Seq<char>, Seq<char>)| e.1 == "unset"@)
            == nonexpiring_users(output, shorter).filter(
            |e: (Seq<char>, Seq<char>)| e.1 == "unset"@,
        ),
{
    lemma_fewer(lines(output), shorter, longer);
}

proof fn lemma_limit_is_no_word(days: u32)
    ensures
        digits(days as int) != "unset"@,
        digits(days as int) + " (never)"@ != "unset"@,
{
    reveal_strlit("unset");
    lemma_digits_shape(days as int);
    let d = digits(days as int);
    assert((d + " (never)"@)[0] == d[0]);
}

proof fn lemma_fewer(ls: Seq<Seq<char>>, shorter: u32, longer: u32)
    requires
        shorter <= longer,
    ensures
        ({
            let a = ls.filter_map(|l: Seq<char>| nonexpiring_user(l, longer));
            let b = ls.filter_map(|l: Seq<char>| nonexpiring_user(l, shorter));
            let unset = |e: (Seq<char>, Seq<char>)| e.1 == "unset"@;
            subsequence(a, b) && a.filter(unset) == b.filter(unset)
        }),
    decreases ls.len(),
{
    reveal(Seq::filter);
    let f = |l: Seq<char>| nonexpiring_user(l, longer);
    let g = |l: Seq<char>| nonexpiring_user(l, shorter);
    let unset = |e: (Seq<char>, Seq<char>)| e.1 == "unset"@;
    if ls.len() > 0 {
        let n = ls.len() - 1;
        lemma_fewer(ls.take(n), shorter, longer);
        lemma_filter_map_step(ls, f, n);
        lemma_filter_map_step(ls, g, n);
        lemma_take_all(ls);
        let a = ls.take(n).filter_map(f);
        let b = ls.take(n).filter_map(g);
        match g(ls[n]) {
            Some(e) => {
                assert(b.push(e).drop_last() == b);
                assert(a.push(e).drop_last() == a);
                match u32_of(trim(fields(ls[n], ':')[4])) {
                    Some(days) => lemma_limit_is_no_word(days),
                    None => {},
                }
            },
            None => {
                assert(f(ls[n]) is None);
            },
        }
    }
}

/// A line whose age limit is the one asked for is not reported, nor is one without a password.
pub proof fn law_limit_itself_is_not_reported(line: Seq<char>, max_days: u32)
    ensures
        fields(line, ':').len() >= 5 && u32_of(trim(fields(line, ':')[4])) == Some(max_days)
            && trim(fields(line, ':')[4]).len() > 0 ==> nonexpiring_user(line, max_days) is None,
        passwordless_user(line) is Some ==> nonexpiring_user(line, max_days) is None,
{
}

proof fn lemma_same_lines(a: Seq<Seq<char>>, b: Seq<Seq<char>>, i: int) -> (j: int)
    requires
        a.to_multiset() == b.to_multiset(),
        0 <= i < a.len(),
    ensures
        0 <= j < b.len(),
        b[j] == a[i],
{
    broadcast use vstd::seq_lib::group_to_multiset_ensures;

    assert(a.contains(a[i]));
    assert(a.to_multiset().count(a[i]) > 0);
    assert(b.contains(a[i]));
    b.index_of(a[i])
}

/// The order of the lines that `iptables -S` prints does not change its posture.
pub proof fn law_posture_ignores_line_order(a: Seq<char>, b: Seq<char>)
    requires
        lines(a).to_multiset() == lines(b).to_multiset(),
    ensures
        iptables_posture(a) == iptables_posture(b),
{
    lemma_posture_from(a, b);
    lemma_posture_from(b, a);
}

proof fn lemma_posture_from(a: Seq<char>, b: Seq<char>)
    requires
        lines(a).to_multiset() == lines(b).to_multiset(),
    ensures
        trim(b).len() == 0 ==> trim(a).len() == 0,
        (exists|i: int| 0 <= i < lines(a).len() && input_denied(#[trigger] lines(a)[i])) ==> (
        exists|i: int| 0 <= i < lines(b).len() && input_denied(#[trigger] lines(b)[i])),
        (exists|i: int| 0 <= i < lines(a).len() && is_input_rule(words(#[trigger] lines(a)[i])))
            ==> (exists|i: int|
            0 <= i < lines(b).len() && is_input_rule(words(#[trigger] lines(b)[i]))),
{
    let la = lines(a);
    let lb = lines(b);
    lemma_trim_blank(a);
    lemma_trim_blank(b);
    lemma_lines_blank(a);
    lemma_lines_blank(b);
    if blank(b) {
        assert forall|i: int| 0 <= i < la.len() implies blank(#[trigger] la[i]) by {
            let j = lemma_same_lines(la, lb, i);
            assert(blank(lb[j]));
        }
    }
    if exists|i: int| 0 <= i < la.len() && input_denied(#[trigger] la[i]) {
        let i = choose|i: int| 0 <= i < la.len() && input_denied(#[trigger] la[i]);
        let j = lemma_same_lines(la, lb, i);
        assert(input_denied(lb[j]));
    }
    if exists|i: int| 0 <= i < la.len() && is_input_rule(words(#[trigger] la[i])) {
        let i = choose|i: int| 0 <= i < la.len() && is_input_rule(words(#[trigger] la[i]));
        let j = lemma_same_lines(la, lb, i);
        assert(is_input_rule(words(lb[j])));
    }
}

} // verus!
