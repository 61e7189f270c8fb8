//! Trimming a text and splitting it into lines, fields and words.

use super::chars::{chars_of, deep, deep_option, is_white, lemma_deep_empty, lemma_deep_push, white};
use super::search::{
    contains_char, find_char, first_at, index_of, lemma_first_at, lemma_index_of, spells,
};
use vstd::prelude::*;
use vstd::slice::slice_subrange;

verus! {

/// The length of the longest start of `s` whose characters all meet `p`.
pub open spec fn run(s: Seq<char>, p: spec_fn(char) -> bool) -> int
    decreases s.len(),
{
    if s.len() == 0 || !p(s[0]) {
        0
    } else {
        1 + run(s.skip(1), p)
    }
}

pub open spec fn run_ends_at(s: Seq<char>, p: spec_fn(char) -> bool, i: int) -> bool {
    &&& 0 <= i <= s.len()
    &&& forall|j: int| 0 <= j < i ==> p(#[trigger] s[j])
    &&& i < s.len() ==> !p(s[i])
}

pub proof fn lemma_run(s: Seq<char>, p: spec_fn(char) -> bool)
    ensures
        run_ends_at(s, p, run(s, p)),
    decreases s.len(),
{
    if s.len() > 0 && p(s[0]) {
        let t = s.skip(1);
        lemma_run(t, p);
        let i = run(s, p);
        assert forall|j: int| 0 <= j < i implies p(#[trigger] s[j]) by {
            if j > 0 {
                assert(s[j] == t[j - 1]);
            }
        }
    }
}

pub proof fn lemma_run_ends_at(s: Seq<char>, p: spec_fn(char) -> bool, i: int)
    requires
        run_ends_at(s, p, i),
    ensures
        run(s, p) == i,
{
    lemma_run(s, p);
    let k = run(s, p);
    if k < i {
        assert(p(s[k]));
    } else if i < k {
        assert(p(s[i]));
    }
}

/// The text without the characters at its start that meet `p`.
pub open spec fn trim_start_by(s: Seq<char>, p: spec_fn(char) -> bool) -> Seq<char> {
    s.skip(run(s, p))
}

/// The text without the characters at its end that meet `p`.
pub open spec fn trim_end_by(s: Seq<char>, p: spec_fn(char) -> bool) -> Seq<char>
    decreases s.len(),
{
    if s.len() > 0 && p(s.last()) {
        trim_end_by(s.drop_last(), p)
    } else {
        s
    }
}

pub open spec fn is_white_fn() -> spec_fn(char) -> bool {
    |c: char| white(c)
}

pub open spec fn not_white_fn() -> spec_fn(char) -> bool {
    |c: char| !white(c)
}

pub open spec fn one_of(set: Seq<char>) -> spec_fn(char) -> bool {
    |c: char| set.contains(c)
}

/// The text without the white space at its start.
pub open spec fn trim_start(s: Seq<char>) -> Seq<char> {
    trim_start_by(s, is_white_fn())
}

/// The text without the white space at its end.
pub open spec fn trim_end(s: Seq<char>) -> Seq<char> {
    trim_end_by(s, is_white_fn())
}

/// The text without the white space at both its ends.
pub open spec fn trim(s: Seq<char>) -> Seq<char> {
    trim_end(trim_start(s))
}

pub fn trimmed_start<'a>(s: &'a [char]) -> (r: &'a [char])
    ensures
        r@ == trim_start(s@),
{
    let mut i: usize = 0;
    while i < s.len() && is_white(s[i])
        invariant
            i <= s@.len(),
            forall|j: int| 0 <= j < i ==> white(#[trigger] s@[j]),
        decreases s@.len() - i,
    {
        i = i + 1;
    }
    proof {
        lemma_run_ends_at(s@, is_white_fn(), i as int);
    }
    let r = slice_subrange(s, i, s.len());
    proof {
        assert(r@ == s@.skip(i as int));
    }
    r
}

pub fn trimmed_end<'a>(s: &'a [char]) -> (r: &'a [char])
    ensures
        r@ == trim_end(s@),
{
    let mut n: usize = s.len();
    proof {
        assert(s@.take(n as int) == s@);
    }
    while n > 0 && is_white(s[n - 1])
        invariant
            n <= s@.len(),
            trim_end(s@.take(n as int)) == trim_end(s@),
        decreases n,
    {
        proof {
            assert(s@.take(n as int).drop_last() == s@.take(n - 1));
        }
        n = n - 1;
    }
    let r = slice_subrange(s, 0, n);
    proof {
        assert(r@ == s@.take(n as int));
    }
    r
}

pub fn trimmed<'a>(s: &'a [char]) -> (r: &'a [char])
    ensures
        r@ == trim(s@),
{
    trimmed_end(trimmed_start(s))
}

pub fn trimmed_start_of<'a>(s: &'a [char], set: &[char]) -> (r: &'a [char])
    ensures
        r@ == trim_start_by(s@, one_of(set@)),
{
    let mut i: usize = 0;
    while i < s.len() && contains_char(set, s[i])
        invariant
            i <= s@.len(),
            forall|j: int| 0 <= j < i ==> set@.contains(#[trigger] s@[j]),
        decreases s@.len() - i,
    {
        i = i + 1;
    }
    proof {
        lemma_run_ends_at(s@, one_of(set@), i as int);
    }
    let r = slice_subrange(s, i, s.len());
    proof {
        assert(r@ == s@.skip(i as int));
    }
    r
}

pub fn trimmed_end_of<'a>(s: &'a [char], set: &[char]) -> (r: &'a [char])
    ensures
        r@ == trim_end_by(s@, one_of(set@)),
{
    let mut n: usize = s.len();
    proof {
        assert(s@.take(n as int) == s@);
    }
    while n > 0 && contains_char(set, s[n - 1])
        invariant
            n <= s@.len(),
            trim_end_by(s@.take(n as int), one_of(set@)) == trim_end_by(s@, one_of(set@)),
        decreases n,
    {
        proof {
            assert(s@.take(n as int).drop_last() == s@.take(n - 1));
        }
        n = n - 1;
    }
    let r = slice_subrange(s, 0, n);
    proof {
        assert(r@ == s@.take(n as int));
    }
    r
}

/// The text without the characters of `set` at both its ends.
pub open spec fn trim_set(s: Seq<char>, set: Seq<char>) -> Seq<char> {
    trim_end_by(trim_start_by(s, one_of(set)), one_of(set))
}

pub fn trimmed_of<'a>(s: &'a [char], set: &[char]) -> (r: &'a [char])
    ensures
        r@ == trim_set(s@, set@),
{
    trimmed_end_of(trimmed_start_of(s, set), set)
}

/// The fields of a text that `c` separates: always one more than there are separators.
pub open spec fn fields(s: Seq<char>, c: char) -> Seq<Seq<char>>
    decreases s.len(),
{
    let i = index_of(s, c);
    if 0 <= i < s.len() {
        seq![s.take(i)] + fields(s.skip(i + 1), c)
    } else {
        seq![s]
    }
}

pub fn split_char<'a>(s: &'a [char], c: char) -> (r: Vec<&'a [char]>)
    ensures
        deep(r@) == fields(s@, c),
        r@.len() >= 1,
{
    broadcast use lemma_deep_push, lemma_deep_empty;

    let mut out: Vec<&'a [char]> = Vec::new();
    let mut start: usize = 0;
    let mut i: usize = 0;
    proof {
        assert(s@.skip(0) == s@);
        assert(deep(out@) + fields(s@.skip(0), c) == fields(s@, c));
    }
    while i < s.len()
        invariant
            start <= i <= s@.len(),
            forall|j: int| start <= j < i ==> s@[j] != c,
            deep(out@) + fields(s@.skip(start as int), c) == fields(s@, c),
        decreases s@.len() - i,
    {
        broadcast use lemma_deep_push;

        if s[i] == c {
            let piece = slice_subrange(s, start, i);
            proof {
                let rest = s@.skip(start as int);
                lemma_first_at(rest, c, i - start);
                assert(piece@ == rest.take(i - start));
                assert(rest.skip(i - start + 1) == s@.skip(i + 1));
                assert(deep(out@) + (seq![piece@] + fields(s@.skip(i + 1), c)) == deep(out@).push(
                    piece@,
                ) + fields(s@.skip(i + 1), c));
            }
            out.push(piece);
            start = i + 1;
        }
        i = i + 1;
    }
    let piece = slice_subrange(s, start, s.len());
    proof {
        let rest = s@.skip(start as int);
        lemma_first_at(rest, c, rest.len() as int);
        assert(piece@ == rest);
        assert(deep(out@) + seq![piece@] == deep(out@).push(piece@));
    }
    out.push(piece);
    out
}

/// The text before and the text after the first `c`, where there is a `c`.
pub open spec fn cut(s: Seq<char>, c: char) -> Option<(Seq<char>, Seq<char>)> {
    let i = index_of(s, c);
    if 0 <= i < s.len() {
        Some((s.take(i), s.skip(i + 1)))
    } else {
        None
    }
}

pub fn split_at_char<'a>(s: &'a [char], c: char) -> (r: Option<(&'a [char], &'a [char])>)
    ensures
        deep_option(r) == cut(s@, c),
{
    let i = find_char(s, c);
    if i < s.len() {
        let a = slice_subrange(s, 0, i);
        let b = slice_subrange(s, i + 1, s.len());
        proof {
            assert(a@ == s@.take(i as int));
            assert(b@ == s@.skip(i + 1));
        }
        Some((a, b))
    } else {
        None
    }
}

/// The text after the last `c`; the whole text where there is none.
pub open spec fn after_last(s: Seq<char>, c: char) -> Seq<char>
    decreases s.len(),
{
    match cut(s, c) {
        Some((_, rest)) => {
            proof {
                lemma_index_of(s, c);
            }
            after_last(rest, c)
        },
        None => s,
    }
}

pub fn text_after_last<'a>(s: &'a [char], c: char) -> (r: &'a [char])
    ensures
        r@ == after_last(s@, c),
{
    let mut t: &'a [char] = s;
    loop
        invariant
            after_last(t@, c) == after_last(s@, c),
        ensures
            t@ == after_last(s@, c),
        decreases t@.len(),
    {
        match split_at_char(t, c) {
            Some((_, rest)) => {
                proof {
                    lemma_index_of(t@, c);
                }
                t = rest;
            },
            None => {
                break ;
            },
        }
    }
    t
}

/// The text without one carriage return at its end.
pub open spec fn strip_cr(s: Seq<char>) -> Seq<char> {
    if s.len() > 0 && s.last() == '\r' {
        s.drop_last()
    } else {
        s
    }
}

/// The lines of a text: each ends with a line feed, which may follow a carriage return, and
/// the last one may lack its ending.
pub open spec fn lines(s: Seq<char>) -> Seq<Seq<char>>
    decreases s.len(),
{
    if s.len() == 0 {
        Seq::empty()
    } else {
        let i = index_of(s, '\n');
        if 0 <= i < s.len() {
            seq![strip_cr(s.take(i))] + lines(s.skip(i + 1))
        } else {
            seq![s]
        }
    }
}

pub fn split_lines<'a>(s: &'a [char]) -> (r: Vec<&'a [char]>)
    ensures
        deep(r@) == lines(s@),
{
    broadcast use lemma_deep_push, lemma_deep_empty;

    let mut out: Vec<&'a [char]> = Vec::new();
    let mut start: usize = 0;
    let mut i: usize = 0;
    proof {
        assert(s@.skip(0) == s@);
        assert(deep(out@) + lines(s@.skip(0)) == lines(s@));
    }
    while i < s.len()
        invariant
            start <= i <= s@.len(),
            forall|j: int| start <= j < i ==> s@[j] != '\n',
            deep(out@) + lines(s@.skip(start as int)) == lines(s@),
        decreases s@.len() - i,
    {
        broadcast use lemma_deep_push;

        if s[i] == '\n' {
            let end: usize = if i > start && s[i - 1] == '\r' {
                i - 1
            } else {
                i
            };
            let piece = slice_subrange(s, start, end);
            proof {
                let rest = s@.skip(start as int);
                lemma_first_at(rest, '\n', i - start);
                assert(piece@ == strip_cr(rest.take(i - start)));
                assert(rest.skip(i - start + 1) == s@.skip(i + 1));
                assert(deep(out@) + (seq![piece@] + lines(s@.skip(i + 1))) == deep(out@).push(
                    piece@,
                ) + lines(s@.skip(i + 1)));
            }
            out.push(piece);
            start = i + 1;
        }
        i = i + 1;
    }
    if start < s.len() {
        let piece = slice_subrange(s, start, s.len());
        proof {
            let rest = s@.skip(start as int);
            lemma_first_at(rest, '\n', rest.len() as int);
            assert(piece@ == rest);
            assert(deep(out@) + seq![piece@] == deep(out@).push(piece@));
        }
        out.push(piece);
    } else {
        proof {
            assert(deep(out@) + Seq::<Seq<char>>::empty() == deep(out@));
        }
    }
    out
}

/// The longest runs of characters that are not white space, in order.
pub open spec fn words(s: Seq<char>) -> Seq<Seq<char>>
    decreases s.len(),
{
    let t = trim_start(s);
    let n = run(t, not_white_fn());
    if 0 < n <= t.len() <= s.len() {
        seq![t.take(n)] + words(t.skip(n))
    } else {
        Seq::empty()
    }
}

pub fn split_words<'a>(s: &'a [char]) -> (r: Vec<&'a [char]>)
    ensures
        deep(r@) == words(s@),
{
    broadcast use lemma_deep_push, lemma_deep_empty;

    let mut out: Vec<&'a [char]> = Vec::new();
    let mut rest: &'a [char] = s;
    loop
        invariant
            deep(out@) + words(rest@) == words(s@),
        ensures
            deep(out@) == words(s@),
        decreases rest@.len(),
    {
        broadcast use lemma_deep_push;

        let t = trimmed_start(rest);
        proof {
            lemma_run(rest@, is_white_fn());
            lemma_run(t@, not_white_fn());
        }
        if t.len() == 0 {
            proof {
                assert(words(rest@) == Seq::<Seq<char>>::empty());
                assert(deep(out@) + Seq::<Seq<char>>::empty() == deep(out@));
            }
            break ;
        }
        let mut n: usize = 0;
        while n < t.len() && !is_white(t[n])
            invariant
                n <= t@.len(),
                forall|j: int| 0 <= j < n ==> !white(#[trigger] t@[j]),
            decreases t@.len() - n,
        {
            n = n + 1;
        }
        let word = slice_subrange(t, 0, n);
        let tail = slice_subrange(t, n, t.len());
        proof {
            lemma_run_ends_at(t@, not_white_fn(), n as int);
            assert(t@[0] == rest@[run(rest@, is_white_fn())]);
            assert(word@ == t@.take(n as int));
            assert(tail@ == t@.skip(n as int));
            assert(deep(out@) + (seq![word@] + words(tail@)) == deep(out@).push(word@) + words(
                tail@,
            ));
        }
        out.push(word);
        rest = tail;
    }
    out
}

/// Keeping what `f` finds in the first `i + 1` elements adds what it finds in the last of them.
pub proof fn lemma_filter_map_step<A, B>(s: Seq<A>, f: spec_fn(A) -> Option<B>, i: int)
    requires
        0 <= i < s.len(),
    ensures
        s.take(i + 1).filter_map(f) == match f(s[i]) {
            Some(b) => s.take(i).filter_map(f).push(b),
            None => s.take(i).filter_map(f),
        },
{
    assert(s.take(i + 1).drop_last() =~= s.take(i));
    match f(s[i]) {
        Some(b) => {
            assert(s.take(i).filter_map(f) + seq![b] =~= s.take(i).filter_map(f).push(b));
        },
        None => {},
    }
}

/// Folding over the first `i + 1` elements takes one more step.
pub proof fn lemma_fold_step<A, B>(s: Seq<A>, b: B, f: spec_fn(B, A) -> B, i: int)
    requires
        0 <= i < s.len(),
    ensures
        s.take(i + 1).fold_left(b, f) == f(s.take(i).fold_left(b, f), s[i]),
{
    assert(s.take(i + 1).drop_last() =~= s.take(i));
}

pub proof fn lemma_take_all<A>(s: Seq<A>)
    ensures
        s.take(s.len() as int) == s,
{
    assert(s.take(s.len() as int) =~= s);
}

/// What `f` finds in the lines of a text, in order.
pub fn collect_lines<T: View, F: Fn(&[char]) -> Option<T>>(
    output: &str,
    f: F,
    Ghost(found): Ghost<spec_fn(Seq<char>) -> Option<T::V>>,
) -> (r: Vec<T>)
    requires
        forall|l: &[char]| call_requires(f, (l,)),
        forall|l: &[char], o: Option<T>|
            call_ensures(f, (l,), o) ==> deep_option(o) == found(l@),
    ensures
        deep(r@) == lines(output@).filter_map(found),
{
    broadcast use lemma_deep_push, lemma_deep_empty;

    let text = chars_of(output);
    let ls = split_lines(text.as_slice());
    let mut out: Vec<T> = Vec::new();
    let mut i: usize = 0;
    while i < ls.len()
        invariant
            i <= ls@.len(),
            deep(out@) == deep(ls@).take(i as int).filter_map(found),
            forall|l: &[char]| call_requires(f, (l,)),
            forall|l: &[char], o: Option<T>|
                call_ensures(f, (l,), o) ==> deep_option(o) == found(l@),
        decreases ls@.len() - i,
    {
        broadcast use lemma_deep_push;

        proof {
            lemma_filter_map_step(deep(ls@), found, i as int);
        }
        match f(ls[i]) {
            Some(x) => {
                out.push(x);
            },
            None => {},
        }
        i = i + 1;
    }
    proof {
        lemma_take_all(deep(ls@));
    }
    out
}

/// What is left after `f` took in the lines of a text one by one.
pub fn fold_lines<S: View, F: Fn(S, &[char]) -> S>(
    output: &str,
    init: S,
    f: F,
    Ghost(step): Ghost<spec_fn(S::V, Seq<char>) -> S::V>,
) -> (r: S)
    requires
        forall|s: S, l: &[char]| call_requires(f, (s, l)),
        forall|s: S, l: &[char], t: S| call_ensures(f, (s, l), t) ==> t@ == step(s@, l@),
    ensures
        r@ == lines(output@).fold_left(init@, step),
{
    let text = chars_of(output);
    let ls = split_lines(text.as_slice());
    let ghost start = init@;
    let mut state = init;
    let mut i: usize = 0;
    while i < ls.len()
        invariant
            i <= ls@.len(),
            state@ == deep(ls@).take(i as int).fold_left(start, step),
            forall|s: S, l: &[char]| call_requires(f, (s, l)),
            forall|s: S, l: &[char], t: S| call_ensures(f, (s, l), t) ==> t@ == step(s@, l@),
        decreases ls@.len() - i,
    {
        proof {
            lemma_fold_step(deep(ls@), start, step, i as int);
        }
        state = f(state, ls[i]);
        i = i + 1;
    }
    proof {
        lemma_take_all(deep(ls@));
    }
    state
}

/// The number of lines that meet `f`.
pub open spec fn count_where(s: Seq<Seq<char>>, f: spec_fn(Seq<char>) -> bool) -> nat
    decreases s.len(),
{
    if s.len() == 0 {
        0
    } else {
        count_where(s.drop_last(), f) + if f(s.last()) {
            1nat
        } else {
            0
        }
    }
}

/// Counts the lines of a text that meet `f`.
pub fn count_lines<F: Fn(&[char]) -> bool>(
    output: &str,
    f: F,
    Ghost(meets): Ghost<spec_fn(Seq<char>) -> bool>,
) -> (r: usize)
    requires
        forall|l: &[char]| call_requires(f, (l,)),
        forall|l: &[char], o: bool| call_ensures(f, (l,), o) ==> o == meets(l@),
    ensures
        r == count_where(lines(output@), meets),
        r <= lines(output@).len(),
{
    let text = chars_of(output);
    let ls = split_lines(text.as_slice());
    let mut n: usize = 0;
    let mut i: usize = 0;
    while i < ls.len()
        invariant
            n <= i <= ls@.len(),
            n == count_where(deep(ls@).take(i as int), meets),
            forall|l: &[char]| call_requires(f, (l,)),
            forall|l: &[char], o: bool| call_ensures(f, (l,), o) ==> o == meets(l@),
        decreases ls@.len() - i,
    {
        proof {
            assert(deep(ls@).take(i + 1).drop_last() == deep(ls@).take(i as int));
        }
        if f(ls[i]) {
            n = n + 1;
        }
        i = i + 1;
    }
    proof {
        lemma_take_all(deep(ls@));
    }
    n
}

/// Nothing stands behind the last line break.
pub open spec fn ends_in_line_break(text: Seq<char>) -> bool {
    text.len() == 0 || text.last() == '\n'
}

/// The lines of two texts put together are the lines of the one, followed by those of the other.
pub proof fn lemma_lines_concat(a: Seq<char>, b: Seq<char>)
    requires
        ends_in_line_break(a),
    ensures
        lines(a + b) == lines(a) + lines(b),
    decreases a.len(),
{
    if a.len() == 0 {
        assert(a + b == b);
    } else {
        lemma_index_of(a, '\n');
        let i = index_of(a, '\n');
        let rest = a.skip(i + 1);
        assert(first_at(a + b, '\n', i));
        lemma_first_at(a + b, '\n', i);
        assert((a + b).take(i) == a.take(i));
        assert((a + b).skip(i + 1) == rest + b);
        if rest.len() > 0 {
            assert(rest.last() == a.last());
        }
        lemma_lines_concat(rest, b);
        assert(lines(a + b) == lines(a) + lines(b));
    }
}

/// A text without a line break, and with one behind it, is one line.
pub proof fn lemma_one_line(line: Seq<char>)
    requires
        line.len() > 0 ==> line.last() != '\r',
        !line.contains('\n'),
    ensures
        lines(line + "\n"@) == seq![line],
{
    reveal_strlit("\n");
    let t = line + "\n"@;
    let n = line.len() as int;
    assert forall|j: int| 0 <= j < n implies t[j] != '\n' by {
        assert(line.contains(line[j]));
    }
    assert(first_at(t, '\n', n));
    lemma_first_at(t, '\n', n);
    assert(t.take(n) == line);
    assert(t.skip(n + 1) == Seq::<char>::empty());
    assert(lines(Seq::<char>::empty()).len() == 0);
    assert(lines(t) == seq![line]);
}

/// A word: not empty, and no white space in it.
pub open spec fn one_word(w: Seq<char>) -> bool {
    w.len() > 0 && forall|i: int| 0 <= i < w.len() ==> !white(#[trigger] w[i])
}

/// Words in a row, each led by a space.
pub open spec fn in_a_row(ws: Seq<Seq<char>>) -> Seq<char>
    decreases ws.len(),
{
    if ws.len() == 0 {
        Seq::empty()
    } else {
        seq![' '] + ws[0] + in_a_row(ws.skip(1))
    }
}

/// The words of a row are those that were put into it.
pub proof fn lemma_words_of_row(ws: Seq<Seq<char>>)
    requires
        forall|i: int| 0 <= i < ws.len() ==> one_word(#[trigger] ws[i]),
    ensures
        words(in_a_row(ws)) == ws,
        !in_a_row(ws).contains('\n'),
        ws.len() > 0 ==> in_a_row(ws).len() > 0 && !white(in_a_row(ws).last()),
    decreases ws.len(),
{
    let s = in_a_row(ws);
    if ws.len() == 0 {
        assert(words(s) == ws);
    } else {
        let w = ws[0];
        let tail = ws.skip(1);
        assert(one_word(ws[0]));
        assert forall|i: int| 0 <= i < tail.len() implies one_word(#[trigger] tail[i]) by {
            assert(tail[i] == ws[i + 1]);
        }
        lemma_words_of_row(tail);
        let rest = in_a_row(tail);
        assert(s[0] == ' ');
        assert(s[1] == w[0]);
        assert(run_ends_at(s, is_white_fn(), 1));
        lemma_run_ends_at(s, is_white_fn(), 1);
        let t = trim_start(s);
        assert(t == w + rest);
        let n = w.len() as int;
        assert forall|j: int| 0 <= j < n implies not_white_fn()(#[trigger] t[j]) by {
            assert(t[j] == w[j]);
        }
        if rest.len() > 0 {
            assert(t[n] == rest[0]);
            assert(rest[0] == ' ');
        }
        lemma_run_ends_at(t, not_white_fn(), n);
        assert(t.take(n) == w);
        assert(t.skip(n) == rest);
        assert(seq![w] + tail == ws);
        assert forall|i: int| 0 <= i < s.len() implies s[i] != '\n' by {
            if 1 <= i < 1 + n {
                assert(s[i] == w[i - 1]);
                assert(!white(w[i - 1]));
            } else if 1 + n <= i {
                assert(s[i] == rest[i - 1 - n]);
                assert(rest.contains(rest[i - 1 - n]));
            }
        }
        if tail.len() == 0 {
            assert(s.last() == w.last());
            assert(!white(w[n - 1]));
        } else {
            assert(s.last() == rest.last());
        }
    }
}

pub proof fn lemma_trim_end(s: Seq<char>)
    ensures
        trim_end(s).len() <= s.len(),
        trim_end(s) == s.take(trim_end(s).len() as int),
        trim_end(s).len() > 0 ==> !white(trim_end(s).last()),
        forall|i: int| trim_end(s).len() <= i < s.len() ==> white(#[trigger] s[i]),
    decreases s.len(),
{
    if s.len() > 0 && white(s.last()) {
        lemma_trim_end(s.drop_last());
        let n = trim_end(s).len() as int;
        assert(s.drop_last().take(n) =~= s.take(n));
        assert forall|i: int| n <= i < s.len() implies white(#[trigger] s[i]) by {
            if i < s.len() - 1 {
                assert(s[i] == s.drop_last()[i]);
            }
        }
    } else {
        assert(s.take(s.len() as int) =~= s);
    }
}

/// A trimmed text has no white space at its ends, and trimming it again changes nothing.
pub proof fn lemma_trim_ends(s: Seq<char>)
    ensures
        trim(s).len() > 0 ==> !white(trim(s)[0]) && !white(trim(s).last()),
        trim(trim(s)) == trim(s),
{
    let p = is_white_fn();
    lemma_run(s, p);
    let a = trim_start(s);
    lemma_trim_end(a);
    let t = trim(s);
    if t.len() > 0 {
        assert(t[0] == a[0]);
        assert(a[0] == s[run(s, p)]);
        lemma_run_ends_at(t, p, 0);
        assert(t.skip(0) =~= t);
    } else {
        assert(t =~= Seq::<char>::empty());
        assert(run(t, p) == 0);
        assert(t.skip(0) =~= t);
    }
}

/// Every character is white space.
pub open spec fn blank(s: Seq<char>) -> bool {
    forall|i: int| 0 <= i < s.len() ==> white(#[trigger] s[i])
}

/// Trimming leaves nothing of exactly the texts that are blank.
pub proof fn lemma_trim_blank(s: Seq<char>)
    ensures
        trim(s).len() == 0 <==> blank(s),
{
    let p = is_white_fn();
    lemma_run(s, p);
    let n = run(s, p);
    let a = trim_start(s);
    lemma_trim_end(a);
    if blank(s) {
        if n < s.len() {
            assert(!p(s[n]));
            assert(white(s[n]));
        }
    } else if trim(s).len() == 0 {
        assert forall|i: int| 0 <= i < s.len() implies white(#[trigger] s[i]) by {
            if i < n {
                assert(p(s[i]));
            } else {
                assert(s[i] == a[i - n]);
            }
        }
    }
}

/// A text is blank exactly if each of its lines is.
pub proof fn lemma_lines_blank(s: Seq<char>)
    ensures
        blank(s) <==> forall|k: int| 0 <= k < lines(s).len() ==> blank(#[trigger] lines(s)[k]),
    decreases s.len(),
{
    let ls = lines(s);
    if s.len() > 0 {
        lemma_index_of(s, '\n');
        let i = index_of(s, '\n');
        if i < s.len() {
            let head = s.take(i);
            let rest = s.skip(i + 1);
            lemma_lines_blank(rest);
            assert(ls[0] == strip_cr(head));
            assert(forall|k: int| 0 < k < ls.len() ==> #[trigger] ls[k] == lines(rest)[k - 1]);
            assert(forall|k: int| 0 <= k < lines(rest).len() ==> #[trigger] lines(rest)[k] == ls[k + 1]);
            if blank(s) {
                assert forall|k: int| 0 <= k < head.len() implies white(#[trigger] head[k]) by {
                    assert(head[k] == s[k]);
                }
                assert forall|k: int| 0 <= k < rest.len() implies white(#[trigger] rest[k]) by {
                    assert(rest[k] == s[i + 1 + k]);
                }
            }
            if forall|k: int| 0 <= k < ls.len() ==> blank(#[trigger] ls[k]) {
                assert(blank(ls[0]));
                assert forall|k: int| 0 <= k < lines(rest).len() implies blank(
                    #[trigger] lines(rest)[k],
                ) by {
                    assert(blank(ls[k + 1]));
                }
                assert forall|k: int| 0 <= k < s.len() implies white(#[trigger] s[k]) by {
                    if k < i {
                        assert(s[k] == head[k]);
                        if k < strip_cr(head).len() {
                            assert(white(strip_cr(head)[k]));
                        }
                    } else if k > i {
                        assert(s[k] == rest[k - i - 1]);
                    }
                }
            }
        } else {
            assert(ls[0] == s);
        }
    }
}

/// The number of characters in all the texts together.
pub open spec fn total_len(s: Seq<Seq<char>>) -> nat
    decreases s.len(),
{
    if s.len() == 0 {
        0
    } else {
        total_len(s.drop_last()) + s.last().len()
    }
}

proof fn lemma_total_len_cons(x: Seq<char>, s: Seq<Seq<char>>)
    ensures
        total_len(seq![x] + s) == x.len() + total_len(s),
    decreases s.len(),
{
    let t = seq![x] + s;
    if s.len() == 0 {
        assert(t.drop_last() =~= Seq::<Seq<char>>::empty());
        assert(total_len(Seq::<Seq<char>>::empty()) == 0);
        assert(t.last() == x);
    } else {
        assert(t.last() == s.last());
        lemma_total_len_cons(x, s.drop_last());
        assert(t.drop_last() =~= seq![x] + s.drop_last());
    }
}

/// The lines of a text are together no longer than the text.
pub proof fn lemma_lines_total_len(s: Seq<char>)
    ensures
        total_len(lines(s)) <= s.len(),
    decreases s.len(),
{
    if s.len() > 0 {
        let i = index_of(s, '\n');
        lemma_index_of(s, '\n');
        if i < s.len() {
            lemma_lines_total_len(s.skip(i + 1));
            lemma_total_len_cons(strip_cr(s.take(i)), lines(s.skip(i + 1)));
        } else {
            lemma_total_len_cons(s, Seq::empty());
            assert(seq![s] =~= seq![s] + Seq::<Seq<char>>::empty());
        }
    }
}

pub proof fn lemma_total_len_take(s: Seq<Seq<char>>, i: int)
    requires
        0 <= i <= s.len(),
    ensures
        total_len(s.take(i)) <= total_len(s),
    decreases s.len(),
{
    if i < s.len() {
        lemma_total_len_take(s.drop_last(), i);
        assert(s.drop_last().take(i) =~= s.take(i));
    } else {
        assert(s.take(i) =~= s);
    }
}

/// The position of the first field that spells `t`.
pub open spec fn column(s: Seq<Seq<char>>, t: Seq<char>) -> Option<int>
    decreases s.len(),
{
    if s.len() == 0 {
        None
    } else if s[0] == t {
        Some(0)
    } else {
        match column(s.skip(1), t) {
            Some(i) => Some(i + 1),
            None => None,
        }
    }
}

pub proof fn lemma_column(s: Seq<Seq<char>>, t: Seq<char>)
    ensures
        match column(s, t) {
            Some(i) => 0 <= i < s.len() && s[i] == t && forall|j: int|
                0 <= j < i ==> s[j] != t,
            None => !s.contains(t),
        },
    decreases s.len(),
{
    if s.len() > 0 && s[0] != t {
        let r = s.skip(1);
        lemma_column(r, t);
        match column(r, t) {
            Some(i) => {
                assert forall|j: int| 0 <= j < i + 1 implies s[j] != t by {
                    if j > 0 {
                        assert(r[j - 1] == s[j]);
                    }
                }
            },
            None => {
                assert forall|j: int| 0 <= j < s.len() implies s[j] != t by {
                    if j > 0 {
                        assert(r[j - 1] == s[j]);
                    }
                }
            },
        }
    }
}

pub fn find_column(s: &Vec<&[char]>, t: &str) -> (r: Option<usize>)
    ensures
        match r {
            Some(i) => column(deep(s@), t@) == Some(i as int) && i < s@.len(),
            None => column(deep(s@), t@).is_none(),
        },
{
    let mut i: usize = 0;
    while i < s.len()
        invariant
            i <= s@.len(),
            forall|j: int| 0 <= j < i ==> deep(s@)[j] != t@,
        decreases s@.len() - i,
    {
        if spells(s[i], t) {
            proof {
                lemma_column(deep(s@), t@);
                assert(deep(s@)[i as int] == t@);
            }
            return Some(i);
        }
        i = i + 1;
    }
    proof {
        lemma_column(deep(s@), t@);
    }
    None
}

pub fn contains_word(s: &Vec<&[char]>, t: &str) -> (r: bool)
    ensures
        r == deep(s@).contains(t@),
{
    proof {
        lemma_column(deep(s@), t@);
    }
    find_column(s, t).is_some()
}

} // verus!
