//! Finding characters and texts inside a text.

use super::chars::{chars_of, deep_option};
use vstd::prelude::*;

verus! {

/// The position of the first `c`, or the length of the text where there is none.
pub open spec fn index_of(s: Seq<char>, c: char) -> int
    decreases s.len(),
{
    if s.len() == 0 || s[0] == c {
        0
    } else {
        1 + index_of(s.skip(1), c)
    }
}

/// `i` is the first position of `c` in `s`, or the length where there is none.
pub open spec fn first_at(s: Seq<char>, c: char, i: int) -> bool {
    &&& 0 <= i <= s.len()
    &&& forall|j: int| 0 <= j < i ==> s[j] != c
    &&& i < s.len() ==> s[i] == c
}

pub proof fn lemma_index_of(s: Seq<char>, c: char)
    ensures
        first_at(s, c, index_of(s, c)),
    decreases s.len(),
{
    if s.len() > 0 && s[0] != c {
        lemma_index_of(s.skip(1), c);
        let i = index_of(s, c);
        assert forall|j: int| 0 <= j < i implies s[j] != c by {
            if j > 0 {
                assert(s[j] == s.skip(1)[j - 1]);
            }
        }
    }
}

pub proof fn lemma_first_at(s: Seq<char>, c: char, i: int)
    requires
        first_at(s, c, i),
    ensures
        index_of(s, c) == i,
{
    lemma_index_of(s, c);
    let k = index_of(s, c);
    if k < i {
        assert(s[k] != c);
    } else if i < k {
        assert(s[i] != c);
    }
}

pub fn find_char(s: &[char], c: char) -> (r: usize)
    ensures
        r == index_of(s@, c),
        first_at(s@, c, r as int),
{
    let mut i: usize = 0;
    while i < s.len() && s[i] != c
        invariant
            i <= s@.len(),
            forall|j: int| 0 <= j < i ==> s@[j] != c,
        decreases s@.len() - i,
    {
        i = i + 1;
    }
    proof {
        lemma_first_at(s@, c, i as int);
    }
    i
}

pub fn contains_char(s: &[char], c: char) -> (r: bool)
    ensures
        r == s@.contains(c),
{
    let i = find_char(s, c);
    proof {
        if i < s@.len() {
            assert(s@[i as int] == c);
        } else {
            assert(!s@.contains(c));
        }
    }
    i < s.len()
}

/// How often `c` occurs.
pub open spec fn occurrences(s: Seq<char>, c: char) -> nat
    decreases s.len(),
{
    if s.len() == 0 {
        0
    } else {
        occurrences(s.drop_last(), c) + if s.last() == c {
            1nat
        } else {
            0
        }
    }
}

pub fn count_char(s: &[char], c: char) -> (r: usize)
    ensures
        r == occurrences(s@, c),
        r <= s@.len(),
{
    let mut i: usize = 0;
    let mut n: usize = 0;
    while i < s.len()
        invariant
            i <= s@.len(),
            n <= i,
            n == occurrences(s@.take(i as int), c),
        decreases s@.len() - i,
    {
        proof {
            assert(s@.take(i + 1).drop_last() == s@.take(i as int));
        }
        if s[i] == c {
            n = n + 1;
        }
        i = i + 1;
    }
    proof {
        assert(s@.take(i as int) == s@);
    }
    n
}

/// Whether `p` stands at the start of `s`.
pub open spec fn starts_with(s: Seq<char>, p: Seq<char>) -> bool {
    p.len() <= s.len() && s.take(p.len() as int) == p
}

/// Whether `p` stands in `s` at position `i`.
pub open spec fn occurs_at(s: Seq<char>, p: Seq<char>, i: int) -> bool {
    0 <= i <= s.len() - p.len() && s.subrange(i, i + p.len()) == p
}

/// Whether `p` stands anywhere in `s`.
pub open spec fn mentions(s: Seq<char>, p: Seq<char>) -> bool {
    exists|i: int| occurs_at(s, p, i)
}

/// The first position of `p` in `s`.
pub open spec fn first_occurrence(s: Seq<char>, p: Seq<char>) -> Option<int>
    decreases s.len(),
{
    if starts_with(s, p) {
        Some(0)
    } else if s.len() == 0 {
        None
    } else {
        match first_occurrence(s.skip(1), p) {
            Some(i) => Some(i + 1),
            None => None,
        }
    }
}

pub proof fn lemma_first_occurrence(s: Seq<char>, p: Seq<char>)
    ensures
        match first_occurrence(s, p) {
            Some(i) => occurs_at(s, p, i) && forall|j: int| 0 <= j < i ==> !occurs_at(s, p, j),
            None => !mentions(s, p),
        },
    decreases s.len(),
{
    if starts_with(s, p) {
        assert(s.subrange(0, p.len() as int) == s.take(p.len() as int));
    } else if s.len() == 0 {
        assert forall|i: int| !occurs_at(s, p, i) by {
            if occurs_at(s, p, i) {
                assert(s.take(p.len() as int) == s.subrange(i, i + p.len()));
            }
        }
    } else {
        let t = s.skip(1);
        lemma_first_occurrence(t, p);
        assert forall|j: int| occurs_at(s, p, j) implies j > 0 && occurs_at(t, p, j - 1) by {
            if j == 0 {
                assert(s.take(p.len() as int) == s.subrange(0, p.len() as int));
            }
            assert(t.subrange(j - 1, j - 1 + p.len()) == s.subrange(j, j + p.len()));
        }
        match first_occurrence(t, p) {
            Some(i) => {
                assert(s.subrange(i + 1, i + 1 + p.len()) == t.subrange(i, i + p.len()));
            },
            None => {},
        }
    }
}

/// Whether two runs of characters are equal.
pub fn eq_chars(a: &[char], b: &[char]) -> (r: bool)
    ensures
        r == (a@ == b@),
{
    if a.len() != b.len() {
        return false;
    }
    let mut i: usize = 0;
    while i < a.len()
        invariant
            a@.len() == b@.len(),
            i <= a@.len(),
            forall|j: int| 0 <= j < i ==> a@[j] == b@[j],
        decreases a@.len() - i,
    {
        if a[i] != b[i] {
            return false;
        }
        i = i + 1;
    }
    proof {
        assert(a@ =~= b@);
    }
    true
}

/// Whether two texts are equal.
pub fn eq_text(a: &str, b: &str) -> (r: bool)
    ensures
        r == (a@ == b@),
{
    let x = chars_of(a);
    let y = chars_of(b);
    eq_chars(x.as_slice(), y.as_slice())
}

/// Whether the characters spell the given text.
pub fn spells(s: &[char], t: &str) -> (r: bool)
    ensures
        r == (s@ == t@),
{
    let y = chars_of(t);
    eq_chars(s, y.as_slice())
}

pub fn starts_with_chars(s: &[char], p: &[char]) -> (r: bool)
    ensures
        r == starts_with(s@, p@),
{
    if p.len() > s.len() {
        return false;
    }
    let head = vstd::slice::slice_subrange(s, 0, p.len());
    proof {
        assert(head@ == s@.take(p@.len() as int));
    }
    eq_chars(head, p)
}

pub fn begins(s: &[char], p: &str) -> (r: bool)
    ensures
        r == starts_with(s@, p@),
{
    let y = chars_of(p);
    starts_with_chars(s, y.as_slice())
}

pub fn find_text(s: &[char], p: &str) -> (r: Option<usize>)
    ensures
        match r {
            Some(i) => first_occurrence(s@, p@) == Some(i as int) && i + p@.len() <= s@.len(),
            None => first_occurrence(s@, p@).is_none(),
        },
{
    let y = chars_of(p);
    let mut i: usize = 0;
    while i <= s.len()
        invariant
            i <= s@.len(),
            y@ == p@,
            forall|j: int| 0 <= j < i ==> !occurs_at(s@, p@, j),
        decreases s@.len() + 1 - i,
    {
        let tail = vstd::slice::slice_subrange(s, i, s.len());
        proof {
            if p@.len() <= tail@.len() {
                assert(tail@.take(p@.len() as int) == s@.subrange(i as int, i + p@.len()));
            }
        }
        if starts_with_chars(tail, y.as_slice()) {
            proof {
                lemma_first_occurrence(s@, p@);
                assert(occurs_at(s@, p@, i as int));
            }
            return Some(i);
        }
        if i == s.len() {
            proof {
                lemma_first_occurrence(s@, p@);
            }
            return None;
        }
        i = i + 1;
    }
    None
}

pub fn contains_text(s: &[char], p: &str) -> (r: bool)
    ensures
        r == mentions(s@, p@),
{
    proof {
        lemma_first_occurrence(s@, p@);
    }
    find_text(s, p).is_some()
}

/// What stands between the first `p` and the next one (or the end), where there is a `p`.
pub open spec fn after_first(s: Seq<char>, p: Seq<char>) -> Option<Seq<char>> {
    match first_occurrence(s, p) {
        Some(i) => {
            let rest = s.skip(i + p.len());
            match first_occurrence(rest, p) {
                Some(j) => Some(rest.take(j)),
                None => Some(rest),
            }
        },
        None => None,
    }
}

pub fn text_after<'a>(s: &'a [char], p: &str) -> (r: Option<&'a [char]>)
    ensures
        deep_option(r) == after_first(s@, p@),
{
    match find_text(s, p) {
        None => None,
        Some(i) => {
            let y = chars_of(p);
            let n: usize = y.len();
            let end: usize = s.len();
            let rest = vstd::slice::slice_subrange(s, i + n, end);
            proof {
                assert(rest@ == s@.skip(i + p@.len()));
            }
            match find_text(rest, p) {
                Some(j) => {
                    let cut = vstd::slice::slice_subrange(rest, 0, j);
                    proof {
                        assert(cut@ == rest@.take(j as int));
                    }
                    Some(cut)
                },
                None => Some(rest),
            }
        },
    }
}

} // verus!
