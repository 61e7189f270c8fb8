//! The order of texts, and sorting by it.

use super::chars::{chars_of, deep};
use vstd::prelude::*;

verus! {

/// Dictionary order by character code.
pub open spec fn before(a: Seq<char>, b: Seq<char>) -> bool
    decreases b.len(),
{
    if b.len() == 0 {
        false
    } else if a.len() == 0 {
        true
    } else if a[0] != b[0] {
        a[0] < b[0]
    } else {
        before(a.skip(1), b.skip(1))
    }
}

pub proof fn lemma_before_total(a: Seq<char>, b: Seq<char>)
    ensures
        before(a, b) || before(b, a) || a == b,
        !(before(a, b) && before(b, a)),
        a == b ==> !before(a, b),
    decreases b.len(),
{
    if a.len() > 0 && b.len() > 0 {
        lemma_before_total(a.skip(1), b.skip(1));
        if a[0] == b[0] && a.skip(1) == b.skip(1) {
            assert(a == seq![a[0]] + a.skip(1));
            assert(b == seq![b[0]] + b.skip(1));
        }
    } else if a.len() == 0 && b.len() == 0 {
        assert(a == b);
    }
}

pub proof fn lemma_before_transitive(a: Seq<char>, b: Seq<char>, c: Seq<char>)
    requires
        before(a, b),
        before(b, c),
    ensures
        before(a, c),
    decreases c.len(),
{
    if a.len() > 0 && b.len() > 0 && c.len() > 0 && a[0] == b[0] && b[0] == c[0] {
        lemma_before_transitive(a.skip(1), b.skip(1), c.skip(1));
    }
}

/// What decides between two texts of one length still decides when more is put behind them;
/// behind one and the same text, what is put there decides.
pub proof fn lemma_before_joined(p: Seq<char>, q: Seq<char>, x: Seq<char>, y: Seq<char>)
    requires
        p.len() == q.len(),
    ensures
        before(p, q) ==> before(p + x, q + y),
        p == q && before(x, y) ==> before(p + x, q + y),
    decreases p.len(),
{
    if p.len() == 0 {
        assert(p + x == x);
        assert(q + y == y);
    } else {
        lemma_before_joined(p.skip(1), q.skip(1), x, y);
        assert((p + x).skip(1) == p.skip(1) + x);
        assert((q + y).skip(1) == q.skip(1) + y);
        assert((p + x)[0] == p[0]);
        assert((q + y)[0] == q[0]);
    }
}

pub fn text_before(a: &str, b: &str) -> (r: bool)
    ensures
        r == before(a@, b@),
{
    let x = chars_of(a);
    let y = chars_of(b);
    let mut i: usize = 0;
    proof {
        assert(x@.skip(0) == x@);
        assert(y@.skip(0) == y@);
    }
    while i < x.len() && i < y.len() && x[i] == y[i]
        invariant
            i <= x@.len(),
            i <= y@.len(),
            before(x@, y@) == before(x@.skip(i as int), y@.skip(i as int)),
        decreases x@.len() - i,
    {
        proof {
            assert(x@.skip(i as int).skip(1) == x@.skip(i + 1));
            assert(y@.skip(i as int).skip(1) == y@.skip(i + 1));
        }
        i = i + 1;
    }
    if i == y.len() {
        false
    } else if i == x.len() {
        true
    } else {
        x[i] < y[i]
    }
}

/// The texts with `x` put in behind every text that is not greater.
pub open spec fn with_inserted(s: Seq<Seq<char>>, x: Seq<char>) -> Seq<Seq<char>>
    decreases s.len(),
{
    if s.len() == 0 || !before(x, s.last()) {
        s.push(x)
    } else {
        with_inserted(s.drop_last(), x).push(s.last())
    }
}

/// The texts in ascending order.
pub open spec fn sorted(s: Seq<Seq<char>>) -> Seq<Seq<char>>
    decreases s.len(),
{
    if s.len() == 0 {
        s
    } else {
        with_inserted(sorted(s.drop_last()), s.last())
    }
}

/// No text stands behind a greater one.
pub open spec fn ascending(s: Seq<Seq<char>>) -> bool {
    forall|i: int, j: int| 0 <= i < j < s.len() ==> !before(#[trigger] s[j], #[trigger] s[i])
}

proof fn lemma_with_inserted_at(s: Seq<Seq<char>>, x: Seq<char>, p: int)
    requires
        0 <= p <= s.len(),
        p > 0 ==> !before(x, s[p - 1]),
        forall|j: int| p <= j < s.len() ==> before(x, #[trigger] s[j]),
    ensures
        with_inserted(s, x) == s.insert(p, x),
    decreases s.len(),
{
    if p == s.len() {
        assert(s.insert(p, x) =~= s.push(x));
    } else {
        assert(before(x, s[s.len() - 1]));
        lemma_with_inserted_at(s.drop_last(), x, p);
        assert(s.insert(p, x) =~= s.drop_last().insert(p, x).push(s.last()));
    }
}

proof fn lemma_with_inserted(s: Seq<Seq<char>>, x: Seq<char>)
    requires
        ascending(s),
    ensures
        ascending(with_inserted(s, x)),
        with_inserted(s, x).to_multiset() == s.to_multiset().insert(x),
        with_inserted(s, x).len() == s.len() + 1,
        forall|i: int|
            0 <= i <= s.len() ==> #[trigger] with_inserted(s, x)[i] == x || s.contains(
                with_inserted(s, x)[i],
            ),
    decreases s.len(),
{
    broadcast use vstd::seq_lib::group_to_multiset_ensures;

    if s.len() == 0 {
    } else if !before(x, s.last()) {
        let r = s.push(x);
        assert forall|i: int, j: int| 0 <= i < j < r.len() implies !before(
            #[trigger] r[j],
            #[trigger] r[i],
        ) by {
            if j == s.len() {
                // x is not before the last, which is not before any other.
                if before(x, s[i]) {
                    lemma_before_total(s[i], s.last());
                    if i < s.len() - 1 {
                        assert(!before(s[s.len() - 1], s[i]));
                        if s[i] != s.last() {
                            lemma_before_transitive(x, s[i], s.last());
                        }
                    }
                }
            }
        }
        assert forall|i: int| 0 <= i <= s.len() implies #[trigger] r[i] == x || s.contains(r[i]) by {
            if i < s.len() {
                assert(s[i] == r[i]);
            }
        }
    } else {
        let t = s.drop_last();
        assert(ascending(t));
        lemma_with_inserted(t, x);
        let u = with_inserted(t, x);
        let r = u.push(s.last());
        assert forall|i: int, j: int| 0 <= i < j < r.len() implies !before(
            #[trigger] r[j],
            #[trigger] r[i],
        ) by {
            if j == u.len() {
                if u[i] == x {
                    lemma_before_total(x, s.last());
                } else {
                    let k = choose|k: int| 0 <= k < t.len() && t[k] == u[i];
                    assert(!before(s[s.len() - 1], s[k]));
                }
            } else {
                assert(!before(u[j], u[i]));
            }
        }
        assert forall|i: int| 0 <= i <= s.len() implies #[trigger] r[i] == x || s.contains(r[i]) by {
            if i < u.len() {
                if u[i] != x {
                    let k = choose|k: int| 0 <= k < t.len() && t[k] == u[i];
                    assert(s[k] == u[i]);
                }
            } else {
                assert(s[s.len() - 1] == r[i]);
            }
        }
        assert(s == t.push(s.last()));
        assert(r.to_multiset() == u.to_multiset().insert(s.last()));
        assert(s.to_multiset() == t.to_multiset().insert(s.last()));
        assert(r.to_multiset() =~= s.to_multiset().insert(x));
    }
}

/// Sorting keeps every text, as often as it occurs, and leaves them in ascending order.
pub proof fn lemma_sorted(s: Seq<Seq<char>>)
    ensures
        ascending(sorted(s)),
        sorted(s).to_multiset() == s.to_multiset(),
        sorted(s).len() == s.len(),
    decreases s.len(),
{
    broadcast use vstd::seq_lib::group_to_multiset_ensures;

    if s.len() > 0 {
        lemma_sorted(s.drop_last());
        lemma_with_inserted(sorted(s.drop_last()), s.last());
        assert(s == s.drop_last().push(s.last()));
    }
}

/// Sorts texts into ascending order.
pub fn sort_texts(v: Vec<String>) -> (r: Vec<String>)
    ensures
        deep(r@) == sorted(deep(v@)),
{
    let mut r: Vec<String> = Vec::new();
    let mut i: usize = 0;
    proof {
        assert(deep(r@) == sorted(deep(v@).take(0)));
    }
    while i < v.len()
        invariant
            i <= v@.len(),
            r@.len() <= i,
            deep(r@) == sorted(deep(v@).take(i as int)),
        decreases v@.len() - i,
    {
        let mut p: usize = r.len();
        while p > 0 && text_before(v[i].as_str(), r[p - 1].as_str())
            invariant
                i < v@.len(),
                p <= r@.len(),
                forall|j: int| p <= j < r@.len() ==> before(v@[i as int]@, #[trigger] r@[j]@),
            decreases p,
        {
            p = p - 1;
        }
        proof {
            let d = deep(r@);
            let x = v@[i as int]@;
            assert forall|j: int| p <= j < d.len() implies before(x, #[trigger] d[j]) by {
                assert(d[j] == r@[j]@);
            }
            lemma_with_inserted_at(d, x, p as int);
            assert(deep(v@).take(i + 1).drop_last() == deep(v@).take(i as int));
            assert(deep(r@.insert(p as int, v@[i as int])) =~= d.insert(p as int, x));
        }
        r.insert(p, v[i].clone());
        proof {
            assert(deep(r@) == sorted(deep(v@).take(i + 1)));
        }
        i = i + 1;
    }
    proof {
        assert(deep(v@).take(i as int) == deep(v@));
    }
    r
}

} // verus!
