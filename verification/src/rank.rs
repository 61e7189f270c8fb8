//! Sorting by a number, the greatest first.

use crate::text::chars::{deep, lemma_deep_empty};
use vstd::prelude::*;

verus! {

/// The items with `x` put in behind every item whose number is not smaller.
pub open spec fn with_ranked<A>(s: Seq<A>, x: A, key: spec_fn(A) -> int) -> Seq<A>
    decreases s.len(),
{
    if s.len() == 0 || key(s.last()) >= key(x) {
        s.push(x)
    } else {
        with_ranked(s.drop_last(), x, key).push(s.last())
    }
}

/// The items by their number, the greatest first; equal ones keep their order.
pub open spec fn ranked<A>(s: Seq<A>, key: spec_fn(A) -> int) -> Seq<A>
    decreases s.len(),
{
    if s.len() == 0 {
        s
    } else {
        with_ranked(ranked(s.drop_last(), key), s.last(), key)
    }
}

/// No item stands behind one with a smaller number.
pub open spec fn descending<A>(s: Seq<A>, key: spec_fn(A) -> int) -> bool {
    forall|i: int, j: int| 0 <= i < j < s.len() ==> key(#[trigger] s[i]) >= key(#[trigger] s[j])
}

proof fn lemma_with_ranked_at<A>(s: Seq<A>, x: A, key: spec_fn(A) -> int, p: int)
    requires
        0 <= p <= s.len(),
        p > 0 ==> key(s[p - 1]) >= key(x),
        forall|j: int| p <= j < s.len() ==> key(#[trigger] s[j]) < key(x),
    ensures
        with_ranked(s, x, key) == s.insert(p, x),
    decreases s.len(),
{
    if p == s.len() {
        assert(s.insert(p, x) =~= s.push(x));
    } else {
        assert(key(s[s.len() - 1]) < key(x));
        lemma_with_ranked_at(s.drop_last(), x, key, p);
        assert(s.insert(p, x) =~= s.drop_last().insert(p, x).push(s.last()));
    }
}

proof fn lemma_with_ranked<A>(s: Seq<A>, x: A, key: spec_fn(A) -> int)
    requires
        descending(s, key),
    ensures
        descending(with_ranked(s, x, key), key),
        with_ranked(s, x, key).to_multiset() == s.to_multiset().insert(x),
        with_ranked(s, x, key).len() == s.len() + 1,
        forall|i: int|
            0 <= i <= s.len() ==> key(#[trigger] with_ranked(s, x, key)[i]) >= if s.len() > 0
                && key(s.last()) <= key(x) {
                key(s.last())
            } else {
                key(x)
            },
    decreases s.len(),
{
    broadcast use vstd::seq_lib::group_to_multiset_ensures;

    if s.len() > 0 && key(s.last()) < key(x) {
        let t = s.drop_last();
        lemma_with_ranked(t, x, key);
        let u = with_ranked(t, x, key);
        assert forall|i: int| 0 <= i < u.len() implies key(#[trigger] u[i]) >= key(s.last()) by {
            if t.len() > 0 {
                assert(key(s[t.len() - 1]) >= key(s[s.len() - 1]));
            }
        }
        assert(s == t.push(s.last()));
        assert(u.push(s.last()).to_multiset() =~= s.to_multiset().insert(x));
    }
}

/// Ranking keeps every item, as often as it occurs, and leaves the greatest first.
pub proof fn lemma_ranked<A>(s: Seq<A>, key: spec_fn(A) -> int)
    ensures
        descending(ranked(s, key), key),
        ranked(s, key).to_multiset() == s.to_multiset(),
        ranked(s, key).len() == s.len(),
    decreases s.len(),
{
    broadcast use vstd::seq_lib::group_to_multiset_ensures;

    if s.len() > 0 {
        lemma_ranked(s.drop_last(), key);
        lemma_with_ranked(ranked(s.drop_last(), key), s.last(), key);
        assert(s == s.drop_last().push(s.last()));
    }
}

/// Sorts items by their number, the greatest first; equal ones keep their order.
pub fn sort_descending<T: View, F: Fn(&T, &T) -> bool>(
    v: Vec<T>,
    outranks: F,
    Ghost(key): Ghost<spec_fn(T::V) -> int>,
) -> (r: Vec<T>)
    requires
        forall|a: &T, b: &T| call_requires(outranks, (a, b)),
        forall|a: &T, b: &T, o: bool|
            call_ensures(outranks, (a, b), o) ==> o == (key(a@) > key(b@)),
    ensures
        deep(r@) == ranked(deep(v@), key),
{
    broadcast use lemma_deep_empty;

    let ghost all = deep(v@);
    let mut r: Vec<T> = Vec::new();
    proof {
        assert(deep(r@) == ranked(all.take(0), key));
    }
    for x in it: v
        invariant
            all == deep(it.seq()),
            deep(r@) == ranked(all.take(it.index() as int), key),
            forall|a: &T, b: &T| call_requires(outranks, (a, b)),
            forall|a: &T, b: &T, o: bool|
                call_ensures(outranks, (a, b), o) ==> o == (key(a@) > key(b@)),
    {
        let ghost i = it.index() as int;
        let mut p: usize = r.len();
        while p > 0 && outranks(&x, &r[p - 1])
            invariant
                p <= r@.len(),
                forall|j: int| p <= j < r@.len() ==> key(x@) > key(#[trigger] r@[j]@),
                forall|a: &T, b: &T| call_requires(outranks, (a, b)),
                forall|a: &T, b: &T, o: bool|
                    call_ensures(outranks, (a, b), o) ==> o == (key(a@) > key(b@)),
            decreases p,
        {
            p = p - 1;
        }
        proof {
            let d = deep(r@);
            assert forall|j: int| p <= j < d.len() implies key(#[trigger] d[j]) < key(x@) by {
                assert(d[j] == r@[j]@);
            }
            lemma_with_ranked_at(d, x@, key, p as int);
            assert(all.take(i + 1).drop_last() == all.take(i));
            assert(deep(r@.insert(p as int, x)) =~= d.insert(p as int, x@));
        }
        r.insert(p, x);
        proof {
            assert(deep(r@) == ranked(all.take(i + 1), key));
        }
    }
    proof {
        assert(all.take(all.len() as int) == all);
    }
    r
}

} // verus!
