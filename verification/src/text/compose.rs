//! Putting texts together.

use super::chars::{deep, lemma_deep_empty, lemma_deep_push, text_of};
use vstd::prelude::*;
use vstd::string::StringExecFns;

verus! {

/// The texts one after the other, with `sep` between neighbours.
pub open spec fn joined(parts: Seq<Seq<char>>, sep: Seq<char>) -> Seq<char>
    decreases parts.len(),
{
    if parts.len() == 0 {
        Seq::empty()
    } else if parts.len() == 1 {
        parts[0]
    } else {
        joined(parts.drop_last(), sep) + sep + parts.last()
    }
}

pub fn join_texts(parts: &Vec<String>, sep: &str) -> (r: String)
    ensures
        r@ == joined(deep(parts@), sep@),
{
    let mut r = String::new();
    let mut i: usize = 0;
    while i < parts.len()
        invariant
            i <= parts@.len(),
            r@ == joined(deep(parts@).take(i as int), sep@),
        decreases parts@.len() - i,
    {
        proof {
            assert(deep(parts@).take(i + 1).drop_last() == deep(parts@).take(i as int));
        }
        if i > 0 {
            r.append(sep);
            r.append(parts[i].as_str());
        } else {
            r = parts[i].clone();
        }
        i = i + 1;
    }
    proof {
        assert(deep(parts@).take(i as int) == deep(parts@));
    }
    r
}

pub fn join_slices(parts: &[&[char]], sep: &str) -> (r: String)
    ensures
        r@ == joined(deep(parts@), sep@),
{
    let mut r = String::new();
    let mut i: usize = 0;
    while i < parts.len()
        invariant
            i <= parts@.len(),
            r@ == joined(deep(parts@).take(i as int), sep@),
        decreases parts@.len() - i,
    {
        proof {
            assert(deep(parts@).take(i + 1).drop_last() == deep(parts@).take(i as int));
        }
        let part = text_of(parts[i]);
        if i > 0 {
            r.append(sep);
            r.append(part.as_str());
        } else {
            r = part;
        }
        i = i + 1;
    }
    proof {
        assert(deep(parts@).take(i as int) == deep(parts@));
    }
    r
}

/// `n` times the character `c`.
pub open spec fn repeated(c: char, n: int) -> Seq<char> {
    Seq::new(
        if n > 0 {
            n as nat
        } else {
            0
        },
        |i: int| c,
    )
}

/// The text, filled up with spaces at its end to at least `n` characters.
pub open spec fn left_aligned(s: Seq<char>, n: int) -> Seq<char> {
    s + repeated(' ', n - s.len())
}

/// The text, filled up with spaces at its start to at least `n` characters.
pub open spec fn right_aligned(s: Seq<char>, n: int) -> Seq<char> {
    repeated(' ', n - s.len()) + s
}

pub fn repeat(c: char, n: usize) -> (r: String)
    ensures
        r@ == repeated(c, n as int),
{
    let mut r = String::new();
    let mut i: usize = 0;
    while i < n
        invariant
            i <= n,
            r@ == repeated(c, i as int),
        decreases n - i,
    {
        r.push(c);
        i = i + 1;
    }
    r
}

fn gap(s: &str, n: usize) -> (r: usize)
    ensures
        r == if n > s@.len() {
            n - s@.len()
        } else {
            0
        },
{
    let len: usize = super::chars::chars_of(s).len();
    if n > len {
        n - len
    } else {
        0
    }
}

pub fn align_left(s: &str, n: usize) -> (r: String)
    ensures
        r@ == left_aligned(s@, n as int),
{
    let mut r = s.to_string();
    let fill = repeat(' ', gap(s, n));
    r.append(fill.as_str());
    proof {
        assert(r@ == left_aligned(s@, n as int));
    }
    r
}

pub fn align_right(s: &str, n: usize) -> (r: String)
    ensures
        r@ == right_aligned(s@, n as int),
{
    let mut r = repeat(' ', gap(s, n));
    r.append(s);
    proof {
        assert(r@ == right_aligned(s@, n as int));
    }
    r
}

/// What `f` writes for each item, in order.
pub fn map_texts<T: View, F: Fn(&T) -> String>(
    items: &Vec<T>,
    f: F,
    Ghost(written): Ghost<spec_fn(T::V) -> Seq<char>>,
) -> (r: Vec<String>)
    requires
        forall|x: &T| call_requires(f, (x,)),
        forall|x: &T, s: String| call_ensures(f, (x,), s) ==> s@ == written(x@),
    ensures
        deep(r@) == deep(items@).map_values(written),
{
    broadcast use lemma_deep_empty;

    let mut out: Vec<String> = Vec::new();
    let ghost all = deep(items@).map_values(written);
    let mut i: usize = 0;
    while i < items.len()
        invariant
            i <= items@.len(),
            all == deep(items@).map_values(written),
            deep(out@) == all.take(i as int),
            forall|x: &T| call_requires(f, (x,)),
            forall|x: &T, s: String| call_ensures(f, (x,), s) ==> s@ == written(x@),
        decreases items@.len() - i,
    {
        broadcast use lemma_deep_push;

        out.push(f(&items[i]));
        proof {
            assert(all.take(i + 1) == all.take(i as int).push(all[i as int]));
        }
        i = i + 1;
    }
    proof {
        assert(all.take(all.len() as int) == all);
    }
    out
}

/// What `f` writes for each item, one after the other.
pub open spec fn written<A>(items: Seq<A>, f: spec_fn(A) -> Seq<char>) -> Seq<char>
    decreases items.len(),
{
    if items.len() == 0 {
        Seq::empty()
    } else {
        written(items.drop_last(), f) + f(items.last())
    }
}

/// Appends what `f` writes for each item.
pub fn append_all<T: View, F: Fn(&T) -> String>(
    out: &mut String,
    items: &[T],
    f: F,
    Ghost(g): Ghost<spec_fn(T::V) -> Seq<char>>,
)
    requires
        forall|x: &T| call_requires(f, (x,)),
        forall|x: &T, s: String| call_ensures(f, (x,), s) ==> s@ == g(x@),
    ensures
        final(out)@ == old(out)@ + written(deep(items@), g),
{
    let ghost all = deep(items@);
    let ghost start = out@;
    let mut i: usize = 0;
    proof {
        assert(start =~= start + written(all.take(0), g));
    }
    while i < items.len()
        invariant
            all == deep(items@),
            i <= items@.len(),
            out@ == start + written(all.take(i as int), g),
            forall|x: &T| call_requires(f, (x,)),
            forall|x: &T, s: String| call_ensures(f, (x,), s) ==> s@ == g(x@),
        decreases items@.len() - i,
    {
        proof {
            assert(all.take(i + 1).drop_last() =~= all.take(i as int));
        }
        let s = f(&items[i]);
        out.append(s.as_str());
        proof {
            assert(out@ =~= start + written(all.take(i + 1), g));
        }
        i = i + 1;
    }
    proof {
        assert(all.take(all.len() as int) =~= all);
    }
}

} // verus!
