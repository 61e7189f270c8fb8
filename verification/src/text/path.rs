//! File paths as texts: their components, and a leading `~`.

use super::chars::{chars_of, deep, deep_option, lemma_deep_empty, lemma_deep_push, text_of};
use super::search::{eq_chars, spells};
use super::split::{fields, lemma_take_all, split_char};
use vstd::prelude::*;
use vstd::slice::slice_subrange;
use vstd::string::StringExecFns;

verus! {

/// A component that names something: repeated separators leave empty ones, and `.` stands for
/// the directory itself.
pub open spec fn names_something(c: Seq<char>) -> bool {
    c.len() > 0 && c != "."@
}

/// The components of a path that name something, in order.
pub open spec fn components(path: Seq<char>) -> Seq<Seq<char>> {
    fields(path, '/').filter(|c: Seq<char>| names_something(c))
}

/// Both paths have the same components: repeated and trailing separators do not count, nor does
/// a `.`, unless it stands first.
pub open spec fn same_path(a: Seq<char>, b: Seq<char>) -> bool {
    &&& (a.len() > 0 && a[0] == '/') == (b.len() > 0 && b[0] == '/')
    &&& (fields(a, '/')[0] == "."@) == (fields(b, '/')[0] == "."@)
    &&& components(a) == components(b)
}

fn read_components<'a>(parts: &Vec<&'a [char]>) -> (r: Vec<&'a [char]>)
    ensures
        deep(r@) == deep(parts@).filter(|c: Seq<char>| names_something(c)),
{
    broadcast use lemma_deep_push, lemma_deep_empty;

    let ghost f = |c: Seq<char>| names_something(c);
    let ghost all = deep(parts@);
    let mut out: Vec<&'a [char]> = Vec::new();
    let mut i: usize = 0;
    proof {
        reveal(Seq::filter);
    }
    while i < parts.len()
        invariant
            i <= parts@.len(),
            all == deep(parts@),
            f == |c: Seq<char>| names_something(c),
            deep(out@) == all.take(i as int).filter(f),
        decreases parts@.len() - i,
    {
        proof {
            reveal(Seq::filter);
            assert(all.take(i + 1).drop_last() == all.take(i as int));
            assert(all.take(i + 1).last() == parts@[i as int]@);
        }
        if parts[i].len() > 0 && !spells(parts[i], ".") {
            out.push(parts[i]);
        }
        i = i + 1;
    }
    proof {
        lemma_take_all(all);
    }
    out
}

/// Whether both paths have the same components.
pub fn is_same_path(a: &str, b: &str) -> (r: bool)
    ensures
        r == same_path(a@, b@),
{
    let (s, t) = (chars_of(a), chars_of(b));
    let (p, q) = (split_char(s.as_slice(), '/'), split_char(t.as_slice(), '/'));
    let rooted = (s.len() > 0 && s[0] == '/') == (t.len() > 0 && t[0] == '/');
    let here = spells(p[0], ".") == spells(q[0], ".");
    let (x, y) = (read_components(&p), read_components(&q));
    let ghost (dx, dy) = (deep(x@), deep(y@));
    if !rooted || !here || x.len() != y.len() {
        proof {
            assert(x@.len() != y@.len() ==> dx.len() != dy.len());
        }
        return false;
    }
    let mut i: usize = 0;
    while i < x.len()
        invariant
            i <= x@.len() == y@.len(),
            dx == deep(x@),
            dy == deep(y@),
            dx == components(a@),
            dy == components(b@),
            forall|j: int| 0 <= j < i ==> dx[j] == dy[j],
        decreases x@.len() - i,
    {
        if !eq_chars(x[i], y[i]) {
            proof {
                assert(dx[i as int] != dy[i as int]);
            }
            return false;
        }
        i = i + 1;
    }
    proof {
        assert(dx =~= dy);
    }
    true
}

/// The path starts at the user's home directory: its first component is `~`.
pub open spec fn under_home(path: Seq<char>) -> bool {
    path.len() > 0 && path[0] == '~' && (path.len() == 1 || path[1] == '/')
}

/// The text without the separators and `.` components at its start.
pub open spec fn trim_left(s: Seq<char>) -> Seq<char>
    decreases s.len(),
{
    if s.len() > 0 && s[0] == '/' {
        trim_left(s.skip(1))
    } else if s.len() > 0 && s[0] == '.' && (s.len() == 1 || s[1] == '/') {
        trim_left(s.skip(1))
    } else {
        s
    }
}

/// The text without the separators and `.` components at its end.
pub open spec fn trim_right(s: Seq<char>) -> Seq<char>
    decreases s.len(),
{
    let n = s.len() as int;
    if n > 0 && s[n - 1] == '/' {
        trim_right(s.drop_last())
    } else if n > 0 && s[n - 1] == '.' && (n == 1 || s[n - 2] == '/') {
        trim_right(s.drop_last())
    } else {
        s
    }
}

/// A relative path below a directory.
pub open spec fn path_below(dir: Seq<char>, rest: Seq<char>) -> Seq<char> {
    if dir.len() == 0 {
        rest
    } else if dir.last() == '/' {
        dir + rest
    } else {
        dir + "/"@ + rest
    }
}

/// The path with a leading `~` replaced by the home directory, where that is known.
pub open spec fn expanded(path: Seq<char>, home: Option<Seq<char>>) -> Seq<char> {
    match home {
        Some(dir) => if under_home(path) {
            path_below(dir, trim_right(trim_left(path.skip(1))))
        } else {
            path
        },
        None => path,
    }
}

fn trimmed_left<'a>(s: &'a [char]) -> (r: &'a [char])
    ensures
        r@ == trim_left(s@),
{
    let n: usize = s.len();
    let mut i: usize = 0;
    proof {
        assert(s@.skip(0) == s@);
    }
    while i < n && (s[i] == '/' || (s[i] == '.' && (i + 1 == n || s[i + 1] == '/')))
        invariant
            i <= n == s@.len(),
            trim_left(s@.skip(i as int)) == trim_left(s@),
        decreases n - i,
    {
        proof {
            assert(s@.skip(i as int).skip(1) == s@.skip(i + 1));
        }
        i = i + 1;
    }
    let r = slice_subrange(s, i, n);
    proof {
        assert(r@ == s@.skip(i as int));
    }
    r
}

fn trimmed_right<'a>(s: &'a [char]) -> (r: &'a [char])
    ensures
        r@ == trim_right(s@),
{
    let mut n: usize = s.len();
    proof {
        lemma_take_all(s@);
    }
    while n > 0 && (s[n - 1] == '/' || (s[n - 1] == '.' && (n == 1 || s[n - 2] == '/')))
        invariant
            n <= s@.len(),
            trim_right(s@.take(n as int)) == trim_right(s@),
        decreases n,
    {
        proof {
            assert(s@.take(n as int).drop_last() == s@.take(n - 1));
        }
        n = n - 1;
    }
    let r = slice_subrange(s, 0, n);
    proof {
        assert(r@ == s@.take(n as int));
    }
    r
}

/// Expands a leading `~` to the user's home directory, where that is known.
pub fn expand_tilde(path: &str, home: Option<&str>) -> (r: String)
    ensures
        r@ == expanded(path@, deep_option(home)),
{
    let text = chars_of(path);
    let n: usize = text.len();
    match home {
        Some(dir) => {
            if n > 0 && text[0] == '~' && (n == 1 || text[1] == '/') {
                let behind = slice_subrange(text.as_slice(), 1, n);
                proof {
                    assert(behind@ == path@.skip(1));
                }
                let rest = text_of(trimmed_right(trimmed_left(behind)));
                let parent = chars_of(dir);
                let mut out = dir.to_string();
                if parent.len() > 0 && parent[parent.len() - 1] != '/' {
                    out.append("/");
                }
                out.append(rest.as_str());
                proof {
                    assert(out@ == path_below(dir@, rest@));
                }
                out
            } else {
                path.to_string()
            }
        },
        None => path.to_string(),
    }
}

} // verus!
