//! Paths of stored commands: names separated by `/`.

use crate::text::{chars_eq, find_char, lemma_find_from};
use vstd::prelude::*;

verus! {

/// `p[i..j]` is one of the names of `p`: it reaches from the start of `p`, or
/// from behind a separator, to the next separator or to the end of `p`.
pub open spec fn is_segment(p: Seq<char>, i: int, j: int) -> bool {
    &&& 0 <= i <= j <= p.len()
    &&& (i == 0 || p[i - 1] == '/')
    &&& (j == p.len() || p[j] == '/')
    &&& forall|k: int| i <= k < j ==> p[k] != '/'
}

/// A name that a path may hold: not empty and not `..`.
pub open spec fn good_name(name: Seq<char>) -> bool {
    name.len() > 0 && name != seq!['.', '.']
}

/// `p` can name a command: it is not empty, and every one of its names is
/// not empty and is not `..`. So it neither starts nor ends with a separator.
pub open spec fn valid_path(p: Seq<char>) -> bool {
    &&& p.len() > 0
    &&& forall|i: int, j: int| #[trigger] is_segment(p, i, j) ==> good_name(p.subrange(i, j))
}

/// `d` names a category above `p`: the names of `d` are the first names of
/// `p`, and `p` has more.
pub open spec fn is_ancestor(d: Seq<char>, p: Seq<char>) -> bool {
    &&& d.len() < p.len()
    &&& p.subrange(0, d.len() as int) == d
    &&& p[d.len() as int] == '/'
}

/// `p` lies in the part of the tree that `prefix` names: `p` is `prefix`
/// itself or lies below it. The empty prefix names the root, hence all.
pub open spec fn in_scope(prefix: Seq<char>, p: Seq<char>) -> bool {
    prefix.len() == 0 || p == prefix || is_ancestor(prefix, p)
}

/// The place of the last separator of `p` before `upto`, or -1.
pub open spec fn last_sep(p: Seq<char>, upto: int) -> int
    decreases upto,
{
    if upto <= 0 {
        -1
    } else if p[upto - 1] == '/' {
        upto - 1
    } else {
        last_sep(p, upto - 1)
    }
}

/// The category that holds `p`; empty, for the root, where `p` is one name.
pub open spec fn parent_dir(p: Seq<char>) -> Seq<char> {
    let k = last_sep(p, p.len() as int);
    if k < 0 {
        Seq::empty()
    } else {
        p.subrange(0, k)
    }
}

/// Whether the name `v[i..j]` is not empty and not `..`.
fn good_name_at(v: &Vec<char>, i: usize, j: usize) -> (r: bool)
    requires
        i <= j <= v.len(),
    ensures
        r == good_name(v@.subrange(i as int, j as int)),
{
    let ghost name = v@.subrange(i as int, j as int);
    if j == i {
        return false;
    }
    if j - i == 2 && v[i] == '.' && v[i + 1] == '.' {
        assert(name =~= seq!['.', '.']);
        return false;
    }
    proof {
        if name == seq!['.', '.'] {
            assert(name.len() == 2);
            assert(name[0] == '.' && name[1] == '.');
        }
    }
    true
}

/// Whether `v` can name a command.
pub fn is_valid_path(v: &Vec<char>) -> (r: bool)
    ensures
        r == valid_path(v@),
{
    let mut start: usize = 0;
    loop
        invariant
            start <= v.len(),
            start == 0 || v@[start - 1] == '/',
            forall|i: int, j: int|
                #[trigger] is_segment(v@, i, j) && i < start ==> good_name(v@.subrange(i, j)),
        decreases v.len() - start,
    {
        let end = find_char(v, '/', start);
        proof {
            lemma_find_from(v@, '/', start as int);
            assert(is_segment(v@, start as int, end as int));
        }
        if !good_name_at(v, start, end) {
            return false;
        }
        proof {
            assert forall|i: int, j: int| #[trigger]
                is_segment(v@, i, j) && start <= i <= end implies good_name(
                v@.subrange(i, j),
            ) by {
                if i > start {
                    assert(v@[i - 1] != '/');
                }
                if j < end {
                    assert(v@[j] != '/');
                }
                if j > end {
                    assert(v@[end as int] != '/');
                }
            }
        }
        if end == v.len() {
            assert(v@.len() > 0);
            return true;
        }
        start = end + 1;
    }
}

/// Whether `d` names a category above `p`.
pub fn is_ancestor_of(d: &Vec<char>, p: &Vec<char>) -> (r: bool)
    ensures
        r == is_ancestor(d@, p@),
{
    if d.len() >= p.len() {
        return false;
    }
    if p[d.len()] != '/' {
        return false;
    }
    let mut i: usize = 0;
    while i < d.len()
        invariant
            i <= d.len() < p.len(),
            forall|k: int| 0 <= k < i ==> d@[k] == p@[k],
        decreases d.len() - i,
    {
        if d[i] != p[i] {
            assert(p@.subrange(0, d@.len() as int)[i as int] == p@[i as int]);
            return false;
        }
        i += 1;
    }
    assert(p@.subrange(0, d@.len() as int) =~= d@);
    true
}

/// Whether `p` lies in the part of the tree that `prefix` names.
pub fn is_in_scope(prefix: &Vec<char>, p: &Vec<char>) -> (r: bool)
    ensures
        r == in_scope(prefix@, p@),
{
    prefix.len() == 0 || chars_eq(p, prefix) || is_ancestor_of(prefix, p)
}

/// A category above a category above a path lies above that path.
pub proof fn lemma_ancestor_chain(a: Seq<char>, b: Seq<char>, c: Seq<char>)
    requires
        is_ancestor(a, b),
        is_ancestor(b, c),
    ensures
        is_ancestor(a, c),
{
    assert(c.subrange(0, a.len() as int) =~= a) by {
        assert forall|k: int| 0 <= k < a.len() implies c[k] == a[k] by {
            assert(b.subrange(0, a.len() as int)[k] == b[k]);
            assert(c.subrange(0, b.len() as int)[k] == c[k]);
        }
    }
    assert(c.subrange(0, b.len() as int)[a.len() as int] == c[a.len() as int]);
}

/// Of two categories above one path the shorter lies above the longer.
pub proof fn lemma_ancestors_nest(a: Seq<char>, b: Seq<char>, p: Seq<char>)
    requires
        is_ancestor(a, p),
        is_ancestor(b, p),
        a.len() < b.len(),
    ensures
        is_ancestor(a, b),
{
    assert(b.subrange(0, a.len() as int) =~= a) by {
        assert forall|k: int| 0 <= k < a.len() implies b[k] == a[k] by {
            assert(p.subrange(0, a.len() as int)[k] == p[k]);
            assert(p.subrange(0, b.len() as int)[k] == p[k]);
        }
    }
    assert(p.subrange(0, b.len() as int)[a.len() as int] == p[a.len() as int]);
}

} // verus!
