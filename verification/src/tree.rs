//! The tree of categories and commands as it is printed: one row for each
//! category and each command, and the lines that join the rows.

use crate::text::{chars_eq, chars_of, string_of};
use vstd::prelude::*;
use vstd::string::*;

verus! {

/// The names of `s` from the place `i` on, where `cur` is what was read of
/// the name that `i` lies in: the separator ends a name, and so does the
/// end of `s`.
pub open spec fn names_from(s: Seq<char>, i: int, cur: Seq<char>) -> Seq<Seq<char>>
    decreases s.len() - i,
{
    if i >= s.len() {
        seq![cur]
    } else if s[i] == '/' {
        seq![cur] + names_from(s, i + 1, Seq::empty())
    } else {
        names_from(s, i + 1, cur.push(s[i]))
    }
}

/// The names of the path `p`.
pub open spec fn names_of(p: Seq<char>) -> Seq<Seq<char>> {
    names_from(p, 0, Seq::empty())
}

/// How many names `a` and `b` share at their start, counted from `k`, up to
/// which they agree.
pub open spec fn shared_from(a: Seq<Seq<char>>, b: Seq<Seq<char>>, k: int) -> int
    decreases a.len() - k,
{
    if k >= a.len() || k >= b.len() || a[k] != b[k] {
        k
    } else {
        shared_from(a, b, k + 1)
    }
}

/// A row of the printed tree.
#[derive(Debug, Clone, PartialEq, Eq)]
pub struct TreeRow {
    /// How many categories lie above the row.
    pub depth: usize,
    /// The name of the category or command.
    pub name: String,
    /// Whether the row is a command.
    pub is_leaf: bool,
}

/// A row of the printed tree, with its name as a sequence of characters.
pub struct RowView {
    pub depth: int,
    pub name: Seq<char>,
    pub is_leaf: bool,
}

impl View for TreeRow {
    type V = RowView;

    open spec fn view(&self) -> RowView {
        RowView { depth: self.depth as int, name: self.name@, is_leaf: self.is_leaf }
    }
}

/// The views of a sequence of rows, in the same order.
pub open spec fn row_views(s: Seq<TreeRow>) -> Seq<RowView> {
    Seq::new(s.len(), |i: int| s[i]@)
}

/// The rows that a path with the names `cur` adds behind a path with the
/// names `prev`: one for each name of `cur` behind those that it shares
/// with `prev`, the last of them a command.
pub open spec fn rows_behind(prev: Seq<Seq<char>>, cur: Seq<Seq<char>>) -> Seq<RowView> {
    let c = shared_from(prev, cur, 0);
    Seq::new(
        (cur.len() - c) as nat,
        |j: int| RowView { depth: c + j, name: cur[c + j], is_leaf: c + j == cur.len() - 1 },
    )
}

/// The rows of the tree of the first `n` of `paths`: each path adds the
/// rows of its names behind the path before it.
pub open spec fn rows_of(paths: Seq<Seq<char>>, n: int) -> Seq<RowView>
    decreases n,
{
    if n <= 0 {
        Seq::empty()
    } else {
        rows_of(paths, n - 1) + rows_behind(
            if n >= 2 {
                names_of(paths[n - 2])
            } else {
                Seq::empty()
            },
            names_of(paths[n - 1]),
        )
    }
}

/// Behind the row `i`, another row of the depth `depth` follows before any
/// row above that depth: the line of that depth goes on below the row `i`.
pub open spec fn goes_on(rows: Seq<RowView>, i: int, depth: int) -> bool
    decreases rows.len() - i,
{
    if i + 1 >= rows.len() || i < -1 {
        false
    } else if rows[i + 1].depth < depth {
        false
    } else if rows[i + 1].depth == depth {
        true
    } else {
        goes_on(rows, i + 1, depth)
    }
}

/// What is printed before the name in the row `i`, for the depths up to
/// `depth`: for each depth the line that goes on, or blanks.
pub open spec fn guides(rows: Seq<RowView>, i: int, depth: int) -> Seq<char>
    decreases depth,
{
    if depth <= 0 {
        Seq::empty()
    } else {
        guides(rows, i, depth - 1) + (if goes_on(rows, i, depth - 1) {
            "│   "@
        } else {
            "    "@
        })
    }
}

/// The views of a sequence of names, in the same order.
pub open spec fn name_views(s: Seq<Vec<char>>) -> Seq<Seq<char>> {
    Seq::new(s.len(), |i: int| s[i]@)
}

/// The names of the path `path`.
pub fn split_names(path: &Vec<char>) -> (r: Vec<Vec<char>>)
    ensures
        name_views(r@) == names_of(path@),
{
    let mut out: Vec<Vec<char>> = Vec::new();
    let mut cur: Vec<char> = Vec::new();
    let mut i: usize = 0;
    proof {
        assert(name_views(out@) + names_from(path@, 0, cur@) =~= names_of(path@));
    }
    while i < path.len()
        invariant
            i <= path@.len(),
            name_views(out@) + names_from(path@, i as int, cur@) == names_of(path@),
        decreases path@.len() - i,
    {
        let ghost done = name_views(out@);
        let ghost open = cur@;
        if path[i] == '/' {
            out.push(cur);
            cur = Vec::new();
            assert(name_views(out@) =~= done + seq![open]);
            assert(name_views(out@) + names_from(path@, i + 1, cur@) =~= done + (seq![open]
                + names_from(path@, i + 1, Seq::empty())));
        } else {
            cur.push(path[i]);
        }
        i += 1;
    }
    let ghost done = name_views(out@);
    let ghost open = cur@;
    out.push(cur);
    assert(name_views(out@) =~= done + seq![open]);
    out
}

/// How many names `a` and `b` share at their start.
fn shared(a: &Vec<Vec<char>>, b: &Vec<Vec<char>>) -> (r: usize)
    ensures
        r == shared_from(name_views(a@), name_views(b@), 0),
        r <= a@.len(),
        r <= b@.len(),
{
    let mut k: usize = 0;
    while k < a.len() && k < b.len() && chars_eq(&a[k], &b[k])
        invariant
            k <= a@.len(),
            k <= b@.len(),
            shared_from(name_views(a@), name_views(b@), 0) == shared_from(
                name_views(a@),
                name_views(b@),
                k as int,
            ),
        decreases a@.len() - k,
    {
        assert(name_views(a@)[k as int] == name_views(b@)[k as int]);
        k += 1;
    }
    proof {
        if k < a@.len() && k < b@.len() {
            assert(name_views(a@)[k as int] == a@[k as int]@);
            assert(name_views(b@)[k as int] == b@[k as int]@);
        }
    }
    k
}

/// The views of a sequence of paths, in the same order.
pub open spec fn path_views(s: Seq<String>) -> Seq<Seq<char>> {
    Seq::new(s.len(), |i: int| s[i]@)
}

/// The rows of the tree of `paths`, from top to bottom. Paths in ascending
/// order give each category one row, above the rows of what it holds.
pub fn tree_rows(paths: &Vec<String>) -> (r: Vec<TreeRow>)
    ensures
        row_views(r@) == rows_of(path_views(paths@), paths@.len() as int),
{
    let ghost all = path_views(paths@);
    let mut out: Vec<TreeRow> = Vec::new();
    let mut prev: Vec<Vec<char>> = Vec::new();
    let mut n: usize = 0;
    proof {
        assert(row_views(out@) =~= rows_of(all, 0));
        assert(name_views(prev@) =~= Seq::<Seq<char>>::empty());
    }
    while n < paths.len()
        invariant
            n <= paths@.len(),
            all == path_views(paths@),
            row_views(out@) == rows_of(all, n as int),
            name_views(prev@) == (if n >= 1 {
                names_of(all[n - 1])
            } else {
                Seq::empty()
            }),
        decreases paths@.len() - n,
    {
        let chars = chars_of(paths[n].as_str());
        let names = split_names(&chars);
        let c = shared(&prev, &names);
        let ghost before = row_views(out@);
        let ghost behind = rows_behind(name_views(prev@), name_views(names@));
        assert(all[n as int] == paths@[n as int]@);
        let mut j: usize = c;
        proof {
            assert(before + behind.take(0) =~= before);
        }
        while j < names.len()
            invariant
                c <= j <= names@.len(),
                c == shared_from(name_views(prev@), name_views(names@), 0),
                behind == rows_behind(name_views(prev@), name_views(names@)),
                row_views(out@) == before + behind.take(j - c),
            decreases names@.len() - j,
        {
            let ghost done = row_views(out@);
            let row = TreeRow { depth: j, name: string_of(&names[j]), is_leaf: j == names.len() - 1 };
            assert(row@ == behind[j - c]) by {
                assert(name_views(names@)[j as int] == names@[j as int]@);
            }
            out.push(row);
            proof {
                assert(row_views(out@) =~= done.push(behind[j - c]));
                assert(behind.take(j - c + 1) =~= behind.take(j - c).push(behind[j - c]));
                assert(before + behind.take(j - c + 1) =~= (before + behind.take(j - c)).push(
                    behind[j - c],
                ));
            }
            j += 1;
        }
        proof {
            assert(behind.take(behind.len() as int) =~= behind);
        }
        prev = names;
        n += 1;
    }
    out
}

/// Whether the line of the depth `depth` goes on below the row `i`.
pub fn line_goes_on(rows: &Vec<TreeRow>, i: usize, depth: usize) -> (r: bool)
    requires
        i < rows@.len(),
    ensures
        r == goes_on(row_views(rows@), i as int, depth as int),
{
    let ghost all = row_views(rows@);
    let mut j: usize = i;
    while j < rows.len() - 1
        invariant
            i <= j < rows@.len(),
            all == row_views(rows@),
            goes_on(all, i as int, depth as int) == goes_on(all, j as int, depth as int),
        decreases rows@.len() - j,
    {
        assert(all[j + 1] == rows@[j + 1]@);
        if rows[j + 1].depth < depth {
            return false;
        }
        if rows[j + 1].depth == depth {
            return true;
        }
        j += 1;
    }
    false
}

/// What is printed before the name in the row `i`: for each depth above
/// the row the line that goes on, or blanks.
pub fn row_guides(rows: &Vec<TreeRow>, i: usize) -> (r: String)
    requires
        i < rows@.len(),
    ensures
        r@ == guides(row_views(rows@), i as int, rows@[i as int].depth as int),
{
    let mut out = String::new();
    let mut d: usize = 0;
    while d < rows[i].depth
        invariant
            i < rows@.len(),
            d <= rows@[i as int].depth,
            out@ == guides(row_views(rows@), i as int, d as int),
        decreases rows@[i as int].depth - d,
    {
        if line_goes_on(rows, i, d) {
            out.append("│   ");
        } else {
            out.append("    ");
        }
        d += 1;
    }
    out
}

} // verus!
