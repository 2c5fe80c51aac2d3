//! Laws of the command store, proved of the functions that say what its
//! operations do.

use crate::command::CommandView;
use crate::error::ErrorView;
use crate::path::{is_ancestor, lemma_ancestor_chain, lemma_ancestors_nest, valid_path};
use crate::store::{
    add_error, added, after_add, after_remove, after_rename, can_hold, file_path, got,
    has_leaf_above, has_leaf_under, moved_to, pruned, pruned_from, remove_dirs, remove_error,
    remove_ops, removed, rename_error, renamed, tree_shaped, FsOpView, Leaves, StoreView,
};
use vstd::prelude::*;

verus! {

/// A command can be stored at every valid path of an initialized store that
/// is neither taken, nor a category, nor below a command; and with
/// `overwrite` also at a path that is taken.
pub proof fn law_add_succeeds(s: StoreView, c: CommandView, overwrite: bool)
    requires
        s.well_formed(),
        s.initialized,
        valid_path(c.path),
        if s.leaves.contains_key(c.path) {
            overwrite
        } else {
            !has_leaf_under(s.leaves, c.path) && !has_leaf_above(s.leaves, c.path)
        },
    ensures
        add_error(s, c, overwrite) is None,
{
}

/// What `add` has stored, `get` returns: after a successful `add` of a
/// command, `get` on its path gives that command.
pub proof fn law_add_then_get(s: StoreView, c: CommandView, overwrite: bool)
    requires
        s.well_formed(),
        add_error(s, c, overwrite) is None,
    ensures
        got(after_add(s, c, overwrite), c.path) == Ok::<CommandView, ErrorView>(c),
{
}

/// `add` touches no other command: after it, `get` on any other path
/// returns what it returned before.
pub proof fn law_add_keeps_others(s: StoreView, c: CommandView, overwrite: bool, q: Seq<char>)
    requires
        s.well_formed(),
        q != c.path,
    ensures
        got(after_add(s, c, overwrite), q) == got(s, q),
{
}

/// `add` without `overwrite` at a path that holds a command fails with
/// `AlreadyExists` and leaves the store as it was, the command at the path
/// included.
pub proof fn law_add_refuses_taken_path(s: StoreView, c: CommandView)
    requires
        s.well_formed(),
        s.leaves.contains_key(c.path),
    ensures
        add_error(s, c, false) == Some(ErrorView::AlreadyExists(file_path(s.root, c.path))),
        after_add(s, c, false) == s,
        got(after_add(s, c, false), c.path) == Ok::<CommandView, ErrorView>(s.leaves[c.path]),
{
}

/// After a successful `remove` of a path, `get` on it fails with `NotFound`.
pub proof fn law_remove_then_get(s: StoreView, p: Seq<char>)
    requires
        s.well_formed(),
        remove_error(s, p) is None,
    ensures
        got(after_remove(s, p), p) == Err::<CommandView, ErrorView>(ErrorView::NotFound(p)),
{
}

/// Each operation keeps the store well formed.
pub proof fn law_operations_keep_shape(
    s: StoreView,
    c: CommandView,
    overwrite: bool,
    p: Seq<char>,
    dst: Seq<char>,
)
    requires
        s.well_formed(),
    ensures
        after_add(s, c, overwrite).well_formed(),
        after_remove(s, p).well_formed(),
        after_rename(s, p, dst).well_formed(),
{
    if add_error(s, c, overwrite) is None {
        lemma_insert_keeps_shape(s.leaves, c);
    }
    if rename_error(s, p, dst) is None {
        lemma_insert_keeps_shape(s.leaves.remove(p), moved_to(s.leaves[p], dst));
    }
}

/// Storing a command at its own path, where that path is taken or can hold
/// a command, keeps the shape of the tree.
pub proof fn lemma_insert_keeps_shape(leaves: Leaves, c: CommandView)
    requires
        tree_shaped(leaves),
        leaves.contains_key(c.path) || can_hold(leaves, c.path),
    ensures
        tree_shaped(leaves.insert(c.path, c)),
{
    let after = leaves.insert(c.path, c);
    assert forall|x: Seq<char>, y: Seq<char>|
        after.contains_key(x) && after.contains_key(y) implies !is_ancestor(x, y) by {
        if is_ancestor(x, y) {
            if x == c.path && !leaves.contains_key(c.path) {
                assert(leaves.contains_key(y));
            } else if y == c.path && !leaves.contains_key(c.path) {
                assert(leaves.contains_key(x));
            } else {
                assert(leaves.contains_key(x) && leaves.contains_key(y));
            }
        }
    }
}

/// The walk upward from `p[..upto]` removes a category above it if and only
/// if no command lies below that category.
pub proof fn lemma_pruned_from(leaves: Leaves, p: Seq<char>, upto: int, d: Seq<char>)
    requires
        0 <= upto <= p.len(),
    ensures
        pruned_from(leaves, p, upto).contains(d) <==> d.len() < upto && is_ancestor(d, p)
            && !has_leaf_under(leaves, d),
    decreases upto,
{
    if upto <= 0 {
    } else {
        lemma_pruned_from(leaves, p, upto - 1, d);
        let e = p.subrange(0, upto - 1);
        let rest = pruned_from(leaves, p, upto - 1);
        if p[upto - 1] != '/' {
        } else {
            assert(is_ancestor(e, p)) by {
                assert(p.subrange(0, e.len() as int) =~= e);
            }
            if has_leaf_under(leaves, e) {
                let q = choose|q: Seq<char>| #[trigger] leaves.contains_key(q) && is_ancestor(e, q);
                if d.len() < upto - 1 && is_ancestor(d, p) {
                    lemma_ancestors_nest(d, e, p);
                    lemma_ancestor_chain(d, e, q);
                }
            } else {
                let list = seq![e] + rest;
                assert(list[0] == e);
                if list.contains(d) {
                    let i = choose|i: int| 0 <= i < list.len() && list[i] == d;
                    if i > 0 {
                        assert(rest[i - 1] == d);
                    }
                }
                if d == e {
                    assert(list.contains(d));
                } else if rest.contains(d) {
                    let i = choose|i: int| 0 <= i < rest.len() && rest[i] == d;
                    assert(list[i + 1] == d);
                }
                if d.len() == upto - 1 && is_ancestor(d, p) {
                    assert(d =~= e);
                }
            }
        }
    }
}

/// After a successful `remove` of `p` the store is still initialized, and of
/// the categories above `p` those that hold no command any more are removed
/// from disk, and no other: the journal gains `RemoveDir(d)` for a category
/// `d` above `p` if and only if no remaining command lies below `d`.
pub proof fn law_remove_prunes(s: StoreView, p: Seq<char>, d: Seq<char>)
    requires
        s.well_formed(),
        remove_error(s, p) is None,
        is_ancestor(d, p),
    ensures
        after_remove(s, p).initialized,
        after_remove(s, p).pending == s.pending + remove_ops(after_remove(s, p).leaves, p),
        remove_ops(after_remove(s, p).leaves, p).contains(FsOpView::RemoveDir(d))
            <==> !has_leaf_under(after_remove(s, p).leaves, d),
{
    let after = s.leaves.remove(p);
    let dirs = pruned(after, p);
    let ops = remove_ops(after, p);
    lemma_pruned_from(after, p, p.len() as int, d);
    if dirs.contains(d) {
        let i = choose|i: int| 0 <= i < dirs.len() && dirs[i] == d;
        assert(remove_dirs(dirs)[i] == FsOpView::RemoveDir(d));
        assert(ops[i + 1] == FsOpView::RemoveDir(d));
    }
    if ops.contains(FsOpView::RemoveDir(d)) {
        let i = choose|i: int| 0 <= i < ops.len() && ops[i] == FsOpView::RemoveDir(d);
        assert(i > 0);
        assert(remove_dirs(dirs)[i - 1] == FsOpView::RemoveDir(d));
        assert(dirs[i - 1] == d);
    }
}

/// `rename` to another path does what `remove` followed by `add` does: it
/// succeeds exactly where `remove` of `src` succeeds and `add`, without
/// `overwrite`, of the command that lay there, now under `dst`, succeeds
/// after it; and then both leave the same commands.
pub proof fn law_rename_is_remove_then_add(s: StoreView, src: Seq<char>, dst: Seq<char>)
    requires
        s.well_formed(),
        s.leaves.contains_key(src),
        src != dst,
    ensures
        rename_error(s, src, dst) is None <==> remove_error(s, src) is None && add_error(
            removed(s, src),
            moved_to(s.leaves[src], dst),
            false,
        ) is None,
        rename_error(s, src, dst) is None ==> after_rename(s, src, dst).leaves == added(
            removed(s, src),
            moved_to(s.leaves[src], dst),
        ).leaves,
{
}

/// After a successful `rename`, `get` on `src` fails with `NotFound` and
/// `get` on `dst` returns the command that lay at `src`, under its new path.
pub proof fn law_rename_moves(s: StoreView, src: Seq<char>, dst: Seq<char>)
    requires
        s.well_formed(),
        rename_error(s, src, dst) is None,
    ensures
        got(after_rename(s, src, dst), src) == Err::<CommandView, ErrorView>(
            ErrorView::NotFound(src),
        ),
        got(after_rename(s, src, dst), dst) == Ok::<CommandView, ErrorView>(
            moved_to(s.leaves[src], dst),
        ),
{
}

/// `rename` to a path that holds a command fails with `AlreadyExists` and
/// leaves the store as it was: `get` on `src` still returns what lay there.
pub proof fn law_rename_refuses_taken_path(s: StoreView, src: Seq<char>, dst: Seq<char>)
    requires
        s.well_formed(),
        s.leaves.contains_key(src),
        s.leaves.contains_key(dst),
    ensures
        rename_error(s, src, dst) == Some(ErrorView::AlreadyExists(file_path(s.root, dst))),
        after_rename(s, src, dst) == s,
        got(after_rename(s, src, dst), src) == Ok::<CommandView, ErrorView>(s.leaves[src]),
{
}

} // verus!
