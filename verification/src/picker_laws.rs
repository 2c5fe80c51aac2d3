//! Laws of the picker: its commands and the store stay in line with each
//! other.

use crate::command::CommandView;
use crate::keys::{acted, binding, Action, Key};
use crate::picker::{first_at, replaced, AppView, Mode};
use crate::store::{
    add_error, got, in_part, is_listing, remove_error, removed, Leaves, StoreView,
};
use crate::text::lemma_lex_asymmetric;
use vstd::prelude::*;

verus! {

/// `commands` holds the commands of `leaves`, all of them, each once, and
/// no others.
pub open spec fn in_sync(commands: Seq<CommandView>, leaves: Leaves) -> bool {
    &&& forall|i: int|
        0 <= i < commands.len() ==> leaves.contains_key(#[trigger] commands[i].path)
            && leaves[commands[i].path] == commands[i]
    &&& forall|p: Seq<char>| #[trigger]
        leaves.contains_key(p) ==> exists|i: int|
            0 <= i < commands.len() && #[trigger] commands[i].path == p
    &&& forall|i: int, j: int|
        0 <= i < j < commands.len() ==> #[trigger] commands[i].path != #[trigger] commands[j].path
}

/// What the store lists without a prefix is in line with it: a session that
/// starts on it starts in line with the store.
pub proof fn law_listing_in_sync(list: Seq<CommandView>, leaves: Leaves)
    requires
        is_listing(list, leaves, None),
    ensures
        in_sync(list, leaves),
{
    assert forall|i: int, j: int| 0 <= i < j < list.len() implies #[trigger] list[i].path
        != #[trigger] list[j].path by {
        lemma_lex_asymmetric(list[i].path, list[j].path);
    }
    assert forall|p: Seq<char>| #[trigger] leaves.contains_key(p) implies exists|i: int|
        0 <= i < list.len() && #[trigger] list[i].path == p by {
        assert(in_part(None, p));
    }
}

/// The first command at a path, where there is one.
pub proof fn lemma_first_at(commands: Seq<CommandView>, p: Seq<char>, from: int)
    requires
        0 <= from <= commands.len(),
    ensures
        from <= first_at(commands, p, from) <= commands.len(),
        first_at(commands, p, from) < commands.len() ==> commands[first_at(commands, p, from)].path
            == p,
        forall|i: int| from <= i < first_at(commands, p, from) ==> commands[i].path != p,
    decreases commands.len() - from,
{
    if from < commands.len() && commands[from].path != p {
        lemma_first_at(commands, p, from + 1);
    }
}

/// Confirming a form or a deletion keeps the commands of the session in
/// line with the store, whether the store takes the change or refuses it.
pub proof fn law_confirm_keeps_in_sync(
    app: AppView,
    store: StoreView,
    next: AppView,
    next_store: StoreView,
)
    requires
        app.wf(),
        store.well_formed(),
        app.confirmed(store, next, next_store),
        in_sync(app.commands, store.leaves),
    ensures
        in_sync(next.commands, next_store.leaves),
{
    let cmds = app.commands;
    let leaves = store.leaves;
    if app.mode == Mode::Add && !app.form_incomplete() {
        let c = app.form_record();
        if add_error(store, c, false) is None {
            let after = cmds.push(c);
            assert(next.commands == after);
            assert forall|i: int| 0 <= i < after.len() implies next_store.leaves.contains_key(
                #[trigger] after[i].path,
            ) && next_store.leaves[after[i].path] == after[i] by {
                if i < cmds.len() {
                    assert(leaves.contains_key(cmds[i].path));
                }
            }
            assert forall|p: Seq<char>| #[trigger]
                next_store.leaves.contains_key(p) implies exists|i: int|
                0 <= i < after.len() && #[trigger] after[i].path == p by {
                if p == c.path {
                    assert(after[cmds.len() as int].path == p);
                } else {
                    assert(leaves.contains_key(p));
                    let i = choose|i: int| 0 <= i < cmds.len() && #[trigger] cmds[i].path == p;
                    assert(after[i].path == p);
                }
            }
            assert forall|i: int, j: int| 0 <= i < j < after.len() implies #[trigger] after[i].path
                != #[trigger] after[j].path by {
                if j == cmds.len() {
                    assert(leaves.contains_key(cmds[i].path));
                } else {
                    assert(cmds[i].path != cmds[j].path);
                }
            }
        }
    } else if app.mode == Mode::Edit && !app.form_incomplete() {
        let p = app.editing_original_path->0;
        let c = app.form_record();
        if got(store, p) is Ok && add_error(removed(store, p), c, false) is None {
            lemma_first_at(cmds, p, 0);
            let w = choose|i: int| 0 <= i < cmds.len() && #[trigger] cmds[i].path == p;
            let k = first_at(cmds, p, 0);
            assert(k < cmds.len());
            let after = replaced(cmds, p, c);
            assert(after == cmds.update(k, c));
            assert(next.commands == after);
            let rest = leaves.remove(p);
            assert forall|i: int| 0 <= i < after.len() implies next_store.leaves.contains_key(
                #[trigger] after[i].path,
            ) && next_store.leaves[after[i].path] == after[i] by {
                if i != k {
                    assert(leaves.contains_key(cmds[i].path));
                    if i < k {
                        assert(cmds[i].path != cmds[k].path);
                    } else {
                        assert(cmds[k].path != cmds[i].path);
                    }
                    assert(rest.contains_key(cmds[i].path));
                }
            }
            assert forall|q: Seq<char>| #[trigger]
                next_store.leaves.contains_key(q) implies exists|i: int|
                0 <= i < after.len() && #[trigger] after[i].path == q by {
                if q == c.path {
                    assert(after[k].path == q);
                } else {
                    assert(leaves.contains_key(q));
                    let i = choose|i: int| 0 <= i < cmds.len() && #[trigger] cmds[i].path == q;
                    assert(i != k);
                    assert(after[i].path == q);
                }
            }
            assert forall|i: int, j: int| 0 <= i < j < after.len() implies #[trigger] after[i].path
                != #[trigger] after[j].path by {
                assert(cmds[i].path != cmds[j].path);
                if i == k {
                    assert(leaves.contains_key(cmds[j].path));
                    assert(rest.contains_key(cmds[j].path));
                } else if j == k {
                    assert(leaves.contains_key(cmds[i].path));
                    assert(rest.contains_key(cmds[i].path));
                }
            }
        }
    } else if app.mode == Mode::Delete && app.filtered.len() > 0 {
        let idx = app.filtered[app.selected as int].0 as int;
        let p = cmds[idx].path;
        assert(leaves.contains_key(cmds[idx].path));
        if remove_error(store, p) is None {
            let after = cmds.remove(idx);
            assert(next.commands == after);
            assert forall|i: int| 0 <= i < after.len() implies #[trigger] after[i] == cmds[if i
                < idx {
                i
            } else {
                i + 1
            }] by {}
            assert forall|i: int| 0 <= i < after.len() implies next_store.leaves.contains_key(
                #[trigger] after[i].path,
            ) && next_store.leaves[after[i].path] == after[i] by {
                let m = if i < idx {
                    i
                } else {
                    i + 1
                };
                assert(leaves.contains_key(cmds[m].path));
                if m < idx {
                    assert(cmds[m].path != cmds[idx].path);
                } else {
                    assert(cmds[idx].path != cmds[m].path);
                }
            }
            assert forall|q: Seq<char>| #[trigger]
                next_store.leaves.contains_key(q) implies exists|i: int|
                0 <= i < after.len() && #[trigger] after[i].path == q by {
                assert(leaves.contains_key(q));
                let m = choose|m: int| 0 <= m < cmds.len() && #[trigger] cmds[m].path == q;
                if m < idx {
                    assert(after[m].path == q);
                } else {
                    assert(after[m - 1].path == q);
                }
            }
            assert forall|i: int, j: int| 0 <= i < j < after.len() implies #[trigger] after[i].path
                != #[trigger] after[j].path by {
                let a = if i < idx {
                    i
                } else {
                    i + 1
                };
                let b = if j < idx {
                    j
                } else {
                    j + 1
                };
                assert(cmds[a].path != cmds[b].path);
            }
        }
    }
}

/// Only the list ends the session: a key pressed in a form, at the
/// question or in the help leaves the session running as it was, and its
/// result as it was.
pub proof fn law_only_the_list_ends_the_session(
    app: AppView,
    store: StoreView,
    key: Key,
    next: AppView,
    next_store: StoreView,
)
    requires
        app.wf(),
        app.mode != Mode::Normal,
        acted(app, store, binding(app.mode, key), next, next_store),
    ensures
        next.should_quit == app.should_quit,
        next.selected_command == app.selected_command,
{
}

/// The help changes nothing: a key pressed in the help leaves the store as
/// it is and the session as it is, but for the keys that hide the help,
/// which go back to the list.
pub proof fn law_help_changes_nothing(
    app: AppView,
    store: StoreView,
    key: Key,
    next: AppView,
    next_store: StoreView,
)
    requires
        app.mode == Mode::Help,
        acted(app, store, binding(app.mode, key), next, next_store),
    ensures
        next_store == store,
        next == app || next == (AppView { mode: Mode::Normal, ..app }),
{
}

/// A key keeps the list in step with the query: where the list showed what
/// the query finds among the commands before the key, it does so after it,
/// whatever the key did to the query, to the commands or to the store.
pub proof fn law_keys_keep_the_list_in_step(
    app: AppView,
    store: StoreView,
    key: Key,
    next: AppView,
    next_store: StoreView,
)
    requires
        app.wf(),
        app.in_step(),
        acted(app, store, binding(app.mode, key), next, next_store),
    ensures
        next.in_step(),
{
}

/// A key keeps the commands of the session in line with the store: where
/// they held the commands of the store before the key, they do so after it.
pub proof fn law_keys_keep_in_sync(
    app: AppView,
    store: StoreView,
    key: Key,
    next: AppView,
    next_store: StoreView,
)
    requires
        app.wf(),
        store.well_formed(),
        acted(app, store, binding(app.mode, key), next, next_store),
        in_sync(app.commands, store.leaves),
    ensures
        in_sync(next.commands, next_store.leaves),
{
    if binding(app.mode, key) == Action::Confirm {
        law_confirm_keeps_in_sync(app, store, next, next_store);
    }
}

} // verus!
