//! The command store: a tree of categories with commands at its leaves, kept
//! in memory together with the list of file operations that bring the
//! directory on disk in line with it.

use crate::command::{file_content, parsed, views, well_formatted, Command, CommandView};
use crate::config::{at_home, names_home, names_no_home, Config};
use crate::error::{CmdxError, ErrorView};
use crate::path::{
    in_scope, is_ancestor, is_ancestor_of, is_in_scope, is_valid_path, last_sep, parent_dir,
    valid_path,
};
use crate::text::{
    chars_eq, chars_lt, chars_of, lemma_lex_asymmetric, lemma_lex_total, lemma_lex_transitive,
    lex_lt, prefix_of, string_of, string_of_range,
};
use vstd::prelude::*;
use vstd::string::*;

verus! {

/// One operation on the directory that mirrors the store. Paths are relative
/// to the root of the store; the empty path is the root itself.
#[derive(Debug, Clone, PartialEq, Eq)]
pub enum FsOp {
    /// Create the directory and the directories above it that are missing.
    CreateDirAll(String),
    /// Write the file at the path, with the text.
    WriteFile(String, String),
    /// Remove the file.
    RemoveFile(String),
    /// Remove the directory, which is empty.
    RemoveDir(String),
    /// Move the file from the first path to the second.
    Rename(String, String),
}

/// A file operation, with its texts as sequences of characters.
pub enum FsOpView {
    CreateDirAll(Seq<char>),
    WriteFile(Seq<char>, Seq<char>),
    RemoveFile(Seq<char>),
    RemoveDir(Seq<char>),
    Rename(Seq<char>, Seq<char>),
}

impl View for FsOp {
    type V = FsOpView;

    open spec fn view(&self) -> FsOpView {
        match self {
            FsOp::CreateDirAll(d) => FsOpView::CreateDirAll(d@),
            FsOp::WriteFile(p, t) => FsOpView::WriteFile(p@, t@),
            FsOp::RemoveFile(p) => FsOpView::RemoveFile(p@),
            FsOp::RemoveDir(d) => FsOpView::RemoveDir(d@),
            FsOp::Rename(a, b) => FsOpView::Rename(a@, b@),
        }
    }
}

/// The views of a sequence of file operations, in the same order.
pub open spec fn op_views(s: Seq<FsOp>) -> Seq<FsOpView> {
    Seq::new(s.len(), |i: int| s[i]@)
}

/// The commands of a store, each under its path.
pub type Leaves = Map<Seq<char>, CommandView>;

/// Some command lies below the category `d`.
pub open spec fn has_leaf_under(leaves: Leaves, d: Seq<char>) -> bool {
    exists|q: Seq<char>| #[trigger] leaves.contains_key(q) && is_ancestor(d, q)
}

/// Some command lies at a category above `p`.
pub open spec fn has_leaf_above(leaves: Leaves, p: Seq<char>) -> bool {
    exists|q: Seq<char>| #[trigger] leaves.contains_key(q) && is_ancestor(q, p)
}

/// A new command can be stored at `p`: the path is valid, `p` is not a
/// category, and no command lies at a category above `p`.
pub open spec fn can_hold(leaves: Leaves, p: Seq<char>) -> bool {
    valid_path(p) && !has_leaf_under(leaves, p) && !has_leaf_above(leaves, p)
}

/// The shape of the tree: every command lies at a valid path, which it
/// records, and no command lies at a category above another.
pub open spec fn tree_shaped(leaves: Leaves) -> bool {
    &&& forall|p: Seq<char>| #[trigger]
        leaves.contains_key(p) ==> valid_path(p) && leaves[p].path == p
    &&& forall|p: Seq<char>, q: Seq<char>|
        leaves.contains_key(p) && leaves.contains_key(q) ==> !is_ancestor(p, q)
}

/// What a store holds.
pub struct StoreView {
    /// Where the store lies on disk.
    pub root: Seq<char>,
    /// Whether the root has been created.
    pub initialized: bool,
    /// The commands, each under its path.
    pub leaves: Leaves,
    /// The file operations not yet handed out.
    pub pending: Seq<FsOpView>,
}

impl StoreView {
    /// A store that has not been initialized holds nothing, and the commands
    /// of one that has been form a tree.
    pub open spec fn well_formed(self) -> bool {
        &&& tree_shaped(self.leaves)
        &&& !self.initialized ==> self.leaves == Map::<Seq<char>, CommandView>::empty()
    }
}

/// The file under which the store at `root` keeps the command at `path`.
pub open spec fn file_path(root: Seq<char>, path: Seq<char>) -> Seq<char> {
    root + seq!['/'] + path
}

/// The categories above `p[..upto]` that have become empty, the deepest
/// first: the walk goes upward from `p` and ends at the first category that
/// still holds a command.
pub open spec fn pruned_from(leaves: Leaves, p: Seq<char>, upto: int) -> Seq<Seq<char>>
    decreases upto,
{
    if upto <= 0 {
        Seq::empty()
    } else if p[upto - 1] != '/' {
        pruned_from(leaves, p, upto - 1)
    } else if has_leaf_under(leaves, p.subrange(0, upto - 1)) {
        Seq::empty()
    } else {
        seq![p.subrange(0, upto - 1)] + pruned_from(leaves, p, upto - 1)
    }
}

/// The categories above `p` that are empty in `leaves`, the deepest first.
pub open spec fn pruned(leaves: Leaves, p: Seq<char>) -> Seq<Seq<char>> {
    pruned_from(leaves, p, p.len() as int)
}

/// The operations that remove the directories `dirs`, in that order.
pub open spec fn remove_dirs(dirs: Seq<Seq<char>>) -> Seq<FsOpView> {
    Seq::new(dirs.len(), |i: int| FsOpView::RemoveDir(dirs[i]))
}

/// The file operations of storing `c`.
pub open spec fn add_ops(c: CommandView) -> Seq<FsOpView> {
    seq![FsOpView::CreateDirAll(parent_dir(c.path)), FsOpView::WriteFile(c.path, file_content(c))]
}

/// The file operations of removing the command at `p`, which leaves `after`.
pub open spec fn remove_ops(after: Leaves, p: Seq<char>) -> Seq<FsOpView> {
    seq![FsOpView::RemoveFile(p)] + remove_dirs(pruned(after, p))
}

/// The file operations of moving the command at `src` to `dst`, which
/// leaves `after`.
pub open spec fn rename_ops(after: Leaves, src: Seq<char>, dst: Seq<char>) -> Seq<FsOpView> {
    seq![FsOpView::CreateDirAll(parent_dir(dst)), FsOpView::Rename(src, dst)] + remove_dirs(
        pruned(after, src),
    )
}

/// `c` stored under the path `p`.
pub open spec fn moved_to(c: CommandView, p: Seq<char>) -> CommandView {
    CommandView { path: p, command: c.command, explanation: c.explanation }
}

/// Why `add` fails, if it does.
pub open spec fn add_error(s: StoreView, c: CommandView, overwrite: bool) -> Option<ErrorView> {
    if !s.initialized {
        Some(ErrorView::NotInitialized)
    } else if s.leaves.contains_key(c.path) {
        if overwrite {
            None
        } else {
            Some(ErrorView::AlreadyExists(file_path(s.root, c.path)))
        }
    } else if !can_hold(s.leaves, c.path) {
        Some(ErrorView::InvalidPath(c.path))
    } else {
        None
    }
}

/// The store after a successful `add`.
pub open spec fn added(s: StoreView, c: CommandView) -> StoreView {
    StoreView {
        root: s.root,
        initialized: s.initialized,
        leaves: s.leaves.insert(c.path, c),
        pending: s.pending + add_ops(c),
    }
}

/// The store after `add`, which changes nothing where it fails.
pub open spec fn after_add(s: StoreView, c: CommandView, overwrite: bool) -> StoreView {
    if add_error(s, c, overwrite) is Some {
        s
    } else {
        added(s, c)
    }
}

/// A call that fails with the error `e`, if there is one, and succeeds if
/// there is none, returns `r`.
pub open spec fn outcome(r: Result<(), CmdxError>, e: Option<ErrorView>) -> bool {
    match e {
        Some(e) => r is Err && r->Err_0@ == e,
        None => r is Ok,
    }
}

/// Why `remove` fails, if it does.
pub open spec fn remove_error(s: StoreView, p: Seq<char>) -> Option<ErrorView> {
    if !s.initialized {
        Some(ErrorView::NotInitialized)
    } else if !s.leaves.contains_key(p) {
        Some(ErrorView::NotFound(p))
    } else {
        None
    }
}

/// The store after a successful `remove`.
pub open spec fn removed(s: StoreView, p: Seq<char>) -> StoreView {
    StoreView {
        root: s.root,
        initialized: s.initialized,
        leaves: s.leaves.remove(p),
        pending: s.pending + remove_ops(s.leaves.remove(p), p),
    }
}

/// The store after `remove`, which changes nothing where it fails.
pub open spec fn after_remove(s: StoreView, p: Seq<char>) -> StoreView {
    if remove_error(s, p) is Some {
        s
    } else {
        removed(s, p)
    }
}

/// Why `rename` fails, if it does.
pub open spec fn rename_error(s: StoreView, src: Seq<char>, dst: Seq<char>) -> Option<ErrorView> {
    if !s.initialized {
        Some(ErrorView::NotInitialized)
    } else if !s.leaves.contains_key(src) {
        Some(ErrorView::NotFound(src))
    } else if s.leaves.contains_key(dst) {
        Some(ErrorView::AlreadyExists(file_path(s.root, dst)))
    } else if !can_hold(s.leaves.remove(src), dst) {
        Some(ErrorView::InvalidPath(dst))
    } else {
        None
    }
}

/// The store after a successful `rename`.
pub open spec fn renamed(s: StoreView, src: Seq<char>, dst: Seq<char>) -> StoreView {
    let after = s.leaves.remove(src).insert(dst, moved_to(s.leaves[src], dst));
    StoreView {
        root: s.root,
        initialized: s.initialized,
        leaves: after,
        pending: s.pending + rename_ops(after, src, dst),
    }
}

/// The store after `rename`, which changes nothing where it fails.
pub open spec fn after_rename(s: StoreView, src: Seq<char>, dst: Seq<char>) -> StoreView {
    if rename_error(s, src, dst) is Some {
        s
    } else {
        renamed(s, src, dst)
    }
}

/// What `get` returns.
pub open spec fn got(s: StoreView, p: Seq<char>) -> Result<CommandView, ErrorView> {
    if !s.initialized {
        Err(ErrorView::NotInitialized)
    } else if !s.leaves.contains_key(p) {
        Err(ErrorView::NotFound(p))
    } else {
        Ok(s.leaves[p])
    }
}

/// The paths of `list` come in strictly ascending order.
pub open spec fn ascending(list: Seq<CommandView>) -> bool {
    forall|i: int, j: int| 0 <= i < j < list.len() ==> lex_lt(list[i].path, list[j].path)
}

/// `p` lies in the part of the tree that a listing with `prefix` shows: the
/// whole tree without a prefix, else what `prefix` names.
pub open spec fn in_part(prefix: Option<Seq<char>>, p: Seq<char>) -> bool {
    prefix is Some ==> in_scope(prefix->0, p)
}

/// `list` holds the commands of `leaves` that lie in the part of the tree
/// that `prefix` names, all of them and no others, in ascending order of
/// their paths. Without a prefix that part is the whole tree.
pub open spec fn is_listing(list: Seq<CommandView>, leaves: Leaves, prefix: Option<Seq<char>>) -> bool {
    &&& ascending(list)
    &&& forall|i: int|
        0 <= i < list.len() ==> leaves.contains_key(#[trigger] list[i].path) && leaves[list[i].path]
            == list[i] && in_part(prefix, list[i].path)
    &&& forall|p: Seq<char>| #[trigger]
        leaves.contains_key(p) && in_part(prefix, p) ==> exists|i: int|
            0 <= i < list.len() && #[trigger] list[i].path == p
}

/// The command at place `i` of `recs` lies at the path `p`.
pub open spec fn holds_at(recs: Seq<Command>, i: int, p: Seq<char>) -> bool {
    0 <= i < recs.len() && recs[i].path@ == p
}

/// The paths of `recs` come in strictly ascending order.
pub open spec fn sorted(recs: Seq<Command>) -> bool {
    forall|i: int, j: int| 0 <= i < j < recs.len() ==> lex_lt(recs[i].path@, recs[j].path@)
}

/// `recs` holds the commands of `leaves`, all of them and no others.
pub open spec fn represents(recs: Seq<Command>, leaves: Leaves) -> bool {
    &&& forall|i: int|
        0 <= i < recs.len() ==> leaves.contains_key(#[trigger] recs[i].path@)
            && leaves[recs[i].path@] == recs[i]@
    &&& forall|p: Seq<char>| #[trigger]
        leaves.contains_key(p) ==> exists|i: int| holds_at(recs, i, p)
}

/// A command of `recs`, other than the one at `skip`, lies below `d`.
pub open spec fn rec_under(recs: Seq<Command>, skip: int, d: Seq<char>) -> bool {
    exists|i: int| 0 <= i < recs.len() && i != skip && is_ancestor(d, #[trigger] recs[i].path@)
}

/// A command of `recs`, other than the one at `skip`, lies above `p`.
pub open spec fn rec_above(recs: Seq<Command>, skip: int, p: Seq<char>) -> bool {
    exists|i: int| 0 <= i < recs.len() && i != skip && is_ancestor(#[trigger] recs[i].path@, p)
}

/// In a sorted sequence no two commands share a path.
pub proof fn lemma_sorted_distinct(recs: Seq<Command>, i: int, j: int)
    requires
        sorted(recs),
        0 <= i < recs.len(),
        0 <= j < recs.len(),
        recs[i].path@ == recs[j].path@,
    ensures
        i == j,
{
    if i < j {
        lemma_lex_asymmetric(recs[i].path@, recs[j].path@);
    } else if j < i {
        lemma_lex_asymmetric(recs[j].path@, recs[i].path@);
    }
}

/// The leaves without the command at `skip`, or all of them where `skip` is
/// no place of `recs`.
pub open spec fn leaves_without(recs: Seq<Command>, leaves: Leaves, skip: int) -> Leaves {
    if 0 <= skip < recs.len() {
        leaves.remove(recs[skip].path@)
    } else {
        leaves
    }
}

pub proof fn lemma_rec_under(recs: Seq<Command>, leaves: Leaves, skip: int, d: Seq<char>)
    requires
        sorted(recs),
        represents(recs, leaves),
    ensures
        rec_under(recs, skip, d) == has_leaf_under(leaves_without(recs, leaves, skip), d),
{
    let rest = leaves_without(recs, leaves, skip);
    if rec_under(recs, skip, d) {
        let i = choose|i: int|
            0 <= i < recs.len() && i != skip && is_ancestor(d, #[trigger] recs[i].path@);
        if 0 <= skip < recs.len() && recs[i].path@ == recs[skip].path@ {
            lemma_sorted_distinct(recs, i, skip);
        }
        assert(rest.contains_key(recs[i].path@));
    }
    if has_leaf_under(rest, d) {
        let q = choose|q: Seq<char>| #[trigger] rest.contains_key(q) && is_ancestor(d, q);
        assert(leaves.contains_key(q));
        let i = choose|i: int| holds_at(recs, i, q);
        assert(is_ancestor(d, recs[i].path@));
    }
}

pub proof fn lemma_rec_above(recs: Seq<Command>, leaves: Leaves, skip: int, p: Seq<char>)
    requires
        sorted(recs),
        represents(recs, leaves),
    ensures
        rec_above(recs, skip, p) == has_leaf_above(leaves_without(recs, leaves, skip), p),
{
    let rest = leaves_without(recs, leaves, skip);
    if rec_above(recs, skip, p) {
        let i = choose|i: int|
            0 <= i < recs.len() && i != skip && is_ancestor(#[trigger] recs[i].path@, p);
        if 0 <= skip < recs.len() && recs[i].path@ == recs[skip].path@ {
            lemma_sorted_distinct(recs, i, skip);
        }
        assert(rest.contains_key(recs[i].path@));
    }
    if has_leaf_above(rest, p) {
        let q = choose|q: Seq<char>| #[trigger] rest.contains_key(q) && is_ancestor(q, p);
        assert(leaves.contains_key(q));
        let i = choose|i: int| holds_at(recs, i, q);
        assert(is_ancestor(recs[i].path@, p));
    }
}

/// What the store keeps: its commands in ascending order of their paths,
/// and in `journal` the file operations of the changes made.
struct Ledger {
    root: String,
    initialized: bool,
    records: Vec<Command>,
    journal: Vec<FsOp>,
    leaves: Ghost<Leaves>,
}

impl View for Ledger {
    type V = StoreView;

    closed spec fn view(&self) -> StoreView {
        StoreView {
            root: self.root@,
            initialized: self.initialized,
            leaves: self.leaves@,
            pending: op_views(self.journal@),
        }
    }
}

impl Ledger {
    /// The store's invariant: what it holds is well formed, and its commands
    /// are kept in order.
    closed spec fn wf(&self) -> bool {
        &&& self@.well_formed()
        &&& sorted(self.records@)
        &&& represents(self.records@, self.leaves@)
    }

    /// What a store that meets its invariant holds is well formed.
    proof fn lemma_well_formed(&self)
        requires
            self.wf(),
        ensures
            self@.well_formed(),
    {
    }

    /// An empty store at `root` that has not been initialized.
    fn with_root(root: &str) -> (r: Self)
        ensures
            r.wf(),
            r@ == (StoreView {
                root: root@,
                initialized: false,
                leaves: Map::<Seq<char>, CommandView>::empty(),
                pending: Seq::<FsOpView>::empty(),
            }),
    {
        let r = Ledger {
            root: String::from_str(root),
            initialized: false,
            records: Vec::new(),
            journal: Vec::new(),
            leaves: Ghost(Map::empty()),
        };
        assert(op_views(r.journal@) =~= Seq::<FsOpView>::empty());
        r
    }

    /// Where the store lies on disk.
    fn root(&self) -> (r: &str)
        ensures
            r@ == self@.root,
    {
        self.root.as_str()
    }

    /// Whether the root has been created.
    fn is_initialized(&self) -> (r: bool)
        ensures
            r == self@.initialized,
    {
        self.initialized
    }

    /// The file under which the store keeps the command at `path`.
    fn command_path(&self, path: &str) -> (r: String)
        ensures
            r@ == file_path(self@.root, path@),
    {
        let mut out = self.root.clone();
        out.push('/');
        out.append(path);
        out
    }

    /// Adds `op` to the journal.
    fn log(&mut self, op: FsOp)
        requires
            old(self).wf(),
        ensures
            final(self).wf(),
            final(self)@ == (StoreView { pending: old(self)@.pending.push(op@), ..old(self)@ }),
    {
        self.journal.push(op);
        assert(op_views(self.journal@) =~= op_views(old(self).journal@).push(op@));
    }

    /// Hands out the file operations collected so far, the oldest first, and
    /// empties the journal.
    fn take_journal(&mut self) -> (r: Vec<FsOp>)
        requires
            old(self).wf(),
        ensures
            final(self).wf(),
            op_views(r@) == old(self)@.pending,
            final(self)@ == (StoreView { pending: Seq::<FsOpView>::empty(), ..old(self)@ }),
    {
        let mut out: Vec<FsOp> = Vec::new();
        std::mem::swap(&mut out, &mut self.journal);
        assert(op_views(self.journal@) =~= Seq::<FsOpView>::empty());
        out
    }

    /// Where `key` lies among the commands, or would lie, and whether it is
    /// there.
    fn locate(&self, key: &Vec<char>) -> (r: (usize, bool))
        requires
            self.wf(),
        ensures
            r.0 <= self.records@.len(),
            r.1 == self@.leaves.contains_key(key@),
            r.1 ==> holds_at(self.records@, r.0 as int, key@),
            forall|j: int| 0 <= j < r.0 ==> lex_lt(self.records@[j].path@, key@),
            !r.1 && r.0 < self.records@.len() ==> lex_lt(key@, self.records@[r.0 as int].path@),
    {
        let mut i: usize = 0;
        while i < self.records.len()
            invariant
                self.wf(),
                i <= self.records@.len(),
                forall|j: int| 0 <= j < i ==> lex_lt(self.records@[j].path@, key@),
            decreases self.records@.len() - i,
        {
            let p = chars_of(self.records[i].path.as_str());
            if chars_eq(&p, key) {
                return (i, true);
            }
            if chars_lt(key, &p) {
                proof {
                    if self.leaves@.contains_key(key@) {
                        let k = choose|k: int| holds_at(self.records@, k, key@);
                        if k < i {
                            lemma_lex_asymmetric(self.records@[k].path@, key@);
                        } else if k > i {
                            lemma_lex_asymmetric(key@, p@);
                            lemma_lex_asymmetric(self.records@[i as int].path@, self.records@[k].path@);
                            lemma_lex_transitive(key@, p@, self.records@[k].path@);
                        }
                    }
                }
                return (i, false);
            }
            proof {
                lemma_lex_total(p@, key@);
            }
            i += 1;
        }
        proof {
            if self.leaves@.contains_key(key@) {
                let k = choose|k: int| holds_at(self.records@, k, key@);
                lemma_lex_asymmetric(self.records@[k].path@, key@);
            }
        }
        (i, false)
    }

    /// Whether a command other than the one at `skip` lies below `d`.
    fn any_under(&self, d: &Vec<char>, skip: usize) -> (r: bool)
        requires
            self.wf(),
        ensures
            r == has_leaf_under(leaves_without(self.records@, self@.leaves, skip as int), d@),
    {
        let mut i: usize = 0;
        while i < self.records.len()
            invariant
                self.wf(),
                i <= self.records@.len(),
                forall|j: int|
                    0 <= j < i && j != skip ==> !is_ancestor(d@, #[trigger] self.records@[j].path@),
            decreases self.records@.len() - i,
        {
            if i != skip {
                let p = chars_of(self.records[i].path.as_str());
                if is_ancestor_of(d, &p) {
                    proof {
                        lemma_rec_under(self.records@, self.leaves@, skip as int, d@);
                    }
                    return true;
                }
            }
            i += 1;
        }
        proof {
            lemma_rec_under(self.records@, self.leaves@, skip as int, d@);
        }
        false
    }

    /// Whether a command other than the one at `skip` lies above `p`.
    fn any_above(&self, p: &Vec<char>, skip: usize) -> (r: bool)
        requires
            self.wf(),
        ensures
            r == has_leaf_above(leaves_without(self.records@, self@.leaves, skip as int), p@),
    {
        let mut i: usize = 0;
        while i < self.records.len()
            invariant
                self.wf(),
                i <= self.records@.len(),
                forall|j: int|
                    0 <= j < i && j != skip ==> !is_ancestor(#[trigger] self.records@[j].path@, p@),
            decreases self.records@.len() - i,
        {
            if i != skip {
                let q = chars_of(self.records[i].path.as_str());
                if is_ancestor_of(&q, p) {
                    proof {
                        lemma_rec_above(self.records@, self.leaves@, skip as int, p@);
                    }
                    return true;
                }
            }
            i += 1;
        }
        proof {
            lemma_rec_above(self.records@, self.leaves@, skip as int, p@);
        }
        false
    }

    /// Whether a new command can be stored at `p` once the command at `skip`
    /// has left.
    fn fits(&self, p: &Vec<char>, skip: usize) -> (r: bool)
        requires
            self.wf(),
        ensures
            r == can_hold(leaves_without(self.records@, self@.leaves, skip as int), p@),
    {
        is_valid_path(p) && !self.any_under(p, skip) && !self.any_above(p, skip)
    }

    /// Puts `cmd`, whose path is free, at its place `i` among the commands.
    fn insert_at(&mut self, i: usize, cmd: Command)
        requires
            old(self).wf(),
            old(self)@.initialized,
            i <= old(self).records@.len(),
            forall|j: int| 0 <= j < i ==> lex_lt(old(self).records@[j].path@, cmd.path@),
            i < old(self).records@.len() ==> lex_lt(cmd.path@, old(self).records@[i as int].path@),
            !old(self)@.leaves.contains_key(cmd.path@),
            can_hold(old(self)@.leaves, cmd.path@),
        ensures
            final(self).wf(),
            final(self)@ == (StoreView {
                leaves: old(self)@.leaves.insert(cmd.path@, cmd@),
                ..old(self)@
            }),
    {
        let ghost before = self.records@;
        let ghost old_leaves = self.leaves@;
        let ghost key = cmd.path@;
        let ghost c = cmd@;
        self.records.insert(i, cmd);
        self.leaves = Ghost(old_leaves.insert(key, c));
        proof {
            let after = self.records@;
            let new_leaves = self.leaves@;
            assert(after.len() == before.len() + 1);
            assert(after[i as int]@ == c);
            assert forall|a: int| 0 <= a < after.len() && a < i implies after[a] == before[a] by {}
            assert forall|a: int| i < a < after.len() implies after[a] == before[a - 1] by {}
            assert forall|a: int, b: int| 0 <= a < b < after.len() implies lex_lt(
                after[a].path@,
                after[b].path@,
            ) by {
                if b < i {
                } else if b == i {
                } else if a == i {
                    if b - 1 > i {
                        lemma_lex_transitive(key, before[i as int].path@, before[b - 1].path@);
                    }
                } else if a < i {
                    if b - 1 > i {
                        lemma_lex_transitive(key, before[i as int].path@, before[b - 1].path@);
                    }
                    lemma_lex_transitive(before[a].path@, key, before[b - 1].path@);
                } else {
                }
            }
            assert forall|a: int| 0 <= a < after.len() implies new_leaves.contains_key(
                #[trigger] after[a].path@,
            ) && new_leaves[after[a].path@] == after[a]@ by {
                if a < i {
                    assert(old_leaves.contains_key(before[a].path@));
                } else if a > i {
                    assert(old_leaves.contains_key(before[a - 1].path@));
                }
            }
            assert forall|q: Seq<char>| #[trigger] new_leaves.contains_key(q) implies exists|a: int|
                holds_at(after, a, q) by {
                if q == key {
                    assert(holds_at(after, i as int, q));
                } else {
                    assert(old_leaves.contains_key(q));
                    let k = choose|k: int| holds_at(before, k, q);
                    if k < i {
                        assert(holds_at(after, k, q));
                    } else {
                        assert(holds_at(after, k + 1, q));
                    }
                }
            }
            assert(tree_shaped(new_leaves)) by {
                assert forall|x: Seq<char>, y: Seq<char>|
                    new_leaves.contains_key(x) && new_leaves.contains_key(y) implies !is_ancestor(
                    x,
                    y,
                ) by {
                    if is_ancestor(x, y) {
                        if x == key {
                            assert(old_leaves.contains_key(y));
                        } else if y == key {
                            assert(old_leaves.contains_key(x));
                        }
                    }
                }
            }
            assert(self@.leaves =~= old(self)@.leaves.insert(key, c));
        }
    }

    /// Puts `cmd` in the place of the command at `i`, which has the same path.
    fn replace_at(&mut self, i: usize, cmd: Command)
        requires
            old(self).wf(),
            holds_at(old(self).records@, i as int, cmd.path@),
        ensures
            final(self).wf(),
            final(self)@ == (StoreView {
                leaves: old(self)@.leaves.insert(cmd.path@, cmd@),
                ..old(self)@
            }),
    {
        let ghost before = self.records@;
        let ghost old_leaves = self.leaves@;
        let ghost key = cmd.path@;
        let ghost c = cmd@;
        self.records.set(i, cmd);
        self.leaves = Ghost(old_leaves.insert(key, c));
        proof {
            let after = self.records@;
            let new_leaves = self.leaves@;
            assert(old_leaves.contains_key(key));
            assert forall|a: int| 0 <= a < after.len() implies after[a].path@ == before[a].path@ by {}
            assert forall|a: int| 0 <= a < after.len() implies new_leaves.contains_key(
                #[trigger] after[a].path@,
            ) && new_leaves[after[a].path@] == after[a]@ by {
                if a != i {
                    assert(old_leaves.contains_key(before[a].path@));
                    if before[a].path@ == key {
                        lemma_sorted_distinct(before, a, i as int);
                    }
                }
            }
            assert forall|q: Seq<char>| #[trigger] new_leaves.contains_key(q) implies exists|a: int|
                holds_at(after, a, q) by {
                assert(old_leaves.contains_key(q));
                let k = choose|k: int| holds_at(before, k, q);
                assert(holds_at(after, k, q));
            }
            assert(tree_shaped(new_leaves)) by {
                assert forall|x: Seq<char>, y: Seq<char>|
                    new_leaves.contains_key(x) && new_leaves.contains_key(y) implies !is_ancestor(
                    x,
                    y,
                ) by {
                    assert(old_leaves.contains_key(x) && old_leaves.contains_key(y));
                }
            }
            assert(self@.leaves =~= old(self)@.leaves.insert(key, c));
        }
    }

    /// Takes the command at `i` out of the store.
    fn remove_at(&mut self, i: usize) -> (r: Command)
        requires
            old(self).wf(),
            i < old(self).records@.len(),
        ensures
            final(self).wf(),
            r == old(self).records@[i as int],
            final(self)@ == (StoreView {
                leaves: old(self)@.leaves.remove(r.path@),
                ..old(self)@
            }),
    {
        let ghost before = self.records@;
        let ghost old_leaves = self.leaves@;
        let r = self.records.remove(i);
        let ghost key = r.path@;
        self.leaves = Ghost(old_leaves.remove(key));
        proof {
            let after = self.records@;
            let new_leaves = self.leaves@;
            assert(after.len() == before.len() - 1);
            assert forall|a: int| 0 <= a < after.len() && a < i implies after[a] == before[a] by {}
            assert forall|a: int| i <= a < after.len() implies after[a] == before[a + 1] by {}
            assert forall|a: int| 0 <= a < after.len() implies new_leaves.contains_key(
                #[trigger] after[a].path@,
            ) && new_leaves[after[a].path@] == after[a]@ by {
                let k = if a < i {
                    a
                } else {
                    a + 1
                };
                assert(old_leaves.contains_key(before[k].path@));
                if before[k].path@ == key {
                    lemma_sorted_distinct(before, k, i as int);
                }
            }
            assert forall|q: Seq<char>| #[trigger] new_leaves.contains_key(q) implies exists|a: int|
                holds_at(after, a, q) by {
                assert(old_leaves.contains_key(q));
                let k = choose|k: int| holds_at(before, k, q);
                if k < i {
                    assert(holds_at(after, k, q));
                } else {
                    assert(holds_at(after, k - 1, q));
                }
            }
            assert(tree_shaped(new_leaves)) by {
                assert forall|x: Seq<char>, y: Seq<char>|
                    new_leaves.contains_key(x) && new_leaves.contains_key(y) implies !is_ancestor(
                    x,
                    y,
                ) by {
                    assert(old_leaves.contains_key(x) && old_leaves.contains_key(y));
                }
            }
            assert(self@.leaves =~= old(self)@.leaves.remove(key));
        }
        r
    }

    /// Logs the removal of the categories above `p` that hold no command.
    fn log_pruned(&mut self, p: &Vec<char>)
        requires
            old(self).wf(),
        ensures
            final(self).wf(),
            final(self)@ == (StoreView {
                pending: old(self)@.pending + remove_dirs(pruned(old(self)@.leaves, p@)),
                ..old(self)@
            }),
    {
        let ghost start = self@;
        let ghost mut acc: Seq<Seq<char>> = Seq::empty();
        let mut i: usize = p.len();
        let mut open = true;
        proof {
            assert(start.pending + remove_dirs(acc) =~= start.pending);
            assert(acc + pruned_from(start.leaves, p@, i as int) =~= pruned(start.leaves, p@));
        }
        while open && i > 0
            invariant
                self.wf(),
                i <= p.len(),
                self@ == (StoreView { pending: start.pending + remove_dirs(acc), ..start }),
                pruned(start.leaves, p@) == acc + (if open {
                    pruned_from(start.leaves, p@, i as int)
                } else {
                    Seq::empty()
                }),
            decreases i + (if open { 1int } else { 0int }),
        {
            if p[i - 1] != '/' {
                i -= 1;
            } else {
                let d = prefix_of(p, i - 1);
                let n = self.records.len();
                if self.any_under(&d, n) {
                    open = false;
                } else {
                    self.log(FsOp::RemoveDir(string_of(&d)));
                    proof {
                        let next = acc.push(d@);
                        assert(remove_dirs(next) =~= remove_dirs(acc).push(FsOpView::RemoveDir(d@)));
                        assert(start.pending + remove_dirs(next) =~= (start.pending + remove_dirs(
                            acc,
                        )).push(FsOpView::RemoveDir(d@)));
                        assert(acc + (seq![d@] + pruned_from(start.leaves, p@, i - 1)) =~= next
                            + pruned_from(start.leaves, p@, i - 1));
                        acc = next;
                    }
                    i -= 1;
                }
            }
        }
        proof {
            assert(acc + Seq::<Seq<char>>::empty() =~= acc);
        }
    }

    /// Creates the root. Does nothing where it is there already.
    fn init(&mut self) -> (r: Result<(), CmdxError>)
        requires
            old(self).wf(),
        ensures
            final(self).wf(),
            r is Ok,
            old(self)@.initialized ==> final(self)@ == old(self)@,
            !old(self)@.initialized ==> final(self)@ == (StoreView {
                initialized: true,
                pending: old(self)@.pending.push(FsOpView::CreateDirAll(Seq::empty())),
                ..old(self)@
            }),
    {
        if !self.initialized {
            self.initialized = true;
            self.log(FsOp::CreateDirAll(String::new()));
        }
        Ok(())
    }

    /// The command stored at `path`.
    fn get(&self, path: &str) -> (r: Result<Command, CmdxError>)
        requires
            self.wf(),
        ensures
            match got(self@, path@) {
                Ok(c) => r is Ok && r->Ok_0@ == c,
                Err(e) => r is Err && r->Err_0@ == e,
            },
    {
        if !self.initialized {
            return Err(CmdxError::NotInitialized);
        }
        let key = chars_of(path);
        let (i, found) = self.locate(&key);
        if !found {
            return Err(CmdxError::NotFound(String::from_str(path)));
        }
        Ok(self.records[i].duplicate())
    }

    /// Stores `cmd` under its path. Where a command lies there already it is
    /// replaced if `overwrite` is set, and the call fails with
    /// `AlreadyExists` if not. A path that is not valid, that names a
    /// category, or that lies below a command is refused with `InvalidPath`.
    /// A failed call changes nothing.
    fn add(&mut self, cmd: &Command, overwrite: bool) -> (r: Result<(), CmdxError>)
        requires
            old(self).wf(),
        ensures
            final(self).wf(),
            outcome(r, add_error(old(self)@, cmd@, overwrite)),
            final(self)@ == after_add(old(self)@, cmd@, overwrite),
    {
        if !self.initialized {
            return Err(CmdxError::NotInitialized);
        }
        let key = chars_of(cmd.path.as_str());
        let (i, found) = self.locate(&key);
        if found {
            if !overwrite {
                return Err(CmdxError::AlreadyExists(self.command_path(cmd.path.as_str())));
            }
            self.replace_at(i, cmd.duplicate());
        } else {
            let n = self.records.len();
            if !self.fits(&key, n) {
                return Err(CmdxError::InvalidPath(cmd.path.clone()));
            }
            self.insert_at(i, cmd.duplicate());
        }
        self.log(FsOp::CreateDirAll(parent_of(&key)));
        self.log(FsOp::WriteFile(cmd.path.clone(), cmd.to_file_content()));
        proof {
            assert(old(self)@.pending.push(FsOpView::CreateDirAll(parent_dir(key@))).push(
                FsOpView::WriteFile(key@, file_content(cmd@)),
            ) =~= old(self)@.pending + add_ops(cmd@));
        }
        Ok(())
    }

    /// Removes the command at `path`, and with it the categories above it
    /// that hold no other command. Fails with `NotFound` where no command
    /// lies at `path`; a failed call changes nothing.
    fn remove(&mut self, path: &str) -> (r: Result<(), CmdxError>)
        requires
            old(self).wf(),
        ensures
            final(self).wf(),
            outcome(r, remove_error(old(self)@, path@)),
            final(self)@ == after_remove(old(self)@, path@),
    {
        if !self.initialized {
            return Err(CmdxError::NotInitialized);
        }
        let key = chars_of(path);
        let (i, found) = self.locate(&key);
        if !found {
            return Err(CmdxError::NotFound(String::from_str(path)));
        }
        let _ = self.remove_at(i);
        self.log(FsOp::RemoveFile(String::from_str(path)));
        self.log_pruned(&key);
        proof {
            let after = old(self)@.leaves.remove(key@);
            assert(old(self)@.pending.push(FsOpView::RemoveFile(key@)) + remove_dirs(
                pruned(after, key@),
            ) =~= old(self)@.pending + remove_ops(after, key@));
        }
        Ok(())
    }

    /// Moves the command at `src` to `dst`. Fails with `NotFound` where no
    /// command lies at `src`, with `AlreadyExists` where one lies at `dst`,
    /// and with `InvalidPath` where `dst` could not hold a command once `src`
    /// has left; a failed call changes nothing.
    fn rename(&mut self, src: &str, dst: &str) -> (r: Result<(), CmdxError>)
        requires
            old(self).wf(),
        ensures
            final(self).wf(),
            outcome(r, rename_error(old(self)@, src@, dst@)),
            final(self)@ == after_rename(old(self)@, src@, dst@),
    {
        if !self.initialized {
            return Err(CmdxError::NotInitialized);
        }
        let skey = chars_of(src);
        let (i, found) = self.locate(&skey);
        if !found {
            return Err(CmdxError::NotFound(String::from_str(src)));
        }
        let dkey = chars_of(dst);
        let (_, taken) = self.locate(&dkey);
        if taken {
            return Err(CmdxError::AlreadyExists(self.command_path(dst)));
        }
        if !self.fits(&dkey, i) {
            return Err(CmdxError::InvalidPath(String::from_str(dst)));
        }
        let rec = self.remove_at(i);
        let moved = Command {
            path: String::from_str(dst),
            command: rec.command,
            explanation: rec.explanation,
        };
        let (j, _) = self.locate(&dkey);
        self.insert_at(j, moved);
        self.log(FsOp::CreateDirAll(parent_of(&dkey)));
        self.log(FsOp::Rename(String::from_str(src), String::from_str(dst)));
        self.log_pruned(&skey);
        proof {
            let after = old(self)@.leaves.remove(skey@).insert(
                dkey@,
                moved_to(old(self)@.leaves[skey@], dkey@),
            );
            assert(self@.leaves == after);
            assert(old(self)@.pending.push(FsOpView::CreateDirAll(parent_dir(dkey@))).push(
                FsOpView::Rename(skey@, dkey@),
            ) + remove_dirs(pruned(after, skey@)) =~= old(self)@.pending + rename_ops(
                after,
                skey@,
                dkey@,
            ));
        }
        Ok(())
    }
}

/// The category that holds `p`, as a string.
pub fn parent_of(p: &Vec<char>) -> (r: String)
    ensures
        r@ == parent_dir(p@),
{
    let mut i: usize = p.len();
    while i > 0 && p[i - 1] != '/'
        invariant
            i <= p.len(),
            last_sep(p@, p@.len() as int) == last_sep(p@, i as int),
        decreases i,
    {
        i -= 1;
    }
    if i == 0 {
        String::new()
    } else {
        string_of_range(p, 0, i - 1)
    }
}

/// The prefix of a listing as a sequence of characters.
pub open spec fn prefix_view(prefix: Option<&str>) -> Option<Seq<char>> {
    match prefix {
        Some(p) => Some(p@),
        None => None,
    }
}

/// `paths` holds the paths of the commands of `leaves`, all of them and no
/// others, in ascending order.
pub open spec fn is_path_listing(paths: Seq<Seq<char>>, leaves: Leaves) -> bool {
    &&& forall|i: int, j: int| 0 <= i < j < paths.len() ==> lex_lt(paths[i], paths[j])
    &&& forall|i: int| 0 <= i < paths.len() ==> leaves.contains_key(#[trigger] paths[i])
    &&& forall|p: Seq<char>| #[trigger]
        leaves.contains_key(p) ==> exists|i: int| 0 <= i < paths.len() && #[trigger] paths[i] == p
}

/// The views of a sequence of strings, in the same order.
pub open spec fn string_views(s: Seq<String>) -> Seq<Seq<char>> {
    Seq::new(s.len(), |i: int| s[i]@)
}

/// Files read from disk, each as its path below the root and its text.
pub open spec fn file_views(s: Seq<(String, String)>) -> Seq<(Seq<char>, Seq<char>)> {
    Seq::new(s.len(), |i: int| (s[i].0@, s[i].1@))
}

/// The leaves after taking in one file: the command that it holds is added
/// where the text holds one and the path is free and can hold one; else
/// the file is passed over.
pub open spec fn taken_in(leaves: Leaves, file: (Seq<char>, Seq<char>)) -> Leaves {
    if well_formatted(file.1) && !leaves.contains_key(file.0) && can_hold(
        leaves,
        file.0,
    ) {
        leaves.insert(file.0, parsed(file.0, file.1))
    } else {
        leaves
    }
}

/// The leaves after taking in `files`, one after the other.
pub open spec fn loaded(leaves: Leaves, files: Seq<(Seq<char>, Seq<char>)>) -> Leaves
    decreases files.len(),
{
    if files.len() == 0 {
        leaves
    } else {
        taken_in(loaded(leaves, files.drop_last()), files.last())
    }
}

impl Ledger {
    /// The commands in the part of the tree that `prefix` names, or all of
    /// them without a prefix, in ascending order of their paths. Fails with
    /// `NotInitialized` before `init`.
    fn list(&self, prefix: Option<&str>) -> (r: Result<Vec<Command>, CmdxError>)
        requires
            self.wf(),
        ensures
            !self@.initialized ==> r is Err && r->Err_0@ == ErrorView::NotInitialized,
            self@.initialized ==> r is Ok && is_listing(
                views(r->Ok_0@),
                self@.leaves,
                prefix_view(prefix),
            ),
    {
        if !self.initialized {
            return Err(CmdxError::NotInitialized);
        }
        let key: Option<Vec<char>> = match prefix {
            Some(p) => Some(chars_of(p)),
            None => None,
        };
        let ghost scope = prefix_view(prefix);
        let mut out: Vec<Command> = Vec::new();
        let ghost mut idx: Seq<int> = Seq::empty();
        let mut i: usize = 0;
        while i < self.records.len()
            invariant
                self.wf(),
                i <= self.records@.len(),
                scope is Some <==> key is Some,
                scope is Some ==> key->0@ == scope->0,
                idx.len() == out@.len(),
                forall|k: int|
                    0 <= k < idx.len() ==> 0 <= #[trigger] idx[k] < i && out@[k]@
                        == self.records@[idx[k]]@ && in_part(scope, self.records@[idx[k]].path@),
                forall|a: int, b: int| 0 <= a < b < idx.len() ==> idx[a] < idx[b],
                forall|m: int|
                    0 <= m < i && #[trigger] in_part(scope, self.records@[m].path@) ==> exists|
                        k: int,
                    | 0 <= k < idx.len() && #[trigger] idx[k] == m,
            decreases self.records@.len() - i,
        {
            let keep = match &key {
                None => true,
                Some(k) => {
                    let p = chars_of(self.records[i].path.as_str());
                    is_in_scope(k, &p)
                },
            };
            if keep {
                out.push(self.records[i].duplicate());
                proof {
                    let ghost before = idx;
                    idx = idx.push(i as int);
                    assert forall|m: int|
                        0 <= m < i + 1 && #[trigger] in_part(
                            scope,
                            self.records@[m].path@,
                        ) implies exists|k: int| 0 <= k < idx.len() && #[trigger] idx[k] == m by {
                        if m < i {
                            let k = choose|k: int| 0 <= k < before.len() && #[trigger] before[k] == m;
                            assert(idx[k] == m);
                        } else {
                            assert(idx[before.len() as int] == m);
                        }
                    }
                }
            }
            i += 1;
        }
        proof {
            let list = views(out@);
            assert forall|a: int, b: int| 0 <= a < b < list.len() implies lex_lt(
                list[a].path,
                list[b].path,
            ) by {
                assert(idx[a] < idx[b]);
            }
            assert forall|k: int| 0 <= k < list.len() implies self@.leaves.contains_key(
                #[trigger] list[k].path,
            ) && self@.leaves[list[k].path] == list[k] && in_part(scope, list[k].path) by {
                let m = idx[k];
                assert(self.leaves@.contains_key(self.records@[m].path@));
            }
            assert forall|p: Seq<char>| #[trigger]
                self@.leaves.contains_key(p) && in_part(scope, p) implies exists|k: int|
                0 <= k < list.len() && #[trigger] list[k].path == p by {
                let m = choose|m: int| holds_at(self.records@, m, p);
                assert(in_part(scope, self.records@[m].path@));
                let k = choose|k: int| 0 <= k < idx.len() && #[trigger] idx[k] == m;
                assert(list[k].path == p);
            }
        }
        Ok(out)
    }

    /// The paths of all commands, in ascending order. Fails with
    /// `NotInitialized` before `init`.
    fn all_paths(&self) -> (r: Result<Vec<String>, CmdxError>)
        requires
            self.wf(),
        ensures
            !self@.initialized ==> r is Err && r->Err_0@ == ErrorView::NotInitialized,
            self@.initialized ==> r is Ok && is_path_listing(
                string_views(r->Ok_0@),
                self@.leaves,
            ),
    {
        if !self.initialized {
            return Err(CmdxError::NotInitialized);
        }
        let mut out: Vec<String> = Vec::new();
        let mut i: usize = 0;
        while i < self.records.len()
            invariant
                self.wf(),
                i <= self.records@.len(),
                out@.len() == i,
                forall|k: int| 0 <= k < i ==> #[trigger] out@[k]@ == self.records@[k].path@,
            decreases self.records@.len() - i,
        {
            out.push(self.records[i].path.clone());
            i += 1;
        }
        proof {
            let paths = string_views(out@);
            assert forall|k: int| 0 <= k < paths.len() implies self@.leaves.contains_key(
                #[trigger] paths[k],
            ) by {
                assert(self.leaves@.contains_key(self.records@[k].path@));
            }
            assert forall|p: Seq<char>| #[trigger] self@.leaves.contains_key(p) implies exists|
                k: int,
            |
                0 <= k < paths.len() && #[trigger] paths[k] == p by {
                let m = choose|m: int| holds_at(self.records@, m, p);
                assert(paths[m] == p);
            }
        }
        Ok(out)
    }

    /// Takes in the files found below the root on disk, each given by its
    /// path below the root and its text, and marks the store as initialized.
    /// A file whose text holds no command is passed over, and so is one
    /// whose path cannot hold a command or holds one already. Nothing is
    /// added to the journal.
    fn load(&mut self, files: &Vec<(String, String)>)
        requires
            old(self).wf(),
        ensures
            final(self).wf(),
            final(self)@ == (StoreView {
                initialized: true,
                leaves: loaded(old(self)@.leaves, file_views(files@)),
                ..old(self)@
            }),
    {
        self.initialized = true;
        let ghost fv = file_views(files@);
        let ghost start = self@;
        let mut i: usize = 0;
        proof {
            assert(fv.take(0) =~= Seq::<(Seq<char>, Seq<char>)>::empty());
        }
        while i < files.len()
            invariant
                self.wf(),
                i <= files@.len(),
                fv == file_views(files@),
                self@ == (StoreView { leaves: loaded(start.leaves, fv.take(i as int)), ..start }),
                start.initialized,
            decreases files@.len() - i,
        {
            let ghost before = self@.leaves;
            let parsed = Command::parse(files[i].0.as_str(), files[i].1.as_str(), files[i].0.as_str());
            if let Ok(cmd) = parsed {
                let key = chars_of(cmd.path.as_str());
                let (j, found) = self.locate(&key);
                let n = self.records.len();
                if !found && self.fits(&key, n) {
                    self.insert_at(j, cmd);
                }
            }
            proof {
                assert(fv.take(i + 1).drop_last() =~= fv.take(i as int));
                assert(fv.take(i + 1).last() == fv[i as int]);
                assert(self@.leaves == taken_in(before, fv[i as int]));
            }
            i += 1;
        }
        proof {
            assert(fv.take(fv.len() as int) =~= fv);
        }
    }
}

/// The command store: a tree of categories with commands at its leaves.
/// Every change is done in memory and noted in a journal of file
/// operations, which `take_journal` hands out.
pub struct Store {
    ledger: Ledger,
}

impl View for Store {
    type V = StoreView;

    closed spec fn view(&self) -> StoreView {
        self.ledger@
    }
}

impl Store {
    #[verifier::type_invariant]
    spec fn inv(self) -> bool {
        self.ledger.wf()
    }

    /// Takes the ledger out for a change, and leaves an empty one.
    fn take(&mut self) -> (r: Ledger)
        ensures
            r == old(self).ledger,
            r.wf(),
    {
        proof {
            use_type_invariant(&*self);
        }
        let mut ledger = Ledger::with_root("");
        std::mem::swap(&mut ledger, &mut self.ledger);
        ledger
    }

    /// An empty store at `root` that has not been initialized.
    pub fn with_root(root: &str) -> (r: Self)
        ensures
            r@ == (StoreView {
                root: root@,
                initialized: false,
                leaves: Map::<Seq<char>, CommandView>::empty(),
                pending: Seq::<FsOpView>::empty(),
            }),
            r@.well_formed(),
    {
        Store { ledger: Ledger::with_root(root) }
    }

    /// An empty store that has not been initialized, where `config` says
    /// that the store lies: at `core.store_path`, with the home directory
    /// of the user in the place of a tilde that stands for it.
    pub fn new(config: &Config) -> (r: Self)
        ensures
            !r@.initialized,
            r@.leaves == Map::<Seq<char>, CommandView>::empty(),
            r@.pending == Seq::<FsOpView>::empty(),
            r@.well_formed(),
            names_no_home(config.core.store_path@) ==> r@.root == config.core.store_path@,
            names_home(config.core.store_path@) ==> exists|home: Option<Seq<char>>|
                r@.root == #[trigger] at_home(config.core.store_path@, home),
    {
        let root = config.store_path();
        Store::with_root(root.as_str())
    }

    /// Where the store lies on disk.
    pub fn root(&self) -> (r: &str)
        ensures
            r@ == self@.root,
    {
        self.ledger.root()
    }

    /// Whether the root has been created.
    pub fn is_initialized(&self) -> (r: bool)
        ensures
            r == self@.initialized,
    {
        self.ledger.is_initialized()
    }

    /// The file under which the store keeps the command at `path`.
    pub fn command_path(&self, path: &str) -> (r: String)
        ensures
            r@ == file_path(self@.root, path@),
    {
        self.ledger.command_path(path)
    }

    /// Hands out the file operations collected so far, the oldest first, and
    /// empties the journal.
    pub fn take_journal(&mut self) -> (r: Vec<FsOp>)
        ensures
            op_views(r@) == old(self)@.pending,
            final(self)@ == (StoreView { pending: Seq::<FsOpView>::empty(), ..old(self)@ }),
            final(self)@.well_formed(),
    {
        let mut ledger = self.take();
        let r = ledger.take_journal();
        self.ledger = ledger;
        r
    }

    /// Creates the root. Does nothing where it is there already.
    pub fn init(&mut self) -> (r: Result<(), CmdxError>)
        ensures
            r is Ok,
            old(self)@.initialized ==> final(self)@ == old(self)@,
            !old(self)@.initialized ==> final(self)@ == (StoreView {
                initialized: true,
                pending: old(self)@.pending.push(FsOpView::CreateDirAll(Seq::empty())),
                ..old(self)@
            }),
            final(self)@.well_formed(),
    {
        let mut ledger = self.take();
        let r = ledger.init();
        self.ledger = ledger;
        r
    }

    /// The command stored at `path`. Fails with `NotInitialized` before
    /// `init`, and with `NotFound` where no command lies at `path`, also
    /// where `path` names a category.
    pub fn get(&self, path: &str) -> (r: Result<Command, CmdxError>)
        ensures
            match got(self@, path@) {
                Ok(c) => r is Ok && r->Ok_0@ == c,
                Err(e) => r is Err && r->Err_0@ == e,
            },
            self@.well_formed(),
    {
        proof {
            use_type_invariant(self);
        }
        self.ledger.get(path)
    }

    /// Stores `cmd` under its path. Where a command lies there already it is
    /// replaced if `overwrite` is set, and the call fails with
    /// `AlreadyExists` if not. A path that is not valid, that names a
    /// category, or that lies below a command is refused with `InvalidPath`.
    /// Fails with `NotInitialized` before `init`. A failed call changes
    /// nothing.
    pub fn add(&mut self, cmd: &Command, overwrite: bool) -> (r: Result<(), CmdxError>)
        ensures
            outcome(r, add_error(old(self)@, cmd@, overwrite)),
            final(self)@ == after_add(old(self)@, cmd@, overwrite),
            final(self)@.well_formed(),
    {
        let mut ledger = self.take();
        let r = ledger.add(cmd, overwrite);
        self.ledger = ledger;
        r
    }

    /// Removes the command at `path`, and with it the categories above it
    /// that hold no other command. Fails with `NotInitialized` before
    /// `init`, and with `NotFound` where no command lies at `path`; a
    /// failed call changes nothing.
    pub fn remove(&mut self, path: &str) -> (r: Result<(), CmdxError>)
        ensures
            outcome(r, remove_error(old(self)@, path@)),
            final(self)@ == after_remove(old(self)@, path@),
            final(self)@.well_formed(),
    {
        let mut ledger = self.take();
        let r = ledger.remove(path);
        self.ledger = ledger;
        r
    }

    /// Moves the command at `src` to `dst`. Fails with `NotInitialized`
    /// before `init`, with `NotFound` where no command lies at `src`, with
    /// `AlreadyExists` where one lies at `dst`, and with `InvalidPath` where
    /// `dst` could not hold a command once `src` has left; a failed call
    /// changes nothing.
    pub fn rename(&mut self, src: &str, dst: &str) -> (r: Result<(), CmdxError>)
        ensures
            outcome(r, rename_error(old(self)@, src@, dst@)),
            final(self)@ == after_rename(old(self)@, src@, dst@),
            final(self)@.well_formed(),
    {
        let mut ledger = self.take();
        let r = ledger.rename(src, dst);
        self.ledger = ledger;
        r
    }

    /// The commands in the part of the tree that `prefix` names, or all of
    /// them without a prefix, in ascending order of their paths. Fails with
    /// `NotInitialized` before `init`.
    pub fn list(&self, prefix: Option<&str>) -> (r: Result<Vec<Command>, CmdxError>)
        ensures
            !self@.initialized ==> r is Err && r->Err_0@ == ErrorView::NotInitialized,
            self@.initialized ==> r is Ok && is_listing(
                views(r->Ok_0@),
                self@.leaves,
                prefix_view(prefix),
            ),
            self@.well_formed(),
    {
        proof {
            use_type_invariant(self);
        }
        self.ledger.list(prefix)
    }

    /// The paths of all commands, in ascending order. Fails with
    /// `NotInitialized` before `init`.
    pub fn all_paths(&self) -> (r: Result<Vec<String>, CmdxError>)
        ensures
            !self@.initialized ==> r is Err && r->Err_0@ == ErrorView::NotInitialized,
            self@.initialized ==> r is Ok && is_path_listing(
                string_views(r->Ok_0@),
                self@.leaves,
            ),
    {
        proof {
            use_type_invariant(self);
        }
        self.ledger.all_paths()
    }

    /// Takes in the files found below the root on disk, each given by its
    /// path below the root and its text, and marks the store as initialized.
    /// A file whose text holds no command is passed over, and so is one
    /// whose path cannot hold a command or holds one already. Nothing is
    /// added to the journal.
    pub fn load(&mut self, files: &Vec<(String, String)>)
        ensures
            final(self)@ == (StoreView {
                initialized: true,
                leaves: loaded(old(self)@.leaves, file_views(files@)),
                ..old(self)@
            }),
            final(self)@.well_formed(),
    {
        let mut ledger = self.take();
        ledger.load(files);
        self.ledger = ledger;
    }
}

} // verus!
