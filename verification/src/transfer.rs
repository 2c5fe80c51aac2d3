//! Exporting the commands of a store and importing them into another.

use crate::command::{views, Command, CommandView};
use crate::error::{join2, CmdxError, ErrorView};
use crate::store::{add_error, after_add, Store, StoreView};
use crate::text::string_of;
use vstd::prelude::*;
use vstd::string::*;

verus! {

/// The version of the exported document that this program writes, and the
/// only one that it reads.
pub const EXPORT_VERSION: u32 = 1;

/// An exported document.
#[derive(Debug, Clone, PartialEq, Eq)]
pub struct ExportData {
    pub version: u32,
    pub commands: Vec<Command>,
}

/// What became of one command of an import.
#[derive(Debug, Clone, PartialEq, Eq)]
pub enum ImportOutcome {
    /// The command was stored.
    Added,
    /// A command lies at the path already, and overwriting was not asked.
    Skipped,
    /// The store refused the command.
    Failed(CmdxError),
}

/// What became of one command of an import, with its texts as sequences
/// of characters.
pub enum OutcomeView {
    Added,
    Skipped,
    Failed(ErrorView),
}

impl View for ImportOutcome {
    type V = OutcomeView;

    open spec fn view(&self) -> OutcomeView {
        match self {
            ImportOutcome::Added => OutcomeView::Added,
            ImportOutcome::Skipped => OutcomeView::Skipped,
            ImportOutcome::Failed(e) => OutcomeView::Failed(e@),
        }
    }
}

/// The character of the digit `d`.
pub open spec fn digit_char(d: int) -> char {
    if d == 0 {
        '0'
    } else if d == 1 {
        '1'
    } else if d == 2 {
        '2'
    } else if d == 3 {
        '3'
    } else if d == 4 {
        '4'
    } else if d == 5 {
        '5'
    } else if d == 6 {
        '6'
    } else if d == 7 {
        '7'
    } else if d == 8 {
        '8'
    } else {
        '9'
    }
}

/// The digits of `n` in base ten, without leading zeros.
pub open spec fn decimal(n: nat) -> Seq<char>
    decreases n,
{
    if n < 10 {
        seq![digit_char(n as int)]
    } else {
        decimal(n / 10).push(digit_char((n % 10) as int))
    }
}

/// The character of the digit `d`.
fn digit(d: u32) -> (r: char)
    requires
        d < 10,
    ensures
        r == digit_char(d as int),
{
    if d == 0 {
        '0'
    } else if d == 1 {
        '1'
    } else if d == 2 {
        '2'
    } else if d == 3 {
        '3'
    } else if d == 4 {
        '4'
    } else if d == 5 {
        '5'
    } else if d == 6 {
        '6'
    } else if d == 7 {
        '7'
    } else if d == 8 {
        '8'
    } else {
        '9'
    }
}

/// Adds the digits of `n` to `out`.
fn push_decimal(n: u32, out: &mut Vec<char>)
    ensures
        final(out)@ == old(out)@ + decimal(n as nat),
    decreases n,
{
    if n < 10 {
        out.push(digit(n));
        assert(out@ =~= old(out)@ + decimal(n as nat));
    } else {
        push_decimal(n / 10, out);
        out.push(digit(n % 10));
        assert(out@ =~= old(out)@ + decimal(n as nat));
    }
}

/// `n` written in base ten.
pub fn decimal_string(n: u32) -> (r: String)
    ensures
        r@ == decimal(n as nat),
{
    let mut v: Vec<char> = Vec::new();
    push_decimal(n, &mut v);
    assert(v@ =~= decimal(n as nat));
    string_of(&v)
}

/// The document that exports `commands`.
pub fn export_data(commands: Vec<Command>) -> (r: ExportData)
    ensures
        r.version == EXPORT_VERSION,
        r.commands == commands,
{
    ExportData { version: EXPORT_VERSION, commands }
}

/// Whether a document of the version `version` can be read: the version 1
/// alone can; any other is refused with `Config`.
pub fn check_version(version: u32) -> (r: Result<(), CmdxError>)
    ensures
        version == EXPORT_VERSION <==> r is Ok,
        r is Err ==> r->Err_0@ == ErrorView::Config(
            "Unsupported export version: "@ + decimal(version as nat),
        ),
{
    if version == EXPORT_VERSION {
        Ok(())
    } else {
        let n = decimal_string(version);
        Err(CmdxError::Config(join2("Unsupported export version: ", n.as_str())))
    }
}

/// What becomes of a command whose `add` fails with `e`, or succeeds.
pub open spec fn outcome_of(e: Option<ErrorView>) -> OutcomeView {
    match e {
        None => OutcomeView::Added,
        Some(ErrorView::AlreadyExists(_)) => OutcomeView::Skipped,
        Some(e) => OutcomeView::Failed(e),
    }
}

/// The store after the import of `commands`, one after the other.
pub open spec fn imported(s: StoreView, commands: Seq<CommandView>, force: bool) -> StoreView
    decreases commands.len(),
{
    if commands.len() == 0 {
        s
    } else {
        after_add(imported(s, commands.drop_last(), force), commands.last(), force)
    }
}

/// `outcomes` tells, for each of `commands`, what became of it in the
/// import into `s`.
pub open spec fn is_import_report(
    outcomes: Seq<OutcomeView>,
    s: StoreView,
    commands: Seq<CommandView>,
    force: bool,
) -> bool {
    &&& outcomes.len() == commands.len()
    &&& forall|i: int|
        0 <= i < commands.len() ==> #[trigger] outcomes[i] == outcome_of(
            add_error(imported(s, commands.take(i), force), commands[i], force),
        )
}

/// The views of a sequence of outcomes, in the same order.
pub open spec fn outcome_views(s: Seq<ImportOutcome>) -> Seq<OutcomeView> {
    Seq::new(s.len(), |i: int| s[i]@)
}

/// Stores each of `commands`, overwriting where `force` is set, and tells
/// what became of each. A command that the store refuses does not stop the
/// import.
pub fn import_commands(store: &mut Store, commands: &Vec<Command>, force: bool) -> (r: Vec<
    ImportOutcome,
>)
    ensures
        final(store)@ == imported(old(store)@, views(commands@), force),
        is_import_report(outcome_views(r@), old(store)@, views(commands@), force),
{
    let ghost start = store@;
    let ghost all = views(commands@);
    let mut out: Vec<ImportOutcome> = Vec::new();
    let mut i: usize = 0;
    proof {
        assert(all.take(0) =~= Seq::<CommandView>::empty());
    }
    while i < commands.len()
        invariant
            i <= commands@.len(),
            all == views(commands@),
            store@ == imported(start, all.take(i as int), force),
            out@.len() == i,
            forall|k: int|
                0 <= k < i ==> #[trigger] out@[k]@ == outcome_of(
                    add_error(imported(start, all.take(k), force), all[k], force),
                ),
        decreases commands@.len() - i,
    {
        let outcome = match store.add(&commands[i], force) {
            Ok(()) => ImportOutcome::Added,
            Err(CmdxError::AlreadyExists(_)) => ImportOutcome::Skipped,
            Err(e) => ImportOutcome::Failed(e),
        };
        out.push(outcome);
        proof {
            assert(all.take(i + 1).drop_last() =~= all.take(i as int));
            assert(all.take(i + 1).last() == all[i as int]);
        }
        i += 1;
    }
    proof {
        assert(all.take(all.len() as int) =~= all);
    }
    out
}

/// Imports the document `data`: fails with `NotInitialized` before `init`
/// and with `Config` where the version is not 1, and changes nothing then;
/// else stores each command and tells what became of each.
pub fn import_data(store: &mut Store, data: &ExportData, force: bool) -> (r: Result<
    Vec<ImportOutcome>,
    CmdxError,
>)
    ensures
        r is Ok <==> old(store)@.initialized && data.version == EXPORT_VERSION,
        !old(store)@.initialized ==> r is Err && r->Err_0@ == ErrorView::NotInitialized,
        old(store)@.initialized && data.version != EXPORT_VERSION ==> r is Err && r->Err_0@
            == ErrorView::Config("Unsupported export version: "@ + decimal(data.version as nat)),
        r is Err ==> final(store)@ == old(store)@,
        r is Ok ==> final(store)@ == imported(old(store)@, views(data.commands@), force)
            && is_import_report(
            outcome_views(r->Ok_0@),
            old(store)@,
            views(data.commands@),
            force,
        ),
{
    if !store.is_initialized() {
        return Err(CmdxError::NotInitialized);
    }
    match check_version(data.version) {
        Err(e) => Err(e),
        Ok(()) => Ok(import_commands(store, &data.commands, force)),
    }
}

/// How many commands of an import were stored, and how many were skipped.
pub fn tally(outcomes: &Vec<ImportOutcome>) -> (r: (usize, usize))
    ensures
        r.0 == count_added(outcome_views(outcomes@)),
        r.1 == count_skipped(outcome_views(outcomes@)),
{
    let ghost all = outcome_views(outcomes@);
    let mut added: usize = 0;
    let mut skipped: usize = 0;
    let mut i: usize = 0;
    proof {
        assert(all.take(0) =~= Seq::<OutcomeView>::empty());
    }
    while i < outcomes.len()
        invariant
            i <= outcomes@.len(),
            all == outcome_views(outcomes@),
            added == count_added(all.take(i as int)),
            skipped == count_skipped(all.take(i as int)),
            added <= i,
            skipped <= i,
        decreases outcomes@.len() - i,
    {
        proof {
            assert(all.take(i + 1).drop_last() =~= all.take(i as int));
            assert(all.take(i + 1).last() == all[i as int]);
        }
        match &outcomes[i] {
            ImportOutcome::Added => {
                added += 1;
            },
            ImportOutcome::Skipped => {
                skipped += 1;
            },
            ImportOutcome::Failed(_) => {},
        }
        i += 1;
    }
    proof {
        assert(all.take(all.len() as int) =~= all);
    }
    (added, skipped)
}

/// The number of `outcomes` that are `Added`.
pub open spec fn count_added(outcomes: Seq<OutcomeView>) -> nat
    decreases outcomes.len(),
{
    if outcomes.len() == 0 {
        0
    } else {
        count_added(outcomes.drop_last()) + (if outcomes.last() is Added {
            1nat
        } else {
            0nat
        })
    }
}

/// The number of `outcomes` that are `Skipped`.
pub open spec fn count_skipped(outcomes: Seq<OutcomeView>) -> nat
    decreases outcomes.len(),
{
    if outcomes.len() == 0 {
        0
    } else {
        count_skipped(outcomes.drop_last()) + (if outcomes.last() is Skipped {
            1nat
        } else {
            0nat
        })
    }
}

} // verus!
