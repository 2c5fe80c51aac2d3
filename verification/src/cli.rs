//! What the commands of the command line decide before and after they read
//! and print.

use crate::command::{Command, CommandView};
use crate::error::{CmdxError, ErrorView};
use crate::path::{is_valid_path, valid_path};
use crate::text::{chars_of, str_eq, trim, trim_range};
use vstd::prelude::*;
use vstd::string::*;

verus! {

/// What a bare path on the command line does.
#[derive(Debug, Clone, Copy, PartialEq, Eq, Structural)]
pub enum DirectAction {
    Run,
    Show,
    Copy,
}

/// What a bare path does where the configuration names `name` as the
/// default action: `run` runs, `show` shows, and all else copies.
pub fn direct_action(name: &str) -> (r: DirectAction)
    ensures
        r == (if name@ == "run"@ {
            DirectAction::Run
        } else if name@ == "show"@ {
            DirectAction::Show
        } else {
            DirectAction::Copy
        }),
{
    if str_eq(name, "run") {
        DirectAction::Run
    } else if str_eq(name, "show") {
        DirectAction::Show
    } else {
        DirectAction::Copy
    }
}

/// A program that copies to the clipboard.
#[derive(Debug, Clone, Copy, PartialEq, Eq, Structural)]
pub enum ClipboardTool {
    WlCopy,
    Xclip,
    Xsel,
}

/// The programs to try, in order, where the configuration names `tool`:
/// the one that it names, and all three for any other name.
pub fn clipboard_tools(tool: &str) -> (r: Vec<ClipboardTool>)
    ensures
        r@ == (if tool@ == "wl-copy"@ {
            seq![ClipboardTool::WlCopy]
        } else if tool@ == "xclip"@ {
            seq![ClipboardTool::Xclip]
        } else if tool@ == "xsel"@ {
            seq![ClipboardTool::Xsel]
        } else {
            seq![ClipboardTool::WlCopy, ClipboardTool::Xclip, ClipboardTool::Xsel]
        }),
{
    let mut out: Vec<ClipboardTool> = Vec::new();
    if str_eq(tool, "wl-copy") {
        out.push(ClipboardTool::WlCopy);
        assert(out@ =~= seq![ClipboardTool::WlCopy]);
    } else if str_eq(tool, "xclip") {
        out.push(ClipboardTool::Xclip);
        assert(out@ =~= seq![ClipboardTool::Xclip]);
    } else if str_eq(tool, "xsel") {
        out.push(ClipboardTool::Xsel);
        assert(out@ =~= seq![ClipboardTool::Xsel]);
    } else {
        out.push(ClipboardTool::WlCopy);
        out.push(ClipboardTool::Xclip);
        out.push(ClipboardTool::Xsel);
        assert(out@ =~= seq![ClipboardTool::WlCopy, ClipboardTool::Xclip, ClipboardTool::Xsel]);
    }
    out
}

/// Whether `path` can name a command; `InvalidPath` if not.
pub fn check_path(path: &str) -> (r: Result<(), CmdxError>)
    ensures
        valid_path(path@) <==> r is Ok,
        r is Err ==> r->Err_0@ == ErrorView::InvalidPath(path@),
{
    let v = chars_of(path);
    if is_valid_path(&v) {
        Ok(())
    } else {
        Err(CmdxError::InvalidPath(String::from_str(path)))
    }
}

/// The command to store for what the user gave. Fails with `InvalidPath`
/// where the path is not valid, and where the command is empty.
pub fn new_command(path: &str, command: &str, explanation: &str) -> (r: Result<Command, CmdxError>)
    ensures
        valid_path(path@) && command@.len() > 0 <==> r is Ok,
        r is Ok ==> r->Ok_0@ == (CommandView {
            path: path@,
            command: command@,
            explanation: explanation@,
        }),
        !valid_path(path@) ==> r is Err && r->Err_0@ == ErrorView::InvalidPath(path@),
        valid_path(path@) && command@.len() == 0 ==> r is Err && r->Err_0@
            == ErrorView::InvalidPath("Command cannot be empty"@),
{
    match check_path(path) {
        Err(e) => Err(e),
        Ok(()) => {
            if command.is_empty() {
                Err(CmdxError::InvalidPath(String::from_str("Command cannot be empty")))
            } else {
                Ok(Command::new(path, command, explanation))
            }
        },
    }
}

/// Whether `answer` says yes: it is `y` or `Y`, with white space around it
/// or without.
pub fn is_yes(answer: &str) -> (r: bool)
    ensures
        r == (trim(answer@) == seq!['y'] || trim(answer@) == seq!['Y']),
{
    let v = chars_of(answer);
    assert(v@.subrange(0, v@.len() as int) =~= v@);
    let (a, b) = trim_range(&v, 0, v.len());
    let ghost t = v@.subrange(a as int, b as int);
    if b - a == 1 && (v[a] == 'y' || v[a] == 'Y') {
        assert(t =~= seq![v@[a as int]]);
        true
    } else {
        proof {
            if t == seq!['y'] || t == seq!['Y'] {
                assert(t.len() == 1);
                assert(t[0] == v@[a as int]);
            }
        }
        false
    }
}

} // verus!
