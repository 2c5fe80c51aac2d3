//! The errors of the command store and of the code around it.

use vstd::prelude::*;
use vstd::string::*;

verus! {

/// Why an operation failed.
#[derive(Debug, Clone, PartialEq, Eq)]
pub enum CmdxError {
    /// No command is stored under the path.
    NotFound(String),
    /// A command is already stored at the location.
    AlreadyExists(String),
    /// The path cannot name a command.
    InvalidPath(String),
    /// The file at the location does not hold a command.
    InvalidFormat(String),
    /// The store has not been initialized.
    NotInitialized,
    /// The configuration, or an exported document, could not be used.
    Config(String),
    /// The file system refused an operation.
    Io(String),
    /// A command that was run failed.
    Execution(String),
}

/// An error, with its text as a sequence of characters.
pub enum ErrorView {
    NotFound(Seq<char>),
    AlreadyExists(Seq<char>),
    InvalidPath(Seq<char>),
    InvalidFormat(Seq<char>),
    NotInitialized,
    Config(Seq<char>),
    Io(Seq<char>),
    Execution(Seq<char>),
}

impl ErrorView {
    /// The line shown to the user for this error.
    pub open spec fn message(self) -> Seq<char> {
        match self {
            ErrorView::NotFound(p) => "Command not found: "@ + p,
            ErrorView::AlreadyExists(p) => "Command already exists: "@ + p,
            ErrorView::InvalidPath(p) => "Invalid command path: "@ + p,
            ErrorView::InvalidFormat(p) => "Invalid command file format: "@ + p,
            ErrorView::NotInitialized => "Store not initialized. Run 'cmdx init' first."@,
            ErrorView::Config(m) => "Config error: "@ + m,
            ErrorView::Io(m) => "IO error: "@ + m,
            ErrorView::Execution(m) => "Command execution failed: "@ + m,
        }
    }
}

impl View for CmdxError {
    type V = ErrorView;

    open spec fn view(&self) -> ErrorView {
        match self {
            CmdxError::NotFound(p) => ErrorView::NotFound(p@),
            CmdxError::AlreadyExists(p) => ErrorView::AlreadyExists(p@),
            CmdxError::InvalidPath(p) => ErrorView::InvalidPath(p@),
            CmdxError::InvalidFormat(p) => ErrorView::InvalidFormat(p@),
            CmdxError::NotInitialized => ErrorView::NotInitialized,
            CmdxError::Config(m) => ErrorView::Config(m@),
            CmdxError::Io(m) => ErrorView::Io(m@),
            CmdxError::Execution(m) => ErrorView::Execution(m@),
        }
    }
}

/// `head` followed by `tail`.
pub fn join2(head: &str, tail: &str) -> (r: String)
    ensures
        r@ == head@ + tail@,
{
    let mut out = String::from_str(head);
    out.append(tail);
    out
}

impl CmdxError {
    /// The line shown to the user for this error.
    pub fn message(&self) -> (r: String)
        ensures
            r@ == self@.message(),
    {
        match self {
            CmdxError::NotFound(p) => join2("Command not found: ", p.as_str()),
            CmdxError::AlreadyExists(p) => join2("Command already exists: ", p.as_str()),
            CmdxError::InvalidPath(p) => join2("Invalid command path: ", p.as_str()),
            CmdxError::InvalidFormat(p) => join2("Invalid command file format: ", p.as_str()),
            CmdxError::NotInitialized => String::from_str(
                "Store not initialized. Run 'cmdx init' first.",
            ),
            CmdxError::Config(m) => join2("Config error: ", m.as_str()),
            CmdxError::Io(m) => join2("IO error: ", m.as_str()),
            CmdxError::Execution(m) => join2("Command execution failed: ", m.as_str()),
        }
    }
}

} // verus!
