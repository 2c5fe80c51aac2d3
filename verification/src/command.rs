//! A stored command and the text of the file that holds it.

use crate::error::{CmdxError, ErrorView};
use crate::text::{
    chars_of, find_char, find_from, is_space, lemma_find_from_is, lemma_trim_end_is,
    lemma_trim_start_is, string_of_range, trim, trim_range,
};
use vstd::prelude::*;
use vstd::string::*;

verus! {

/// A command stored under a path, with an explanation that may be empty.
#[derive(Debug, Clone, PartialEq, Eq)]
pub struct Command {
    pub path: String,
    pub command: String,
    pub explanation: String,
}

/// A command, with its three texts as sequences of characters.
pub struct CommandView {
    pub path: Seq<char>,
    pub command: Seq<char>,
    pub explanation: Seq<char>,
}

impl View for Command {
    type V = CommandView;

    open spec fn view(&self) -> CommandView {
        CommandView { path: self.path@, command: self.command@, explanation: self.explanation@ }
    }
}

/// The views of a sequence of commands, in the same order.
pub open spec fn views(s: Seq<Command>) -> Seq<CommandView> {
    Seq::new(s.len(), |i: int| s[i]@)
}

/// The first line of `content`, without its line end.
pub open spec fn first_line(content: Seq<char>) -> Seq<char> {
    content.subrange(0, find_from(content, '\n', 0))
}

/// The second line of `content`, without its line end; empty where `content`
/// has one line only.
pub open spec fn second_line(content: Seq<char>) -> Seq<char> {
    let n1 = find_from(content, '\n', 0);
    if n1 >= content.len() {
        Seq::empty()
    } else {
        content.subrange(n1 + 1, find_from(content, '\n', n1 + 1))
    }
}

/// Whether `content` holds a command: its first line is not blank.
pub open spec fn well_formatted(content: Seq<char>) -> bool {
    trim(first_line(content)).len() > 0
}

/// The command that `content` holds when stored under `path`: the first line
/// is the command and the second the explanation, both without the white
/// space around them.
pub open spec fn parsed(path: Seq<char>, content: Seq<char>) -> CommandView {
    CommandView {
        path,
        command: trim(first_line(content)),
        explanation: trim(second_line(content)),
    }
}

/// The text of the file that holds a command: the command and the
/// explanation, each on a line of its own.
pub open spec fn file_content(c: CommandView) -> Seq<char> {
    c.command + seq!['\n'] + c.explanation + seq!['\n']
}

impl Command {
    pub fn new(path: &str, command: &str, explanation: &str) -> (r: Self)
        ensures
            r@ == (CommandView { path: path@, command: command@, explanation: explanation@ }),
    {
        Command {
            path: String::from_str(path),
            command: String::from_str(command),
            explanation: String::from_str(explanation),
        }
    }

    /// A copy of this command.
    pub fn duplicate(&self) -> (r: Self)
        ensures
            r@ == self@,
    {
        Command {
            path: self.path.clone(),
            command: self.command.clone(),
            explanation: self.explanation.clone(),
        }
    }

    /// Reads the command that the file at `file_path` holds, whose text is
    /// `content`, for the path `path`. Fails with `InvalidFormat` where the
    /// first line is blank.
    pub fn parse(path: &str, content: &str, file_path: &str) -> (r: Result<Self, CmdxError>)
        ensures
            well_formatted(content@) ==> r is Ok && r->Ok_0@ == parsed(path@, content@),
            !well_formatted(content@) ==> r is Err && r->Err_0@ == ErrorView::InvalidFormat(file_path@),
    {
        let v = chars_of(content);
        let n1 = find_char(&v, '\n', 0);
        let (a1, b1) = trim_range(&v, 0, n1);
        if a1 == b1 {
            return Err(CmdxError::InvalidFormat(String::from_str(file_path)));
        }
        let command = string_of_range(&v, a1, b1);
        let explanation = if n1 >= v.len() {
            proof {
                assert(trim(Seq::<char>::empty()) =~= Seq::<char>::empty());
            }
            String::new()
        } else {
            let n2 = find_char(&v, '\n', n1 + 1);
            let (a2, b2) = trim_range(&v, n1 + 1, n2);
            string_of_range(&v, a2, b2)
        };
        Ok(Command { path: String::from_str(path), command, explanation })
    }

    /// The text of the file that holds this command.
    pub fn to_file_content(&self) -> (r: String)
        ensures
            r@ == file_content(self@),
    {
        let mut out = self.command.clone();
        out.push('\n');
        out.append(self.explanation.as_str());
        out.push('\n');
        out
    }
}

/// `s` has no white space at its start or at its end.
pub open spec fn is_trimmed(s: Seq<char>) -> bool {
    s.len() > 0 ==> !is_space(s[0]) && !is_space(s.last())
}

/// `s` holds no line end.
pub open spec fn is_one_line(s: Seq<char>) -> bool {
    forall|i: int| 0 <= i < s.len() ==> s[i] != '\n'
}

/// A text without white space around it is its own `trim`.
pub proof fn lemma_trim_of_trimmed(s: Seq<char>)
    requires
        is_trimmed(s),
    ensures
        trim(s) == s,
{
    lemma_trim_start_is(s, 0);
    assert(s.subrange(0, s.len() as int) =~= s);
    lemma_trim_end_is(s, s.len() as int);
}

/// The file of a command holds that command: where the command and the
/// explanation are one line each, without white space around them, and the
/// command is not empty, the text that `to_file_content` writes is read
/// back by `parse` as the command that was written.
pub proof fn law_file_content_parses_back(c: CommandView)
    requires
        c.command.len() > 0,
        is_one_line(c.command),
        is_one_line(c.explanation),
        is_trimmed(c.command),
        is_trimmed(c.explanation),
    ensures
        well_formatted(file_content(c)),
        parsed(c.path, file_content(c)) == c,
{
    let text = file_content(c);
    let n1 = c.command.len() as int;
    let n2 = n1 + 1 + c.explanation.len();
    assert(text.len() == n2 + 1);
    assert forall|i: int| 0 <= i < n1 implies text[i] != '\n' by {
        assert(text[i] == c.command[i]);
    }
    assert(text[n1] == '\n');
    lemma_find_from_is(text, '\n', 0, n1);
    assert(text.subrange(0, n1) =~= c.command);
    assert forall|i: int| n1 + 1 <= i < n2 implies text[i] != '\n' by {
        assert(text[i] == c.explanation[i - n1 - 1]);
    }
    assert(text[n2] == '\n');
    lemma_find_from_is(text, '\n', n1 + 1, n2);
    assert(text.subrange(n1 + 1, n2) =~= c.explanation);
    lemma_trim_of_trimmed(c.command);
    lemma_trim_of_trimmed(c.explanation);
}

} // verus!
