//! The configuration: where the store lies, what a bare path does, and how
//! commands are shown and copied.

use crate::error::join2;
use crate::text::{chars_of, string_of};
use vstd::prelude::*;
use vstd::string::*;

verus! {

/// The whole configuration.
#[derive(Debug, Clone, PartialEq, Eq)]
pub struct Config {
    pub core: CoreConfig,
    pub display: DisplayConfig,
    pub clipboard: ClipboardConfig,
}

#[derive(Debug, Clone, PartialEq, Eq)]
pub struct CoreConfig {
    /// Where the store lies; a `~` at its start stands for the home
    /// directory.
    pub store_path: String,
    /// What a bare path on the command line does: `copy`, `run` or `show`.
    pub default_action: String,
    /// The shell that runs a command.
    pub shell: String,
}

#[derive(Debug, Clone, PartialEq, Eq)]
pub struct DisplayConfig {
    pub color: bool,
    pub tree_style: String,
}

#[derive(Debug, Clone, PartialEq, Eq)]
pub struct ClipboardConfig {
    /// The program that copies: `wl-copy`, `xclip`, `xsel`, or `auto`.
    pub tool: String,
}

pub fn default_store_path() -> (r: String)
    ensures
        r@ == "~/.config/cmdx/store"@,
{
    String::from_str("~/.config/cmdx/store")
}

pub fn default_action() -> (r: String)
    ensures
        r@ == "copy"@,
{
    String::from_str("copy")
}

pub fn default_shell() -> (r: String)
    ensures
        r@ == "bash"@,
{
    String::from_str("bash")
}

pub fn default_true() -> (r: bool)
    ensures
        r,
{
    true
}

pub fn default_tree_style() -> (r: String)
    ensures
        r@ == "unicode"@,
{
    String::from_str("unicode")
}

pub fn default_clipboard_tool() -> (r: String)
    ensures
        r@ == "auto"@,
{
    String::from_str("auto")
}

impl Default for CoreConfig {
    fn default() -> (r: Self)
        ensures
            r.store_path@ == "~/.config/cmdx/store"@,
            r.default_action@ == "copy"@,
            r.shell@ == "bash"@,
    {
        CoreConfig {
            store_path: default_store_path(),
            default_action: default_action(),
            shell: default_shell(),
        }
    }
}

impl Default for DisplayConfig {
    fn default() -> (r: Self)
        ensures
            r.color,
            r.tree_style@ == "unicode"@,
    {
        DisplayConfig { color: default_true(), tree_style: default_tree_style() }
    }
}

impl Default for ClipboardConfig {
    fn default() -> (r: Self)
        ensures
            r.tool@ == "auto"@,
    {
        ClipboardConfig { tool: default_clipboard_tool() }
    }
}

impl Default for Config {
    fn default() -> (r: Self)
        ensures
            r.core.store_path@ == "~/.config/cmdx/store"@,
            r.core.default_action@ == "copy"@,
            r.core.shell@ == "bash"@,
            r.display.color,
            r.display.tree_style@ == "unicode"@,
            r.clipboard.tool@ == "auto"@,
    {
        Config {
            core: CoreConfig::default(),
            display: DisplayConfig::default(),
            clipboard: ClipboardConfig::default(),
        }
    }
}

/// `dir` with the name `name` below it: the two joined by one separator,
/// which is left out where `dir` is empty or ends with one.
pub open spec fn joined(dir: Seq<char>, name: Seq<char>) -> Seq<char> {
    if dir.len() == 0 || dir.last() == '/' {
        dir + name
    } else {
        dir + seq!['/'] + name
    }
}

/// The path of `name` in the directory `dir`.
pub fn join_path(dir: &str, name: &str) -> (r: String)
    ensures
        r@ == joined(dir@, name@),
{
    let v = chars_of(dir);
    if v.len() == 0 || v[v.len() - 1] == '/' {
        join2(dir, name)
    } else {
        let mut out = String::from_str(dir);
        out.push('/');
        out.append(name);
        out
    }
}

/// A text as a sequence of characters, if there is one.
pub open spec fn text_view(s: Option<&str>) -> Option<Seq<char>> {
    match s {
        Some(t) => Some(t@),
        None => None,
    }
}

/// The tilde at the start of `input` stands for the home directory: `input`
/// is `~` alone or goes on with `/` behind it.
pub open spec fn names_home(input: Seq<char>) -> bool {
    input.len() > 0 && input[0] == '~' && (input.len() == 1 || input[1] == '/')
}

/// `input` is left as it is on every system: it does not start with a
/// tilde, or goes on behind it with something other than a separator.
pub open spec fn names_no_home(input: Seq<char>) -> bool {
    input.len() == 0 || input[0] != '~' || (input.len() > 1 && input[1] != '/' && input[1] != '\\')
}

/// `input`, whose tilde stands for the home directory, with the home
/// directory `home` in the place of the tilde; `input` itself where there is
/// no home directory.
pub open spec fn at_home(input: Seq<char>, home: Option<Seq<char>>) -> Seq<char> {
    match home {
        Some(h) => h + input.subrange(1, input.len() as int),
        None => input,
    }
}

/// `shellexpand::tilde_with_context`, with `home` as the home directory.
/// Where `input` is `~` or starts with `~/` and there is a home directory,
/// the result is `input` with the home directory in the place of the tilde.
/// Where `input` does not start with a tilde, or goes on behind it with
/// something other than a separator, or there is no home directory, the
/// result is `input`. Of an `input` that goes on with `\` behind the tilde
/// nothing more is said: systems differ on it.
#[verifier::external_body]
fn tilde_with_home(input: &str, home: Option<&str>) -> (r: String)
    ensures
        names_home(input@) ==> r@ == at_home(input@, text_view(home)),
        names_no_home(input@) || home is None ==> r@ == input@,
{
    shellexpand::tilde_with_context(input, || home).into_owned()
}

/// `dirs::home_dir`: the home directory of the user, if the system names
/// one. Nothing is claimed of it.
#[verifier::external_body]
fn system_home_dir() -> (r: Option<String>) {
    dirs::home_dir().map(|p| p.to_string_lossy().into_owned())
}

/// `dirs::config_dir`: the directory for configurations of the user, if the
/// system names one. Nothing is claimed of it.
#[verifier::external_body]
fn system_config_dir() -> (r: Option<String>) {
    dirs::config_dir().map(|p| p.to_string_lossy().into_owned())
}

/// `path` with the home directory `home` in the place of a tilde at its
/// start that stands for it.
pub fn expand_home(path: &str, home: Option<&str>) -> (r: String)
    ensures
        names_home(path@) ==> r@ == at_home(path@, text_view(home)),
        names_no_home(path@) || home is None ==> r@ == path@,
{
    tilde_with_home(path, home)
}

/// The directory of this program's configuration, where `base` is the
/// directory that the system names for configurations: in `base`, or in
/// `~/.config` where there is none.
pub open spec fn config_dir_of(base: Option<Seq<char>>) -> Seq<char> {
    joined(
        match base {
            Some(b) => b,
            None => "~/.config"@,
        },
        "cmdx"@,
    )
}

/// The file of this program's configuration.
pub open spec fn config_file_of(base: Option<Seq<char>>) -> Seq<char> {
    joined(config_dir_of(base), "config.toml"@)
}

/// The directory of this program's configuration, in the directory `base`
/// for configurations, or in `~/.config` where the system names none.
pub fn config_dir_in(base: Option<&str>) -> (r: String)
    ensures
        r@ == config_dir_of(text_view(base)),
{
    match base {
        Some(b) => join_path(b, "cmdx"),
        None => join_path("~/.config", "cmdx"),
    }
}

/// The file of this program's configuration, where `base` is the directory
/// for configurations.
pub fn config_path_in(base: Option<&str>) -> (r: String)
    ensures
        r@ == config_file_of(text_view(base)),
{
    let dir = config_dir_in(base);
    join_path(dir.as_str(), "config.toml")
}

impl Config {
    /// The directory of this program's configuration, in the directory that
    /// the system names for configurations.
    pub fn config_dir() -> (r: String)
        ensures
            exists|base: Option<Seq<char>>| r@ == #[trigger] config_dir_of(base),
    {
        let base = system_config_dir();
        match &base {
            Some(b) => {
                let r = config_dir_in(Some(b.as_str()));
                assert(r@ == config_dir_of(Some(b@)));
                r
            },
            None => {
                let r = config_dir_in(None);
                assert(r@ == config_dir_of(None));
                r
            },
        }
    }

    /// The file of this program's configuration.
    pub fn config_path() -> (r: String)
        ensures
            exists|base: Option<Seq<char>>| r@ == #[trigger] config_file_of(base),
    {
        let base = system_config_dir();
        match &base {
            Some(b) => {
                let r = config_path_in(Some(b.as_str()));
                assert(r@ == config_file_of(Some(b@)));
                r
            },
            None => {
                let r = config_path_in(None);
                assert(r@ == config_file_of(None));
                r
            },
        }
    }

    /// Where the store lies: `core.store_path`, with the home directory of
    /// the user in the place of a tilde at its start that stands for it.
    pub fn store_path(&self) -> (r: String)
        ensures
            names_no_home(self.core.store_path@) ==> r@ == self.core.store_path@,
            names_home(self.core.store_path@) ==> exists|home: Option<Seq<char>>|
                r@ == #[trigger] at_home(self.core.store_path@, home),
    {
        let home = system_home_dir();
        match &home {
            Some(h) => {
                let r = expand_home(self.core.store_path.as_str(), Some(h.as_str()));
                assert(names_home(self.core.store_path@) ==> r@ == at_home(
                    self.core.store_path@,
                    Some(h@),
                ));
                r
            },
            None => {
                let r = expand_home(self.core.store_path.as_str(), None);
                assert(r@ == at_home(self.core.store_path@, None));
                r
            },
        }
    }
}

} // verus!
