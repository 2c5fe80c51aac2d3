//! What the screen of the picker needs worked out: texts cut and wrapped
//! to a width, the place of a window in the middle of the screen, and the
//! kind of a command by its first name.

use crate::text::{
    chars_eq, chars_of, find_char, find_from, is_space, is_whitespace, prefix_of, string_of,
    string_of_range,
};
use vstd::prelude::*;
use vstd::string::*;

verus! {

/// `s` cut to `max` characters: `s` itself where it fits; else its start
/// with `..` in the place of what is cut, where there is room for more than
/// the two dots, and its first `max` characters where there is not.
pub open spec fn truncated(s: Seq<char>, max: nat) -> Seq<char> {
    if s.len() <= max {
        s
    } else if max > 2 {
        s.subrange(0, max - 2) + seq!['.', '.']
    } else {
        s.subrange(0, max as int)
    }
}

/// `s` cut to `max_len` characters.
pub fn truncate_str(s: &str, max_len: usize) -> (r: String)
    ensures
        r@ == truncated(s@, max_len as nat),
{
    let v = chars_of(s);
    if v.len() <= max_len {
        string_of(&v)
    } else if max_len > 2 {
        let mut out = string_of_range(&v, 0, max_len - 2);
        out.push('.');
        out.push('.');
        assert(out@ =~= v@.subrange(0, max_len - 2) + seq!['.', '.']);
        out
    } else {
        string_of_range(&v, 0, max_len)
    }
}

/// A rectangle of the screen.
#[derive(Debug, Clone, Copy, PartialEq, Eq, Structural)]
pub struct Rect {
    pub x: u16,
    pub y: u16,
    pub width: u16,
    pub height: u16,
}

/// `percent` hundredths of `length`, rounded down, and no more than a
/// length can be.
pub open spec fn share(length: u16, percent: u16) -> int {
    let s = length * percent / 100;
    if s <= u16::MAX {
        s
    } else {
        u16::MAX as int
    }
}

/// Where a stretch of `inner` begins that lies in the middle of a stretch
/// of `outer` beginning at `start`; at `start` where it does not fit, and
/// no further than a place can be.
pub open spec fn centered(start: u16, outer: u16, inner: int) -> int {
    let gap = if inner <= outer {
        (outer - inner) / 2
    } else {
        0
    };
    if start + gap <= u16::MAX {
        start + gap
    } else {
        u16::MAX as int
    }
}

/// `percent` hundredths of `length`.
fn share_of(length: u16, percent: u16) -> (r: u16)
    ensures
        r == share(length, percent),
{
    assert(length * percent <= 0xFFFF * 0xFFFF) by (nonlinear_arith)
        requires
            0 <= length <= 0xFFFF,
            0 <= percent <= 0xFFFF,
    ;
    let s: u32 = (length as u32) * (percent as u32) / 100;
    if s <= 0xFFFF {
        s as u16
    } else {
        0xFFFF
    }
}

/// Where a stretch of `inner` begins in the middle of one of `outer`.
fn center_of(start: u16, outer: u16, inner: u16) -> (r: u16)
    ensures
        r == centered(start, outer, inner as int),
{
    let gap: u16 = if inner <= outer {
        (outer - inner) / 2
    } else {
        0
    };
    let at: u32 = start as u32 + gap as u32;
    if at <= 0xFFFF {
        at as u16
    } else {
        0xFFFF
    }
}

/// The rectangle in the middle of `r` that takes `percent_x` hundredths of
/// its width and `percent_y` hundredths of its height.
pub fn centered_rect(percent_x: u16, percent_y: u16, r: Rect) -> (c: Rect)
    ensures
        c.width == share(r.width, percent_x),
        c.height == share(r.height, percent_y),
        c.x == centered(r.x, r.width, share(r.width, percent_x)),
        c.y == centered(r.y, r.height, share(r.height, percent_y)),
{
    let width = share_of(r.width, percent_x);
    let height = share_of(r.height, percent_y);
    Rect { x: center_of(r.x, r.width, width), y: center_of(r.y, r.height, height), width, height }
}

/// The kind of a command, by which the list marks it.
#[derive(Debug, Clone, Copy, PartialEq, Eq, Structural)]
pub enum Category {
    Git,
    Docker,
    Database,
    Node,
    Rust,
    Kubernetes,
    System,
    Network,
    Ssh,
    Dev,
    Files,
    Other,
}

/// The first name of the path `p`.
pub open spec fn first_name(p: Seq<char>) -> Seq<char> {
    p.subrange(0, find_from(p, '/', 0))
}

/// The kind that the name `name` stands for.
pub open spec fn category_named(name: Seq<char>) -> Category {
    if name == "git"@ {
        Category::Git
    } else if name == "docker"@ {
        Category::Docker
    } else if name == "pg"@ || name == "postgres"@ || name == "db"@ {
        Category::Database
    } else if name == "npm"@ || name == "node"@ {
        Category::Node
    } else if name == "cargo"@ || name == "rust"@ {
        Category::Rust
    } else if name == "k8s"@ || name == "kubectl"@ {
        Category::Kubernetes
    } else if name == "sys"@ || name == "linux"@ {
        Category::System
    } else if name == "net"@ || name == "network"@ {
        Category::Network
    } else if name == "ssh"@ {
        Category::Ssh
    } else if name == "dev"@ {
        Category::Dev
    } else if name == "files"@ {
        Category::Files
    } else {
        Category::Other
    }
}

/// Whether `name` holds the characters of `text`.
fn is_name(name: &Vec<char>, text: &str) -> (r: bool)
    ensures
        r == (name@ == text@),
{
    let t = chars_of(text);
    chars_eq(name, &t)
}

/// The kind of the command at `path`, which its first name decides.
pub fn category_of(path: &str) -> (r: Category)
    ensures
        r == category_named(first_name(path@)),
{
    let v = chars_of(path);
    let end = find_char(&v, '/', 0);
    let name = prefix_of(&v, end);
    if is_name(&name, "git") {
        Category::Git
    } else if is_name(&name, "docker") {
        Category::Docker
    } else if is_name(&name, "pg") || is_name(&name, "postgres") || is_name(&name, "db") {
        Category::Database
    } else if is_name(&name, "npm") || is_name(&name, "node") {
        Category::Node
    } else if is_name(&name, "cargo") || is_name(&name, "rust") {
        Category::Rust
    } else if is_name(&name, "k8s") || is_name(&name, "kubectl") {
        Category::Kubernetes
    } else if is_name(&name, "sys") || is_name(&name, "linux") {
        Category::System
    } else if is_name(&name, "net") || is_name(&name, "network") {
        Category::Network
    } else if is_name(&name, "ssh") {
        Category::Ssh
    } else if is_name(&name, "dev") {
        Category::Dev
    } else if is_name(&name, "files") {
        Category::Files
    } else {
        Category::Other
    }
}

/// The line `cur`, if it is not empty.
pub open spec fn line_of(cur: Seq<char>) -> Seq<Seq<char>> {
    if cur.len() > 0 {
        seq![cur]
    } else {
        Seq::empty()
    }
}

/// The words of `s` from the place `i` on, where `cur` is what was read of
/// the word that `i` lies in: a word is a run of characters that are not
/// white space, as long as can be.
pub open spec fn words_from(s: Seq<char>, i: int, cur: Seq<char>) -> Seq<Seq<char>>
    decreases s.len() - i,
{
    if i >= s.len() {
        line_of(cur)
    } else if is_space(s[i]) {
        line_of(cur) + words_from(s, i + 1, Seq::empty())
    } else {
        words_from(s, i + 1, cur.push(s[i]))
    }
}

/// The words of `s`.
pub open spec fn words_of(s: Seq<char>) -> Seq<Seq<char>> {
    words_from(s, 0, Seq::empty())
}

/// The full lines of `width` characters that a word longer than `width`
/// is cut into, without what is left at its end.
pub open spec fn full_chunks(w: Seq<char>, width: int) -> Seq<Seq<char>>
    decreases w.len(),
{
    if width > 0 && w.len() > width {
        seq![w.subrange(0, width)] + full_chunks(w.subrange(width, w.len() as int), width)
    } else {
        Seq::empty()
    }
}

/// What is left at the end of a word that is cut into lines of `width`
/// characters: the word itself where it fits.
pub open spec fn remainder(w: Seq<char>, width: int) -> Seq<char>
    decreases w.len(),
{
    if width > 0 && w.len() > width {
        remainder(w.subrange(width, w.len() as int), width)
    } else {
        w
    }
}

/// The lines that `words[k..]` fill after the line `cur`, which is still
/// open. A word joins the open line, behind a space, where the line then
/// has no more than `width` characters; else it begins a line of its own. A
/// word that begins the first line, or a line behind one that was cut, and
/// is longer than `width` is cut into lines of `width` characters.
pub open spec fn lines_from(words: Seq<Seq<char>>, k: int, width: int, cur: Seq<char>) -> Seq<
    Seq<char>,
>
    decreases words.len() - k,
{
    if k >= words.len() {
        line_of(cur)
    } else if cur.len() == 0 {
        full_chunks(words[k], width) + lines_from(words, k + 1, width, remainder(words[k], width))
    } else if cur.len() + 1 + words[k].len() <= width {
        lines_from(words, k + 1, width, cur + seq![' '] + words[k])
    } else {
        seq![cur] + lines_from(words, k + 1, width, words[k])
    }
}

/// `text` wrapped to lines of `width` characters: the text itself for the
/// width 0, and one empty line for a text without words.
pub open spec fn wrapped(text: Seq<char>, width: nat) -> Seq<Seq<char>> {
    if width == 0 {
        seq![text]
    } else {
        let lines = lines_from(words_of(text), 0, width as int, Seq::empty());
        if lines.len() == 0 {
            seq![Seq::empty()]
        } else {
            lines
        }
    }
}

/// The views of a sequence of words, in the same order.
pub open spec fn word_views(s: Seq<Vec<char>>) -> Seq<Seq<char>> {
    Seq::new(s.len(), |i: int| s[i]@)
}

/// The views of a sequence of lines, in the same order.
pub open spec fn line_views(s: Seq<String>) -> Seq<Seq<char>> {
    Seq::new(s.len(), |i: int| s[i]@)
}

/// The words of `text`.
pub fn split_words(text: &Vec<char>) -> (r: Vec<Vec<char>>)
    ensures
        word_views(r@) == words_of(text@),
{
    let mut out: Vec<Vec<char>> = Vec::new();
    let mut cur: Vec<char> = Vec::new();
    let mut i: usize = 0;
    proof {
        assert(word_views(out@) + words_from(text@, 0, cur@) =~= words_of(text@));
    }
    while i < text.len()
        invariant
            i <= text@.len(),
            word_views(out@) + words_from(text@, i as int, cur@) == words_of(text@),
        decreases text@.len() - i,
    {
        let ghost done = word_views(out@);
        let ghost open = cur@;
        if is_whitespace(text[i]) {
            if cur.len() > 0 {
                out.push(cur);
                cur = Vec::new();
                assert(word_views(out@) =~= done + seq![open]);
            }
            assert(cur@ =~= Seq::<char>::empty());
            assert(word_views(out@) + words_from(text@, i + 1, cur@) =~= done + (line_of(open)
                + words_from(text@, i + 1, Seq::empty())));
        } else {
            cur.push(text[i]);
        }
        i += 1;
    }
    let ghost done = word_views(out@);
    let ghost open = cur@;
    if cur.len() > 0 {
        out.push(cur);
        assert(word_views(out@) =~= done + seq![open]);
    } else {
        assert(done + line_of(open) =~= done);
    }
    out
}

/// `text` wrapped to lines of `max_width` characters.
pub fn wrap_text(text: &str, max_width: usize) -> (r: Vec<String>)
    ensures
        line_views(r@) == wrapped(text@, max_width as nat),
{
    let mut lines: Vec<String> = Vec::new();
    if max_width == 0 {
        lines.push(String::from_str(text));
        assert(line_views(lines@) =~= seq![text@]);
        return lines;
    }
    let chars = chars_of(text);
    let words = split_words(&chars);
    let ghost ws = word_views(words@);
    let ghost width = max_width as int;
    let mut cur: Vec<char> = Vec::new();
    let mut k: usize = 0;
    proof {
        assert(line_views(lines@) + lines_from(ws, 0, width, cur@) =~= lines_from(
            ws,
            0,
            width,
            Seq::empty(),
        ));
    }
    while k < words.len()
        invariant
            k <= words@.len(),
            ws == word_views(words@),
            width == max_width,
            max_width > 0,
            line_views(lines@) + lines_from(ws, k as int, width, cur@) == lines_from(
                ws,
                0,
                width,
                Seq::empty(),
            ),
        decreases words@.len() - k,
    {
        let word = &words[k];
        let ghost w = word@;
        let ghost done = line_views(lines@);
        let ghost open = cur@;
        assert(ws[k as int] == w);
        if cur.len() == 0 {
            let mut from: usize = 0;
            proof {
                assert(w.subrange(0, w.len() as int) =~= w);
                assert(line_views(lines@) + full_chunks(w.subrange(0, w.len() as int), width)
                    =~= done + full_chunks(w, width));
            }
            while word.len() - from > max_width
                invariant
                    from <= word@.len(),
                    w == word@,
                    width == max_width,
                    max_width > 0,
                    line_views(lines@) + full_chunks(
                        w.subrange(from as int, w.len() as int),
                        width,
                    ) == done + full_chunks(w, width),
                    remainder(w.subrange(from as int, w.len() as int), width) == remainder(
                        w,
                        width,
                    ),
                decreases word@.len() - from,
            {
                let ghost before = line_views(lines@);
                let ghost rest = w.subrange(from as int, w.len() as int);
                lines.push(string_of_range(word, from, from + max_width));
                proof {
                    assert(rest.subrange(0, width) =~= w.subrange(from as int, from + width));
                    assert(rest.subrange(width, rest.len() as int) =~= w.subrange(
                        from + width,
                        w.len() as int,
                    ));
                    assert(line_views(lines@) =~= before + seq![rest.subrange(0, width)]);
                    assert(before + (seq![rest.subrange(0, width)] + full_chunks(
                        rest.subrange(width, rest.len() as int),
                        width,
                    )) =~= line_views(lines@) + full_chunks(
                        rest.subrange(width, rest.len() as int),
                        width,
                    ));
                }
                from += max_width;
            }
            let mut tail: Vec<char> = Vec::new();
            let mut j: usize = from;
            while j < word.len()
                invariant
                    from <= j <= word@.len(),
                    tail@ == word@.subrange(from as int, j as int),
                decreases word@.len() - j,
            {
                tail.push(word[j]);
                assert(word@.subrange(from as int, j + 1) =~= word@.subrange(
                    from as int,
                    j as int,
                ).push(word@[j as int]));
                j += 1;
            }
            cur = tail;
            proof {
                let rest = w.subrange(from as int, w.len() as int);
                assert(full_chunks(rest, width) =~= Seq::<Seq<char>>::empty());
                assert(remainder(rest, width) == rest);
                assert(line_views(lines@) =~= done + full_chunks(w, width));
                assert(done + (full_chunks(w, width) + lines_from(
                    ws,
                    k + 1,
                    width,
                    remainder(w, width),
                )) =~= line_views(lines@) + lines_from(ws, k + 1, width, cur@));
            }
        } else if word.len() < max_width && cur.len() < max_width - word.len() {
            cur.push(' ');
            let mut j: usize = 0;
            while j < word.len()
                invariant
                    j <= word@.len(),
                    cur@ == open + seq![' '] + word@.subrange(0, j as int),
                decreases word@.len() - j,
            {
                cur.push(word[j]);
                assert(word@.subrange(0, j + 1) =~= word@.subrange(0, j as int).push(
                    word@[j as int],
                ));
                j += 1;
            }
            assert(word@.subrange(0, word@.len() as int) =~= word@);
        } else {
            lines.push(string_of(&cur));
            let mut next: Vec<char> = Vec::new();
            let mut j: usize = 0;
            while j < word.len()
                invariant
                    j <= word@.len(),
                    next@ == word@.subrange(0, j as int),
                decreases word@.len() - j,
            {
                next.push(word[j]);
                assert(word@.subrange(0, j + 1) =~= word@.subrange(0, j as int).push(
                    word@[j as int],
                ));
                j += 1;
            }
            assert(word@.subrange(0, word@.len() as int) =~= word@);
            cur = next;
            proof {
                assert(line_views(lines@) =~= done + seq![open]);
                assert(done + (seq![open] + lines_from(ws, k + 1, width, w)) =~= line_views(
                    lines@,
                ) + lines_from(ws, k + 1, width, cur@));
            }
        }
        k += 1;
    }
    let ghost done = line_views(lines@);
    let ghost open = cur@;
    if cur.len() > 0 {
        lines.push(string_of(&cur));
        assert(line_views(lines@) =~= done + seq![open]);
    } else {
        assert(done + line_of(open) =~= done);
    }
    if lines.len() == 0 {
        lines.push(String::new());
        assert(line_views(lines@) =~= seq![Seq::<char>::empty()]);
    }
    lines
}

} // verus!
