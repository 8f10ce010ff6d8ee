//! Text utilities for messages, and the file-system rules of the installer.

pub mod fs_ext;

use crate::text::{
    chars_of, find_from, first_index, has_char, lemma_first_index, opt_text, string_of,
};
use vstd::prelude::*;

verus! {

/// The kinds of I/O failure that the rules of this crate tell apart.
#[derive(Debug, Clone, Copy, PartialEq, Eq, Structural)]
pub enum IoErrorKind {
    /// Nothing is at the path.
    NotFound,
    /// Something is at the path already.
    AlreadyExists,
    /// The operation is not permitted.
    PermissionDenied,
    /// Any other failure.
    Other,
}

/// The root cause of a failure: an I/O failure of some kind, or something else.
#[derive(Debug, Clone, Copy, PartialEq, Eq, Structural)]
pub enum Cause {
    Io(IoErrorKind),
    Other,
}

/// Whether a failure came from a file that is not there.
pub fn not_found_err(e: &Cause) -> (out: bool)
    ensures
        out == (*e == Cause::Io(IoErrorKind::NotFound)),
{
    match e {
        Cause::Io(IoErrorKind::NotFound) => true,
        _ => false,
    }
}

/// The emoji that a GitHub shortcode such as `rocket` names, if it names one.
/// The table of shortcodes is fixed, so the answer depends on the code alone.
pub uninterp spec fn shortcode_emoji(code: Seq<char>) -> Option<Seq<char>>;

/// Looks a shortcode up with `emojis::get_by_shortcode` and hands out the
/// emoji's text (`Emoji::as_str`). The lookup is a search in a constant table:
/// it returns the same emoji for the same code, and nothing for a code that
/// the table lacks.
#[verifier::external_body]
fn lookup_shortcode(code: &str) -> (out: Option<String>)
    ensures
        opt_text(out) == shortcode_emoji(code@),
{
    match emojis::get_by_shortcode(code) {
        Some(emoji) => Some(emoji.as_str().to_owned()),
        None => None,
    }
}

/// A text in which each `:shortcode:` that names an emoji is replaced by it.
///
/// The text is read from the left. Up to the first pair of colons nothing
/// changes. If the text between them names an emoji, the emoji takes the place
/// of the colons and the name, and reading goes on behind the second colon.
/// If it does not, the text before the second colon stays, and that colon may
/// open the next pair.
pub open spec fn emojified(s: Seq<char>) -> Seq<char>
    decreases s.len(),
{
    let i = first_index(s, ':');
    if 0 <= i < s.len() {
        let m = i + 1;
        let n = m + first_index(s.skip(m), ':');
        if m <= n < s.len() {
            match shortcode_emoji(s.subrange(m, n)) {
                Some(emoji) => s.take(i) + emoji + emojified(s.skip(n + 1)),
                None => s.take(n) + emojified(s.skip(n)),
            }
        } else {
            s
        }
    } else {
        s
    }
}

/// A text with fewer than two colons has no shortcode in it and stays as it is.
pub proof fn lemma_emojified_without_pair(s: Seq<char>)
    requires
        !has_char(s, ':') || !has_char(s.skip(first_index(s, ':') + 1), ':'),
    ensures
        emojified(s) == s,
{
    lemma_first_index(s, ':');
    let i = first_index(s, ':');
    if i < s.len() {
        lemma_first_index(s.skip(i + 1), ':');
    }
}

/// Appends the characters `v[from..to]` to `out`.
fn push_range(out: &mut String, v: &Vec<char>, from: usize, to: usize)
    requires
        from <= to <= v.len(),
    ensures
        final(out)@ == old(out)@ + v@.subrange(from as int, to as int),
{
    let mut i: usize = from;
    while i < to
        invariant
            from <= i <= to <= v.len(),
            out@ == old(out)@ + v@.subrange(from as int, i as int),
        decreases to - i,
    {
        out.push(v[i]);
        i += 1;
        assert(out@ =~= old(out)@ + v@.subrange(from as int, i as int));
    }
    assert(out@ =~= old(out)@ + v@.subrange(from as int, to as int));
}

/// Writes what takes the place of the text from `pos` up to a pair of
/// colons, at `i` and `n`, given the emoji that the text between them names,
/// if it names one; and tells where reading goes on. With an emoji, the text
/// before the first colon and the emoji are written, and reading goes on
/// behind the second colon. Without, the text before the second colon is
/// written, and reading goes on at that colon.
pub fn replace_pair(
    out: &mut String,
    v: &Vec<char>,
    pos: usize,
    i: usize,
    n: usize,
    emoji: Option<String>,
) -> (next: usize)
    requires
        pos <= i < n < v.len(),
    ensures
        match emoji {
            Some(e) => next == n + 1 && final(out)@ == old(out)@ + v@.subrange(
                pos as int,
                i as int,
            ) + e@,
            None => next == n && final(out)@ == old(out)@ + v@.subrange(pos as int, n as int),
        },
{
    match emoji {
        Some(e) => {
            push_range(out, v, pos, i);
            out.append(e.as_str());
            n + 1
        },
        None => {
            push_range(out, v, pos, n);
            n
        },
    }
}

/// Texts that may hold emoji shortcodes.
pub trait Emojify {
    /// The text as a sequence of characters.
    spec fn text(&self) -> Seq<char>;

    /// Replaces each `:shortcode:` that names an emoji by the emoji.
    fn emojify(&self) -> (out: String)
        ensures
            out@ == emojified(self.text()),
    ;
}

impl Emojify for str {
    open spec fn text(&self) -> Seq<char> {
        self@
    }

    fn emojify(&self) -> (out: String) {
        let v = chars_of(self);
        let len = v.len();
        let mut out = String::new();
        let mut pos: usize = 0;
        proof {
            assert(v@.skip(0) =~= v@);
            assert(out@ + emojified(v@) =~= emojified(v@));
        }
        loop
            invariant
                pos <= len == v.len(),
                v@ == self@,
                emojified(v@) == out@ + emojified(v@.skip(pos as int)),
            ensures
                pos <= len == v.len(),
                v@ == self@,
                emojified(v@) == out@ + v@.skip(pos as int),
            decreases len - pos,
        {
            let ghost rest = v@.skip(pos as int);
            let i = find_from(&v, pos, ':');
            if i >= len {
                break;
            }
            let m = i + 1;
            let n = find_from(&v, m, ':');
            proof {
                assert(rest.skip(m - pos) =~= v@.skip(m as int));
            }
            if n >= len {
                break;
            }
            let code = string_of(&v, m, n);
            proof {
                assert(rest.subrange(m - pos, n - pos) =~= v@.subrange(m as int, n as int));
                assert(rest.take(i - pos) =~= v@.subrange(pos as int, i as int));
                assert(rest.take(n - pos) =~= v@.subrange(pos as int, n as int));
                assert(rest.skip(n - pos) =~= v@.skip(n as int));
                assert(rest.skip(n + 1 - pos) =~= v@.skip(n + 1));
            }
            let emoji = lookup_shortcode(code.as_str());
            pos = replace_pair(&mut out, &v, pos, i, n, emoji);
            proof {
                assert(emojified(v@) =~= out@ + emojified(v@.skip(pos as int)));
            }
        }
        proof {
            assert(v@.skip(pos as int) =~= v@.subrange(pos as int, len as int));
        }
        push_range(&mut out, &v, pos, len);
        out
    }
}

/// What is left of `path` once the path `base` is taken from its front, as
/// `std::path::Path::strip_prefix` gives it; nothing if `path` does not begin
/// with the components of `base`.
pub uninterp spec fn stripped_of(path: Seq<char>, base: Seq<char>) -> Option<Seq<char>>;

/// Takes `base` from the front of `path` with `std::path::Path::strip_prefix`.
/// The call fails exactly if `base` is no prefix of `path`; what it returns
/// depends on the two texts alone, and is text where they are.
#[verifier::external_body]
fn strip_prefix(path: &str, base: &str) -> (out: Option<String>)
    ensures
        opt_text(out) == stripped_of(path@, base@),
{
    match std::path::Path::new(path).strip_prefix(base) {
        Ok(rest) => Some(rest.to_string_lossy().into_owned()),
        Err(_) => None,
    }
}

/// The path `rest` below the path `base`, as `std::path::Path::join` writes it.
pub uninterp spec fn joined_path(base: Seq<char>, rest: Seq<char>) -> Seq<char>;

/// Puts `rest` below `base` with `std::path::Path::join`. What it returns
/// depends on the two texts alone, and is text where they are.
#[verifier::external_body]
pub(crate) fn join_path(base: &str, rest: &str) -> (out: String)
    ensures
        out@ == joined_path(base@, rest@),
{
    std::path::Path::new(base).join(rest).to_string_lossy().into_owned()
}

/// A path with `$HOME` in place of the home directory, if it lies in it.
pub open spec fn shortened(path: Seq<char>, home: Seq<char>) -> Seq<char> {
    match stripped_of(path, home) {
        Some(rest) => joined_path("$HOME"@, rest),
        None => path,
    }
}

/// Paths that can be written shorter for display.
pub trait Shorten {
    /// The path as a sequence of characters.
    spec fn path(&self) -> Seq<char>;

    /// Writes the path with `$HOME` in place of `home`, the home directory,
    /// if the path lies in it; else as it is.
    fn shorten(&self, home: &str) -> (out: String)
        ensures
            out@ == shortened(self.path(), home@),
    ;
}

impl Shorten for str {
    open spec fn path(&self) -> Seq<char> {
        self@
    }

    fn shorten(&self, home: &str) -> (out: String) {
        match strip_prefix(self, home) {
            Some(rest) => join_path("$HOME", rest.as_str()),
            None => self.to_owned(),
        }
    }
}

} // verus!
