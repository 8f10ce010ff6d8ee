//! Rules for paths, links and directories. Paths are those of Unix, with `/`
//! between their components.

use crate::text::{chars_of, opt_text, texts};
use crate::util::IoErrorKind;
use vstd::prelude::*;

verus! {

/// What is at the place of a link.
pub enum Dest {
    /// Nothing.
    Missing,
    /// A plain file.
    File,
    /// A symbolic link to the given path.
    Link(Seq<char>),
    /// A directory.
    Directory,
}

/// What removing the file at a place answers, and what is there afterwards.
/// A file or a link goes; where nothing is, that is the answer; a directory
/// is not a file.
pub open spec fn remove_file(dest: Dest) -> (Result<(), IoErrorKind>, Dest) {
    match dest {
        Dest::Missing => (Err(IoErrorKind::NotFound), Dest::Missing),
        Dest::File => (Ok(()), Dest::Missing),
        Dest::Link(_) => (Ok(()), Dest::Missing),
        Dest::Directory => (Err(IoErrorKind::Other), Dest::Directory),
    }
}

/// What making a link to `src` at a place answers, and what is there
/// afterwards. A link can be made only where nothing is.
pub open spec fn symlink(src: Seq<char>, dest: Dest) -> (Result<(), IoErrorKind>, Dest) {
    match dest {
        Dest::Missing => (Ok(()), Dest::Link(src)),
        _ => (Err(IoErrorKind::AlreadyExists), dest),
    }
}

/// Whether the link may be made once the removal has answered `removed`:
/// yes after a removal and where nothing was to remove, no after any other
/// failure, which is then the answer of the whole.
pub open spec fn may_link(removed: Result<(), IoErrorKind>) -> Result<(), IoErrorKind> {
    match removed {
        Ok(()) => Ok(()),
        Err(IoErrorKind::NotFound) => Ok(()),
        Err(kind) => Err(kind),
    }
}

/// Replacing what is at a place by a link to `src`: the file there is
/// removed, and if that went well, or nothing was there, the link is made.
pub open spec fn replace_link(src: Seq<char>, dest: Dest) -> (Result<(), IoErrorKind>, Dest) {
    let (removed, after) = remove_file(dest);
    match may_link(removed) {
        Ok(()) => symlink(src, after),
        Err(kind) => (Err(kind), after),
    }
}

/// The step between removing what is at the place of a link and making the
/// link. `removed` is the answer of the removal. `Ok` says to make the link
/// now; an error ends the replacement and is its answer. That nothing was
/// there to remove is no error.
pub fn symlink_force(removed: Result<(), IoErrorKind>) -> (out: Result<(), IoErrorKind>)
    ensures
        out == may_link(removed),
{
    match removed {
        Ok(()) => Ok(()),
        Err(IoErrorKind::NotFound) => Ok(()),
        Err(kind) => Err(kind),
    }
}

/// A link is put where nothing was, and in place of a plain file or of an
/// earlier link, without error. Only a directory stays in the way.
pub proof fn lemma_replace_link(src: Seq<char>, dest: Dest)
    ensures
        dest !is Directory ==> replace_link(src, dest) == (
            Ok::<(), IoErrorKind>(()),
            Dest::Link(src),
        ),
        dest is Directory ==> replace_link(src, dest).0 is Err && replace_link(src, dest).1 == dest,
{
}

/// Replacing a link a second time changes nothing and does not fail.
pub proof fn lemma_replace_link_again(src: Seq<char>, dest: Dest)
    requires
        replace_link(src, dest).0 is Ok,
    ensures
        replace_link(src, replace_link(src, dest).1) == replace_link(src, dest),
{
}

/// Whether a directory is there once its creation has answered `created`:
/// it is if the creation went well or found it there already.
pub open spec fn dir_ready(created: Result<(), IoErrorKind>) -> Result<(), IoErrorKind> {
    match created {
        Ok(()) => Ok(()),
        Err(IoErrorKind::AlreadyExists) => Ok(()),
        Err(kind) => Err(kind),
    }
}

/// The answer of making a directory with all its parents, given what the
/// creation answered: that the directory exists already is no error.
pub fn mkdir_p(created: Result<(), IoErrorKind>) -> (out: Result<(), IoErrorKind>)
    ensures
        out == dir_ready(created),
{
    match created {
        Ok(()) => Ok(()),
        Err(IoErrorKind::AlreadyExists) => Ok(()),
        Err(kind) => Err(kind),
    }
}

/// The last component of a path, as `std::path::Path::file_name` gives it:
/// the name of the file or directory, and nothing for a path that ends in
/// `..` or has no name at its end.
pub uninterp spec fn file_name_of(path: Seq<char>) -> Option<Seq<char>>;

/// The name at the end of a path, from `std::path::Path::file_name`. The
/// path is valid text, so the name is too; it depends on the path's text alone.
#[verifier::external_body]
pub fn get_file_name_utf8(path: &str) -> (out: Option<String>)
    ensures
        opt_text(out) == file_name_of(path@),
{
    match std::path::Path::new(path).file_name() {
        Some(name) => Some(name.to_string_lossy().into_owned()),
        None => None,
    }
}

/// The components of a path, in order and each as text, as
/// `std::path::Path::components` yields them: separators, repeated or
/// trailing, and `.` anywhere but in front are left out, and a leading
/// separator is a component of its own.
pub uninterp spec fn components_of(path: Seq<char>) -> Seq<Seq<char>>;

/// Splits a path with `std::path::Path::components` and hands out the text of
/// each component (`Component::as_os_str`). The path is valid text, so each
/// component is too. The components depend on the path's text alone.
#[verifier::external_body]
fn path_components(path: &str) -> (out: Vec<String>)
    ensures
        texts(out@) == components_of(path@),
{
    let mut out = Vec::new();
    for component in std::path::Path::new(path).components() {
        out.push(component.as_os_str().to_string_lossy().into_owned());
    }
    out
}

/// Whether a path is written as a directory: with a separator at its end.
pub open spec fn written_as_dir(path: Seq<char>) -> bool {
    path.len() > 0 && path.last() == '/'
}

/// The first of the components, if the path lies under it: if more components
/// follow, or if the path is that directory itself.
pub open spec fn root_among(components: Seq<Seq<char>>, is_dir: bool) -> Option<Seq<char>> {
    if components.len() >= 2 || (components.len() == 1 && is_dir) {
        Some(components[0])
    } else {
        None
    }
}

/// The top-level directory of a path: its first component, unless the path is
/// empty or a single file at the top level.
pub open spec fn top_level(path: Seq<char>) -> Option<Seq<char>> {
    root_among(components_of(path), written_as_dir(path))
}

/// Whether every one of `roots` is `root`.
pub open spec fn all_are(roots: Seq<Option<Seq<char>>>, root: Option<Seq<char>>) -> bool {
    forall|i: int| 0 <= i < roots.len() ==> #[trigger] roots[i] == root
}

/// The one value that all of `roots` are, if there is one and it is a directory.
pub open spec fn shared(roots: Seq<Option<Seq<char>>>) -> Option<Seq<char>> {
    if roots.len() > 0 && roots[0] is Some && all_are(roots, roots[0]) {
        roots[0]
    } else {
        None
    }
}

/// The directory under which all of `paths` lie, if there is one.
pub open spec fn common_prefix(paths: Seq<Seq<char>>) -> Option<Seq<char>> {
    shared(paths.map_values(|p: Seq<char>| top_level(p)))
}

/// Optional strings by their characters.
pub open spec fn opt_texts(v: Seq<Option<String>>) -> Seq<Option<Seq<char>>> {
    v.map_values(|o: Option<String>| opt_text(o))
}

/// The first of a path's components, if the path lies under it.
pub fn root_of(components: &Vec<String>, is_dir: bool) -> (out: Option<String>)
    ensures
        opt_text(out) == root_among(texts(components@), is_dir),
{
    if components.len() >= 2 || (components.len() == 1 && is_dir) {
        Some(components[0].clone())
    } else {
        None
    }
}

/// The one directory that all of `roots` name, if they agree on one.
pub fn agreed(roots: &Vec<Option<String>>) -> (out: Option<String>)
    ensures
        opt_text(out) == shared(opt_texts(roots@)),
{
    if roots.len() == 0 {
        return None;
    }
    let ghost all = opt_texts(roots@);
    let first = match &roots[0] {
        Some(first) => first,
        None => {
            return None;
        },
    };
    assert(all[0] == Some(first@));
    let mut i: usize = 1;
    while i < roots.len()
        invariant
            1 <= i <= roots.len(),
            all == opt_texts(roots@),
            all[0] == Some(first@),
            forall|j: int| 0 <= j < i ==> #[trigger] all[j] == Some(first@),
        decreases roots.len() - i,
    {
        let same = match &roots[i] {
            Some(other) => crate::text::same_text(other.as_str(), first.as_str()),
            None => false,
        };
        if !same {
            assert(all[i as int] != Some(first@));
            return None;
        }
        i += 1;
    }
    Some(first.clone())
}

/// Whether a path is written as a directory.
pub fn is_written_as_dir(path: &str) -> (out: bool)
    ensures
        out == written_as_dir(path@),
{
    let v = chars_of(path);
    v.len() > 0 && v[v.len() - 1] == '/'
}

/// The directory that wraps all of `paths`, if there is one.
///
/// Each path names its top-level directory: its first component, if it has
/// more than one or is written as a directory. The result is that directory
/// if there is at least one path and all name the same one. A file at the
/// top level, an empty path, or two paths under different directories leave
/// nothing in common.
pub fn detect_common_prefix(paths: &Vec<String>) -> (out: Option<String>)
    ensures
        opt_text(out) == common_prefix(texts(paths@)),
{
    let mut roots: Vec<Option<String>> = Vec::new();
    let mut i: usize = 0;
    while i < paths.len()
        invariant
            i <= paths.len(),
            roots.len() == i,
            forall|j: int| 0 <= j < i ==> opt_text(#[trigger] roots@[j]) == top_level(paths@[j]@),
        decreases paths.len() - i,
    {
        let path = paths[i].as_str();
        let components = path_components(path);
        let root = root_of(&components, is_written_as_dir(path));
        roots.push(root);
        i += 1;
    }
    assert(opt_texts(roots@) =~= texts(paths@).map_values(|p: Seq<char>| top_level(p)));
    agreed(&roots)
}

/// Paths that all lie under one directory have that directory as their prefix.
pub proof fn lemma_common_prefix_of_shared_dir(paths: Seq<Seq<char>>, dir: Seq<char>)
    requires
        paths.len() > 0,
        forall|i: int| 0 <= i < paths.len() ==> top_level(#[trigger] paths[i]) == Some(dir),
    ensures
        common_prefix(paths) == Some(dir),
{
    let roots = paths.map_values(|p: Seq<char>| top_level(p));
    assert(roots[0] == top_level(paths[0]));
    assert forall|i: int| 0 <= i < roots.len() implies #[trigger] roots[i] == roots[0] by {
        assert(roots[i] == top_level(paths[i]));
    }
}

/// Paths of which two differ at the top level have no prefix in common; nor
/// have paths of which one is a file at the top level.
pub proof fn lemma_no_common_prefix_when_diverging(paths: Seq<Seq<char>>, i: int, j: int)
    requires
        0 <= i < paths.len(),
        0 <= j < paths.len(),
        top_level(paths[i]) != top_level(paths[j]) || top_level(paths[i]) is None,
    ensures
        common_prefix(paths) is None,
{
    let roots = paths.map_values(|p: Seq<char>| top_level(p));
    assert(roots[i] == top_level(paths[i]));
    assert(roots[j] == top_level(paths[j]));
}

/// A detected prefix is the top-level directory of every path.
pub proof fn lemma_common_prefix_is_top_level(paths: Seq<Seq<char>>, i: int)
    requires
        common_prefix(paths) is Some,
        0 <= i < paths.len(),
    ensures
        top_level(paths[i]) == common_prefix(paths),
{
    let roots = paths.map_values(|p: Seq<char>| top_level(p));
    assert(roots[i] == top_level(paths[i]));
}

} // verus!
