//! The rules by which a downloaded asset becomes a linked executable.

use crate::context::Context;
use crate::lock::LockedPackage;
use crate::provider::cache_path;
use crate::text::{
    chars_of, ends_with, first_where, has_suffix, lemma_first_where_is, same_text, texts,
};
use crate::util::fs_ext::{common_prefix, detect_common_prefix};
use crate::util::{join_path, joined_path};
use vstd::prelude::*;

verus! {

/// The container that an asset comes in.
#[derive(Debug, Clone, Copy, PartialEq, Eq, Structural)]
pub enum Format {
    /// A tar archive compressed with gzip.
    TarGz,
    /// A tar archive compressed with xz.
    TarXz,
    /// A tar archive compressed with bzip2.
    TarBz2,
    /// A zip archive.
    Zip,
    /// No container: the asset is the executable.
    Binary,
}

/// Why a package cannot be installed from its asset.
#[derive(Debug, Clone, Copy, PartialEq, Eq, Structural)]
pub enum InstallError {
    /// The asset's name ends like a file of a kind that cannot be unpacked.
    UnsupportedFormat,
    /// No file bears the package's name, and the files do not single out one
    /// executable: there is none, or more than one.
    AmbiguousExecutable,
}

/// The archive format that a file name ends in, if it ends in one.
pub open spec fn archive_of(name: Seq<char>) -> Option<Format> {
    if ends_with(name, ".tar.gz"@) || ends_with(name, ".tgz"@) {
        Some(Format::TarGz)
    } else if ends_with(name, ".tar.xz"@) {
        Some(Format::TarXz)
    } else if ends_with(name, ".tar.bz2"@) {
        Some(Format::TarBz2)
    } else if ends_with(name, ".zip"@) {
        Some(Format::Zip)
    } else {
        None
    }
}

/// Whether `c` is a letter of the basic alphabet.
pub open spec fn is_letter(c: char) -> bool {
    ('a' <= c && c <= 'z') || ('A' <= c && c <= 'Z')
}

/// Whether `c` is a decimal digit.
pub open spec fn is_digit(c: char) -> bool {
    '0' <= c && c <= '9'
}

/// Whether a text reads as a file extension: letters and digits, with a
/// letter among them. The last part of a version number does not.
pub open spec fn reads_as_extension(ext: Seq<char>) -> bool {
    &&& forall|i: int| 0 <= i < ext.len() ==> is_letter(#[trigger] ext[i]) || is_digit(ext[i])
    &&& exists|i: int| 0 <= i < ext.len() && is_letter(#[trigger] ext[i])
}

/// The position of the last `c` in `s`, or -1 if there is none.
pub open spec fn last_index(s: Seq<char>, c: char) -> int
    decreases s.len(),
{
    if s.len() == 0 {
        -1
    } else if s.last() == c {
        s.len() - 1
    } else {
        last_index(s.drop_last(), c)
    }
}

/// Whether a file name has an extension: a dot, and behind the last dot a
/// text that reads as one.
pub open spec fn has_extension(name: Seq<char>) -> bool {
    last_index(name, '.') >= 0 && reads_as_extension(name.skip(last_index(name, '.') + 1))
}

/// The container that a file of this name comes in: the archive format that
/// the name ends in; no container, if the name has no extension; and none
/// that is known, otherwise.
pub open spec fn format_of(name: Seq<char>) -> Option<Format> {
    match archive_of(name) {
        Some(format) => Some(format),
        None => if has_extension(name) {
            None
        } else {
            Some(Format::Binary)
        },
    }
}

/// The archive format that a file name ends in, if it ends in one.
pub fn archive_format(filename: &str) -> (out: Option<Format>)
    ensures
        out == archive_of(filename@),
{
    if has_suffix(filename, ".tar.gz") || has_suffix(filename, ".tgz") {
        Some(Format::TarGz)
    } else if has_suffix(filename, ".tar.xz") {
        Some(Format::TarXz)
    } else if has_suffix(filename, ".tar.bz2") {
        Some(Format::TarBz2)
    } else if has_suffix(filename, ".zip") {
        Some(Format::Zip)
    } else {
        None
    }
}

/// Whether an asset of this name is an archive that can be unpacked.
pub fn is_extractable(filename: &str) -> (out: bool)
    ensures
        out == archive_of(filename@) is Some,
{
    archive_format(filename).is_some()
}

/// Whether a file name has an extension.
fn name_has_extension(filename: &str) -> (out: bool)
    ensures
        out == has_extension(filename@),
{
    let v = chars_of(filename);
    // Walk back from the end to the last dot.
    let mut i: usize = v.len();
    let mut letter = false;
    let mut clean = true;
    assert(v@.take(i as int) =~= v@);
    while i > 0 && v[i - 1] != '.'
        invariant
            i <= v.len(),
            v@ == filename@,
            last_index(v@, '.') == last_index(v@.take(i as int), '.'),
            clean == (forall|k: int|
                i <= k < v.len() ==> is_letter(#[trigger] v@[k]) || is_digit(v@[k])),
            letter == (exists|k: int| i <= k < v.len() && is_letter(#[trigger] v@[k])),
        decreases i,
    {
        let c = v[i - 1];
        let c_letter = (c >= 'a' && c <= 'z') || (c >= 'A' && c <= 'Z');
        let c_digit = c >= '0' && c <= '9';
        proof {
            assert(v@.take(i as int).drop_last() =~= v@.take(i - 1));
            assert(v@.take(i as int).last() == c);
            if letter || c_letter {
                let k = if c_letter {
                    i - 1
                } else {
                    choose|k: int| i <= k < v.len() && is_letter(#[trigger] v@[k])
                };
                assert(i - 1 <= k < v.len() && is_letter(v@[k]));
            }
        }
        if c_letter {
            letter = true;
        } else if !c_digit {
            clean = false;
        }
        i -= 1;
    }
    proof {
        if i > 0 {
            assert(v@.take(i as int).last() == '.');
            assert(last_index(v@, '.') == i - 1);
        } else {
            assert(last_index(v@, '.') == -1);
        }
        let ext = v@.skip(i as int);
        assert forall|k: int| 0 <= k < ext.len() implies ext[k] == v@[i + k] by {}
        if clean {
            assert forall|k: int| 0 <= k < ext.len() implies is_letter(#[trigger] ext[k])
                || is_digit(ext[k]) by {
                assert(is_letter(v@[i + k]) || is_digit(v@[i + k]));
            }
        } else {
            let k = choose|k: int|
                i <= k < v.len() && !(is_letter(#[trigger] v@[k]) || is_digit(v@[k]));
            assert(ext[k - i] == v@[k]);
        }
        if letter {
            let k = choose|k: int| i <= k < v.len() && is_letter(#[trigger] v@[k]);
            assert(is_letter(ext[k - i]));
        } else if reads_as_extension(ext) {
            let k = choose|k: int| 0 <= k < ext.len() && is_letter(#[trigger] ext[k]);
            assert(is_letter(v@[i + k]));
        }
    }
    i > 0 && clean && letter
}

/// Tells from an asset's name what container it comes in. A name that ends
/// like an archive that can be unpacked is that; a name without an extension
/// is a bare executable; any other name is refused.
pub fn detect_format(filename: &str) -> (out: Result<Format, InstallError>)
    ensures
        match out {
            Ok(format) => format_of(filename@) == Some(format),
            Err(e) => format_of(filename@) is None && e == InstallError::UnsupportedFormat,
        },
{
    match archive_format(filename) {
        Some(format) => Ok(format),
        None => if name_has_extension(filename) {
            Err(InstallError::UnsupportedFormat)
        } else {
            Ok(Format::Binary)
        },
    }
}

/// Where an installation reads and writes. Each place depends on the
/// directories of the run and on the package alone, so that a second
/// installation of the package uses the same.
#[derive(Debug)]
pub struct Plan {
    /// The container that the asset comes in.
    pub format: Format,
    /// The downloaded asset: in the cache directory, under its file name.
    pub asset: String,
    /// The directory that the asset is unpacked into: in the data directory,
    /// under the package's name. It is made afresh for each installation.
    pub dir: String,
    /// The link to the executable: in the binary directory, under the package's name.
    pub link: String,
}

impl Plan {
    /// Whether the plan's places are those of `lpkg` in the directories of `ctx`.
    pub open spec fn is_for(self, ctx: Context, lpkg: LockedPackage) -> bool {
        &&& format_of(lpkg.filename@) == Some(self.format)
        &&& self.asset@ == joined_path(ctx.cache_dir@, lpkg.filename@)
        &&& self.dir@ == joined_path(ctx.data_dir@, lpkg.name@)
        &&& self.link@ == joined_path(ctx.bin_dir@, lpkg.name@)
    }
}

/// Plans the installation of a locked package. It is refused if the asset's
/// name tells of a container that cannot be unpacked.
pub fn plan(ctx: &Context, lpkg: &LockedPackage) -> (out: Result<Plan, InstallError>)
    ensures
        match out {
            Ok(plan) => plan.is_for(*ctx, *lpkg),
            Err(e) => format_of(lpkg.filename@) is None && e == InstallError::UnsupportedFormat,
        },
{
    match detect_format(lpkg.filename.as_str()) {
        Ok(format) => Ok(
            Plan {
                format,
                asset: cache_path(ctx, lpkg.filename.as_str()),
                dir: join_path(ctx.data_dir.as_str(), lpkg.name.as_str()),
                link: join_path(ctx.bin_dir.as_str(), lpkg.name.as_str()),
            },
        ),
        Err(e) => Err(e),
    }
}

/// The directory that holds what was installed: the directory that the
/// asset was unpacked into, or, if all that was unpacked lies under one
/// directory in it, that directory.
pub open spec fn root_of_install(dir: Seq<char>, paths: Seq<Seq<char>>) -> Seq<char> {
    match common_prefix(paths) {
        Some(wrapper) => joined_path(dir, wrapper),
        None => dir,
    }
}

/// The directory that holds what was installed, given the directory that the
/// asset was unpacked into and the paths of what was unpacked, as the
/// archive names them. A directory that wraps all of them is stepped into.
pub fn install_root(dir: &str, paths: &Vec<String>) -> (out: String)
    ensures
        out@ == root_of_install(dir@, texts(paths@)),
{
    match detect_common_prefix(paths) {
        Some(wrapper) => join_path(dir, wrapper.as_str()),
        None => dir.to_owned(),
    }
}

/// A file in the directory of an installation.
#[derive(Debug)]
pub struct Entry {
    /// The file's name.
    pub name: String,
    /// Whether the file may be executed.
    pub executable: bool,
}

/// The file that is the package's executable, by its position among
/// `entries`: the first that bears the package's name, with the suffix that
/// executables have on the platform; or, if none does, the one file that
/// may be executed, if there is exactly one.
pub open spec fn located(name: Seq<char>, exe_suffix: Seq<char>, entries: Seq<Entry>) -> Option<
    int,
> {
    let named = first_where(entries, |e: Entry| e.name@ == name + exe_suffix);
    let first = first_where(entries, |e: Entry| e.executable);
    let rest = entries.skip(first + 1);
    if named < entries.len() {
        Some(named)
    } else if first < entries.len() && first_where(rest, |e: Entry| e.executable) == rest.len() {
        Some(first)
    } else {
        None
    }
}

/// Finds the package's executable among the files of its installation.
pub fn locate_executable(name: &str, exe_suffix: &str, entries: &Vec<Entry>) -> (out: Result<
    usize,
    InstallError,
>)
    ensures
        match out {
            Ok(i) => located(name@, exe_suffix@, entries@) == Some(i as int) && i < entries.len(),
            Err(e) => located(name@, exe_suffix@, entries@) is None && e
                == InstallError::AmbiguousExecutable,
        },
{
    let mut wanted = name.to_owned();
    wanted.append(exe_suffix);
    let ghost is_named = |e: Entry| e.name@ == name@ + exe_suffix@;
    let ghost is_exec = |e: Entry| e.executable;
    let mut i: usize = 0;
    while i < entries.len()
        invariant
            i <= entries.len(),
            wanted@ == name@ + exe_suffix@,
            is_named == (|e: Entry| e.name@ == name@ + exe_suffix@),
            forall|k: int| 0 <= k < i ==> !is_named(#[trigger] entries@[k]),
        decreases entries.len() - i,
    {
        if same_text(entries[i].name.as_str(), wanted.as_str()) {
            proof {
                lemma_first_where_is(entries@, is_named, i as int);
            }
            return Ok(i);
        }
        i += 1;
    }
    proof {
        lemma_first_where_is(entries@, is_named, entries.len() as int);
    }
    let mut first: usize = 0;
    while first < entries.len() && !entries[first].executable
        invariant
            first <= entries.len(),
            is_exec == (|e: Entry| e.executable),
            forall|k: int| 0 <= k < first ==> !is_exec(#[trigger] entries@[k]),
        decreases entries.len() - first,
    {
        first += 1;
    }
    proof {
        lemma_first_where_is(entries@, is_exec, first as int);
    }
    if first >= entries.len() {
        return Err(InstallError::AmbiguousExecutable);
    }
    let ghost rest = entries@.skip(first + 1);
    let mut j: usize = first + 1;
    while j < entries.len() && !entries[j].executable
        invariant
            first < j <= entries.len(),
            is_exec == (|e: Entry| e.executable),
            rest == entries@.skip(first + 1),
            forall|k: int| 0 <= k < j - first - 1 ==> !is_exec(#[trigger] rest[k]),
        decreases entries.len() - j,
    {
        assert(rest[j - first - 1] == entries@[j as int]);
        j += 1;
    }
    proof {
        if j < entries.len() {
            assert(rest[j - first - 1] == entries@[j as int]);
        }
        lemma_first_where_is(rest, is_exec, j - first - 1);
    }
    if j < entries.len() {
        Err(InstallError::AmbiguousExecutable)
    } else {
        Ok(first)
    }
}

} // verus!
