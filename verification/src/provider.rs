//! The rules by which a declared package is resolved against the releases
//! that its host lists.

use crate::config::Package;
use crate::context::Context;
use crate::lock::installer::{archive_of, is_digit, is_extractable};
use crate::lock::{LockedPackage, Resolution};
use crate::text::{
    chars_of, contains_text, first_where, lemma_first_where_is, occurs_in, opt_text, same_text,
    string_of,
};
use crate::util::{join_path, joined_path};
use vstd::prelude::*;

verus! {

/// A file that a release offers for download.
#[derive(Debug)]
pub struct Asset {
    /// The file's name.
    pub name: String,
    /// The address that the file is downloaded from.
    pub download_url: String,
}

/// A release, as the host lists it.
#[derive(Debug)]
pub struct Release {
    /// The tag that the release goes by.
    pub tag: String,
    /// The files that the release offers.
    pub assets: Vec<Asset>,
}

/// The platform that assets are chosen for, by the words that name it in
/// file names.
#[derive(Debug)]
pub struct Platform {
    /// The operating system, such as `linux`.
    pub os: String,
    /// The processor architecture, such as `x86_64`.
    pub arch: String,
}

/// Why a package cannot be resolved from a listing.
#[derive(Debug, Clone, Copy, PartialEq, Eq, Structural)]
pub enum ResolveError {
    /// No release is listed that answers the version wanted.
    UnsatisfiableVersion,
    /// The release offers no asset for the platform.
    NoMatchingAsset,
}

/// The version that a tag stands for: the tag, without the `v` that many
/// tags put before the number.
pub open spec fn version_of(tag: Seq<char>) -> Seq<char> {
    if tag.len() >= 2 && tag[0] == 'v' && is_digit(tag[1]) {
        tag.skip(1)
    } else {
        tag
    }
}

/// Whether a release with this tag answers the version wanted: any does
/// where none is wanted, else the one whose tag stands for that version.
pub open spec fn answers(tag: Seq<char>, wanted: Option<Seq<char>>) -> bool {
    match wanted {
        None => true,
        Some(version) => version_of(tag) == version_of(version),
    }
}

/// Whether a file of this name is for the platform: the words for the
/// operating system and for the architecture both occur in it.
pub open spec fn fits(name: Seq<char>, os: Seq<char>, arch: Seq<char>) -> bool {
    occurs_in(name, os) && occurs_in(name, arch)
}

/// The asset that is chosen for the platform, by its position: the first
/// that fits and is an archive that can be unpacked; if there is none, the
/// first that fits.
pub open spec fn chosen_asset(assets: Seq<Asset>, os: Seq<char>, arch: Seq<char>) -> Option<int> {
    let best = first_where(
        assets,
        |a: Asset| fits(a.name@, os, arch) && archive_of(a.name@) is Some,
    );
    let any = first_where(assets, |a: Asset| fits(a.name@, os, arch));
    if best < assets.len() {
        Some(best)
    } else if any < assets.len() {
        Some(any)
    } else {
        None
    }
}

/// The release that is chosen, by its position: the first in the listing
/// that answers the version wanted. A listing puts the latest release first.
pub open spec fn chosen_release(releases: Seq<Release>, wanted: Option<Seq<char>>) -> Option<int> {
    let first = first_where(releases, |r: Release| answers(r.tag@, wanted));
    if first < releases.len() {
        Some(first)
    } else {
        None
    }
}

/// The version that a tag stands for.
pub fn tag_version(tag: &str) -> (out: String)
    ensures
        out@ == version_of(tag@),
{
    let v = chars_of(tag);
    if v.len() >= 2 && v[0] == 'v' && v[1] >= '0' && v[1] <= '9' {
        let out = string_of(&v, 1, v.len());
        assert(v@.subrange(1, v.len() as int) =~= tag@.skip(1));
        out
    } else {
        tag.to_owned()
    }
}

/// Whether a release with this tag answers the version wanted.
pub fn tag_answers(tag: &str, wanted: &Option<String>) -> (out: bool)
    ensures
        out == answers(tag@, opt_text(*wanted)),
{
    match wanted {
        None => true,
        Some(version) => {
            let a = tag_version(tag);
            let b = tag_version(version.as_str());
            same_text(a.as_str(), b.as_str())
        },
    }
}

/// Chooses the release for the version wanted: the latest, if none is
/// wanted, else the latest whose tag stands for it.
pub fn select_release(releases: &Vec<Release>, wanted: &Option<String>) -> (out: Option<usize>)
    ensures
        match out {
            Some(i) => chosen_release(releases@, opt_text(*wanted)) == Some(i as int) && i
                < releases.len(),
            None => chosen_release(releases@, opt_text(*wanted)) is None,
        },
{
    let ghost p = |r: Release| answers(r.tag@, opt_text(*wanted));
    let mut i: usize = 0;
    while i < releases.len()
        invariant
            i <= releases.len(),
            p == (|r: Release| answers(r.tag@, opt_text(*wanted))),
            forall|k: int| 0 <= k < i ==> !p(#[trigger] releases@[k]),
        decreases releases.len() - i,
    {
        if tag_answers(releases[i].tag.as_str(), wanted) {
            proof {
                lemma_first_where_is(releases@, p, i as int);
            }
            return Some(i);
        }
        i += 1;
    }
    proof {
        lemma_first_where_is(releases@, p, releases.len() as int);
    }
    None
}

/// Whether a file of this name is for the platform.
pub fn name_fits(name: &str, platform: &Platform) -> (out: bool)
    ensures
        out == fits(name@, platform.os@, platform.arch@),
{
    contains_text(name, platform.os.as_str()) && contains_text(name, platform.arch.as_str())
}

/// Chooses the asset for the platform: one whose name holds the words for
/// the operating system and the architecture. Among several, an archive
/// that can be unpacked goes before other files, and an earlier asset
/// before a later one.
pub fn select_asset(assets: &Vec<Asset>, platform: &Platform) -> (out: Option<usize>)
    ensures
        match out {
            Some(i) => chosen_asset(assets@, platform.os@, platform.arch@) == Some(i as int) && i
                < assets.len(),
            None => chosen_asset(assets@, platform.os@, platform.arch@) is None,
        },
{
    let ghost os = platform.os@;
    let ghost arch = platform.arch@;
    let ghost best = |a: Asset| fits(a.name@, os, arch) && archive_of(a.name@) is Some;
    let ghost any = |a: Asset| fits(a.name@, os, arch);
    let mut first: Option<usize> = None;
    let mut i: usize = 0;
    while i < assets.len()
        invariant
            i <= assets.len(),
            os == platform.os@,
            arch == platform.arch@,
            best == (|a: Asset| fits(a.name@, os, arch) && archive_of(a.name@) is Some),
            any == (|a: Asset| fits(a.name@, os, arch)),
            forall|k: int| 0 <= k < i ==> !best(#[trigger] assets@[k]),
            match first {
                Some(f) => f < i && any(assets@[f as int]) && forall|k: int|
                    0 <= k < f ==> !any(#[trigger] assets@[k]),
                None => forall|k: int| 0 <= k < i ==> !any(#[trigger] assets@[k]),
            },
        decreases assets.len() - i,
    {
        if name_fits(assets[i].name.as_str(), platform) {
            if is_extractable(assets[i].name.as_str()) {
                proof {
                    lemma_first_where_is(assets@, best, i as int);
                }
                return Some(i);
            }
            if first.is_none() {
                first = Some(i);
            }
        }
        i += 1;
    }
    proof {
        lemma_first_where_is(assets@, best, assets.len() as int);
        match first {
            Some(f) => lemma_first_where_is(assets@, any, f as int),
            None => lemma_first_where_is(assets@, any, assets.len() as int),
        }
    }
    first
}

/// What resolving `pkg` against a listing gives: the version of the chosen
/// release, and the name and address of the chosen asset.
pub open spec fn resolution_of(
    pkg: Package,
    releases: Seq<Release>,
    os: Seq<char>,
    arch: Seq<char>,
    out: Result<Resolution, ResolveError>,
) -> bool {
    match chosen_release(releases, opt_text(pkg.version)) {
        None => out == Err::<Resolution, ResolveError>(ResolveError::UnsatisfiableVersion),
        Some(r) => match chosen_asset(releases[r].assets@, os, arch) {
            None => out == Err::<Resolution, ResolveError>(ResolveError::NoMatchingAsset),
            Some(a) => {
                &&& out matches Ok(res)
                &&& res.version@ == version_of(releases[r].tag@)
                &&& res.filename == releases[r].assets@[a].name
                &&& res.download_url == Some(releases[r].assets@[a].download_url)
            },
        },
    }
}

/// Resolves a declared package against the releases that its host lists,
/// latest first, for a platform. The release is the latest, or the one that
/// the declaration asks for; the asset is the one chosen for the platform.
pub fn resolve(pkg: &Package, releases: &Vec<Release>, platform: &Platform) -> (out: Result<
    Resolution,
    ResolveError,
>)
    ensures
        resolution_of(*pkg, releases@, platform.os@, platform.arch@, out),
{
    let r = match select_release(releases, &pkg.version) {
        Some(r) => r,
        None => {
            return Err(ResolveError::UnsatisfiableVersion);
        },
    };
    let release = &releases[r];
    let a = match select_asset(&release.assets, platform) {
        Some(a) => a,
        None => {
            return Err(ResolveError::NoMatchingAsset);
        },
    };
    let asset = &release.assets[a];
    Ok(
        Resolution {
            version: tag_version(release.tag.as_str()),
            filename: asset.name.clone(),
            download_url: Some(asset.download_url.clone()),
        },
    )
}

/// Where a downloaded asset is kept: in the cache directory, under its file
/// name. Assets of different names do not meet there.
pub fn cache_path(ctx: &Context, filename: &str) -> (out: String)
    ensures
        out@ == joined_path(ctx.cache_dir@, filename@),
{
    join_path(ctx.cache_dir.as_str(), filename)
}

/// A download: what to fetch, and the file name to keep it under.
#[derive(Debug)]
pub struct Fetch {
    pub url: String,
    pub filename: String,
}

/// The download that installs a locked package again: of the recorded
/// address, under the recorded file name. It depends on the lock's entry
/// alone, whatever the host lists by now. An entry without an address
/// cannot be fetched.
pub fn fetch_pinned(lpkg: &LockedPackage) -> (out: Option<Fetch>)
    ensures
        match out {
            Some(fetch) => lpkg.download_url == Some(fetch.url) && fetch.filename == lpkg.filename,
            None => lpkg.download_url is None,
        },
{
    match &lpkg.download_url {
        Some(url) => Some(Fetch { url: url.clone(), filename: lpkg.filename.clone() }),
        None => None,
    }
}

} // verus!
