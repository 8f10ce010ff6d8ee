//! Resolved packages, the lock that records them, and the runs that fill it.

pub mod installer;

use crate::config::{lemma_sorted_names_differ, names, Config, Package, Source};
use crate::context::{status_text, Color, Context, Verbosity};
use crate::text::{first_where, lemma_first_where, lemma_first_where_is, opt_text, same_text};
use crate::util::fs_ext::{file_name_of, get_file_name_utf8};
use vstd::prelude::*;

verus! {

/// A package as it was resolved: with a concrete version, the asset that was
/// chosen for it, and where the asset came from.
#[derive(Debug)]
pub struct LockedPackage {
    pub name: String,
    pub version: String,
    pub source: Source,
    pub desc: Option<String>,
    pub filename: String,
    pub download_url: Option<String>,
}

impl Clone for LockedPackage {
    fn clone(&self) -> (out: Self)
        ensures
            out == *self,
    {
        LockedPackage {
            name: self.name.clone(),
            version: self.version.clone(),
            source: self.source.clone(),
            desc: self.desc.clone(),
            filename: self.filename.clone(),
            download_url: self.download_url.clone(),
        }
    }
}

/// What resolution adds to a declared package: the version that was found,
/// the asset that was chosen, and its address.
#[derive(Debug)]
pub struct Resolution {
    pub version: String,
    pub filename: String,
    pub download_url: Option<String>,
}

impl LockedPackage {
    /// The declared package `pkg`, resolved as `res` says.
    pub open spec fn resolved(pkg: Package, res: Resolution) -> LockedPackage {
        LockedPackage {
            name: pkg.name,
            version: res.version,
            source: pkg.source,
            desc: pkg.desc,
            filename: res.filename,
            download_url: res.download_url,
        }
    }

    /// The declaration that asks for this package afresh: the same name,
    /// source and description, and no version, so that the latest is meant.
    pub open spec fn unpinned_spec(self) -> Package {
        Package { name: self.name, version: None, source: self.source, desc: self.desc }
    }

    /// Records how a declared package was resolved. Name, source and
    /// description are the declared ones.
    pub fn new(pkg: &Package, res: Resolution) -> (out: LockedPackage)
        ensures
            out == Self::resolved(*pkg, res),
    {
        LockedPackage {
            name: pkg.name.clone(),
            version: res.version,
            source: pkg.source.clone(),
            desc: pkg.desc.clone(),
            filename: res.filename,
            download_url: res.download_url,
        }
    }

    /// The declaration that asks for this package afresh, without the
    /// version that it is locked to.
    pub fn unpinned(&self) -> (out: Package)
        ensures
            out == self.unpinned_spec(),
    {
        Package {
            name: self.name.clone(),
            version: None,
            source: self.source.clone(),
            desc: self.desc.clone(),
        }
    }

    /// The package and its version in one word, as a run reports it.
    pub open spec fn label(self) -> Seq<char> {
        self.name@ + "@"@ + self.version@
    }

    /// The package and its version in one word: `name@version`.
    pub fn to_label(&self) -> (out: String)
        ensures
            out@ == self.label(),
    {
        let mut out = self.name.clone();
        out.append("@");
        out.append(self.version.as_str());
        out
    }
}

/// Where a package stands in a run.
#[derive(Debug, Clone, Copy, PartialEq, Eq, Structural)]
pub enum PackageState {
    /// Declared in the configuration, and not resolved yet.
    Declared,
    /// Resolved and installed in this run: it enters the lock.
    Resolved,
    /// Recorded in the lock by an earlier run.
    Locked,
    /// Installed again as the lock records it.
    Installed,
    /// Failed in this run: the failure is noted, and a package that was to
    /// be resolved is absent from the lock.
    Failed,
}

/// What happens to a package in a run.
#[derive(Debug, Clone, Copy, PartialEq, Eq, Structural)]
pub enum PackageEvent {
    /// It was resolved afresh and installed.
    Resolved,
    /// It was fetched and installed as the lock records it.
    Restored,
    /// Resolving, fetching or installing it failed.
    Failed,
    /// An update asks for it to be resolved afresh.
    Updated,
}

impl PackageState {
    /// The state that an event leads to, if the event can occur in this
    /// state. A declared package is resolved or fails; a locked package is
    /// restored, fails, or is declared again by an update.
    pub open spec fn after(self, event: PackageEvent) -> Option<PackageState> {
        match (self, event) {
            (PackageState::Declared, PackageEvent::Resolved) => Some(PackageState::Resolved),
            (PackageState::Declared, PackageEvent::Failed) => Some(PackageState::Failed),
            (PackageState::Locked, PackageEvent::Restored) => Some(PackageState::Installed),
            (PackageState::Locked, PackageEvent::Failed) => Some(PackageState::Failed),
            (PackageState::Locked, PackageEvent::Updated) => Some(PackageState::Declared),
            _ => None,
        }
    }

    /// Whether a run is done with a package in this state.
    pub open spec fn is_final(self) -> bool {
        self is Resolved || self is Installed || self is Failed
    }

    /// The state that an event leads to, if the event can occur in this state.
    pub fn next(self, event: PackageEvent) -> (out: Option<PackageState>)
        ensures
            out == self.after(event),
    {
        match (self, event) {
            (PackageState::Declared, PackageEvent::Resolved) => Some(PackageState::Resolved),
            (PackageState::Declared, PackageEvent::Failed) => Some(PackageState::Failed),
            (PackageState::Locked, PackageEvent::Restored) => Some(PackageState::Installed),
            (PackageState::Locked, PackageEvent::Failed) => Some(PackageState::Failed),
            (PackageState::Locked, PackageEvent::Updated) => Some(PackageState::Declared),
            _ => None,
        }
    }
}

/// A run attempts each package once: an attempt ends in a final state, and
/// no event leads out of one. Only an update goes before an attempt.
pub proof fn lemma_states_end(state: PackageState, event: PackageEvent)
    ensures
        state.is_final() ==> state.after(event) is None,
        state.after(event) matches Some(next) ==> next.is_final() || (state is Locked && event
            is Updated && next is Declared),
{
}

/// The failure of one package in a run: the package's name, and the error
/// with its causes, outermost first.
#[derive(Debug)]
pub struct PackageError {
    pub name: String,
    pub chain: Vec<String>,
}

/// The names of locked packages, in order.
pub open spec fn locked_names(pkgs: Seq<LockedPackage>) -> Seq<Seq<char>> {
    pkgs.map_values(|p: LockedPackage| p.name@)
}

/// Whether no name is there twice.
pub open spec fn distinct(names: Seq<Seq<char>>) -> bool {
    forall|i: int, j: int| 0 <= i < j < names.len() ==> #[trigger] names[i] != #[trigger] names[j]
}

/// The test whether a name is `name`.
pub open spec fn is_name(name: Seq<char>) -> spec_fn(Seq<char>) -> bool {
    |n: Seq<char>| n == name
}

/// The position of the first name that is `name`, or the length if there is none.
pub open spec fn index_of(names: Seq<Seq<char>>, name: Seq<char>) -> int {
    first_where(names, is_name(name))
}

/// The packages with `p` among them: in the place of the package of its
/// name, if there is one, else at the end.
pub open spec fn with_pkg(pkgs: Seq<LockedPackage>, p: LockedPackage) -> Seq<LockedPackage> {
    let k = index_of(locked_names(pkgs), p.name@);
    if 0 <= k < pkgs.len() {
        pkgs.update(k, p)
    } else {
        pkgs.push(p)
    }
}

/// Adding a package keeps the names distinct.
pub proof fn lemma_with_pkg_distinct(pkgs: Seq<LockedPackage>, p: LockedPackage)
    requires
        distinct(locked_names(pkgs)),
    ensures
        distinct(locked_names(with_pkg(pkgs, p))),
        with_pkg(pkgs, p).contains(p),
{
    let ns = locked_names(pkgs);
    let k = index_of(ns, p.name@);
    lemma_first_where(ns, is_name(p.name@));
    let out = with_pkg(pkgs, p);
    if k < pkgs.len() {
        assert(locked_names(out) =~= ns);
        assert(out[k] == p);
    } else {
        let ms = locked_names(out);
        assert(ms =~= ns.push(p.name@));
        assert(out[pkgs.len() as int] == p);
        assert forall|i: int, j: int| 0 <= i < j < ms.len() implies #[trigger] ms[i]
            != #[trigger] ms[j] by {
            if j < ns.len() {
                assert(ms[i] == ns[i] && ms[j] == ns[j]);
            } else {
                assert(ms[i] == ns[i]);
                assert(!is_name(p.name@)(ns[i]));
            }
        }
    }
}

/// Whether the name at position `j` is the first that repeats an earlier one.
pub open spec fn first_repeat(names: Seq<Seq<char>>, j: int) -> bool {
    &&& 0 <= j < names.len()
    &&& distinct(names.take(j))
    &&& names.take(j).contains(names[j])
}

/// Names with a first repeat are not distinct, and there is one place only
/// that is the first repeat.
pub proof fn lemma_first_repeat(names: Seq<Seq<char>>, j: int, k: int)
    requires
        first_repeat(names, j),
    ensures
        !distinct(names),
        first_repeat(names, k) ==> k == j,
{
    let i = choose|i: int| 0 <= i < names.take(j).len() && names.take(j)[i] == names[j];
    assert(names[i] == names[j]);
    if first_repeat(names, k) && k != j {
        if j < k {
            assert(names.take(k)[i] == names[i] && names.take(k)[j] == names[j]);
        } else {
            let h = choose|h: int| 0 <= h < names.take(k).len() && names.take(k)[h] == names[k];
            assert(names.take(j)[h] == names[h] && names.take(j)[k] == names[k]);
        }
    }
}

/// Whether what is installed at `path` is stale: the path ends in a name,
/// and no locked package bears it.
pub open spec fn is_stale(locked: Seq<LockedPackage>, path: Seq<char>) -> bool {
    match file_name_of(path) {
        Some(name) => !locked_names(locked).contains(name),
        None => false,
    }
}

/// Those of `paths` at which something stale is installed, in order.
pub open spec fn stale_among(locked: Seq<LockedPackage>, paths: Seq<String>) -> Seq<String>
    decreases paths.len(),
{
    if paths.len() == 0 {
        Seq::empty()
    } else if is_stale(locked, paths.last()@) {
        stale_among(locked, paths.drop_last()).push(paths.last())
    } else {
        stale_among(locked, paths.drop_last())
    }
}

/// Why a list of locked packages is no lock.
#[derive(Debug)]
pub enum LockError {
    /// Two entries have this name.
    DuplicateName(String),
}

/// The lock: the packages that are installed, each name once, with the
/// context they were resolved in and the failures of the run that made it.
/// The failures belong to the run; they are no part of what is saved.
#[derive(Debug)]
pub struct LockedConfig {
    ctx: Context,
    pkgs: Vec<LockedPackage>,
    errors: Vec<PackageError>,
}

impl LockedConfig {
    #[verifier::type_invariant]
    spec fn names_distinct(self) -> bool {
        distinct(locked_names(self.pkgs@))
    }

    /// The context that the lock was resolved in.
    pub closed spec fn context(self) -> Context {
        self.ctx
    }

    /// The locked packages, in order.
    pub closed spec fn locked(self) -> Seq<LockedPackage> {
        self.pkgs@
    }

    /// The failures of the run, in the order in which they occurred.
    pub closed spec fn failures(self) -> Seq<PackageError> {
        self.errors@
    }

    /// An empty lock for the context `ctx`.
    pub fn new(ctx: &Context) -> (out: LockedConfig)
        ensures
            out.context() == *ctx,
            out.locked().len() == 0,
            out.failures().len() == 0,
    {
        LockedConfig { ctx: ctx.clone(), pkgs: Vec::new(), errors: Vec::new() }
    }

    /// The lock that holds `pkgs`, taken up in the context `ctx` of this run.
    /// A list in which a name occurs twice is no lock: the name of the first
    /// entry that repeats an earlier one is reported.
    pub fn load(ctx: &Context, pkgs: Vec<LockedPackage>) -> (out: Result<LockedConfig, LockError>)
        ensures
            match out {
                Ok(lcfg) => distinct(locked_names(pkgs@)) && lcfg.context() == *ctx
                    && lcfg.locked() == pkgs@ && lcfg.failures().len() == 0,
                Err(LockError::DuplicateName(name)) => exists|j: int|
                    first_repeat(locked_names(pkgs@), j) && #[trigger] pkgs[j].name@ == name@,
            },
    {
        let ghost ns = locked_names(pkgs@);
        let mut j: usize = 0;
        while j < pkgs.len()
            invariant
                j <= pkgs.len(),
                ns == locked_names(pkgs@),
                distinct(ns.take(j as int)),
            decreases pkgs.len() - j,
        {
            let mut i: usize = 0;
            while i < j
                invariant
                    i <= j < pkgs.len(),
                    ns == locked_names(pkgs@),
                    distinct(ns.take(j as int)),
                    forall|a: int| 0 <= a < i ==> #[trigger] ns[a] != ns[j as int],
                decreases j - i,
            {
                if same_text(pkgs[i].name.as_str(), pkgs[j].name.as_str()) {
                    proof {
                        assert(ns.take(j as int)[i as int] == ns[j as int]);
                        assert(ns[j as int] == pkgs@[j as int].name@);
                    }
                    return Err(LockError::DuplicateName(pkgs[j].name.clone()));
                }
                assert(ns[i as int] == pkgs@[i as int].name@);
                assert(ns[j as int] == pkgs@[j as int].name@);
                i += 1;
            }
            proof {
                let next = ns.take(j + 1);
                assert forall|a: int, b: int| 0 <= a < b < next.len() implies #[trigger] next[a]
                    != #[trigger] next[b] by {
                    if b < j {
                        assert(ns.take(j as int)[a] == next[a] && ns.take(j as int)[b] == next[b]);
                    }
                }
            }
            j += 1;
        }
        assert(ns.take(j as int) =~= ns);
        Ok(LockedConfig { ctx: ctx.clone(), pkgs, errors: Vec::new() })
    }

    /// The context that the lock was resolved in.
    pub fn ctx(&self) -> (out: &Context)
        ensures
            *out == self.context(),
    {
        &self.ctx
    }

    /// The locked packages: what a saved lock holds. No two have the same name.
    pub fn pkgs(&self) -> (out: &Vec<LockedPackage>)
        ensures
            out@ == self.locked(),
            distinct(locked_names(out@)),
    {
        proof {
            use_type_invariant(self);
        }
        &self.pkgs
    }

    /// What is written when the lock is saved: the context, with the place
    /// of the lock file in it, and the packages, no name twice. The failures
    /// of the run are not written.
    pub fn save(&self) -> (out: (&Context, &Vec<LockedPackage>))
        ensures
            *out.0 == self.context(),
            out.1@ == self.locked(),
            distinct(locked_names(out.1@)),
    {
        proof {
            use_type_invariant(self);
        }
        (&self.ctx, &self.pkgs)
    }

    /// The failures of the run that made this lock.
    pub fn errors(&self) -> (out: &Vec<PackageError>)
        ensures
            out@ == self.failures(),
    {
        &self.errors
    }

    /// Whether a package of this name is locked.
    pub fn has_pkg(&self, name: &str) -> (out: bool)
        ensures
            out == locked_names(self.locked()).contains(name@),
    {
        let ghost ns = locked_names(self.pkgs@);
        let mut i: usize = 0;
        while i < self.pkgs.len()
            invariant
                i <= self.pkgs.len(),
                ns == locked_names(self.pkgs@),
                forall|k: int| 0 <= k < i ==> #[trigger] ns[k] != name@,
            decreases self.pkgs.len() - i,
        {
            assert(ns[i as int] == self.pkgs@[i as int].name@);
            if same_text(self.pkgs[i].name.as_str(), name) {
                return true;
            }
            i += 1;
        }
        false
    }

    /// Tells which of the installed things are left over: those of `installed`,
    /// the paths of what is installed, that end in a name that no locked
    /// package bears. A cleanup removes them.
    pub fn stale(&self, installed: &Vec<String>) -> (out: Vec<String>)
        ensures
            out@ == stale_among(self.locked(), installed@),
    {
        let mut out: Vec<String> = Vec::new();
        let mut i: usize = 0;
        while i < installed.len()
            invariant
                i <= installed.len(),
                out@ == stale_among(self.locked(), installed@.take(i as int)),
            decreases installed.len() - i,
        {
            proof {
                assert(installed@.take(i + 1).drop_last() == installed@.take(i as int));
                assert(installed@.take(i + 1).last() == installed@[i as int]);
            }
            let left_over = match get_file_name_utf8(installed[i].as_str()) {
                Some(name) => !self.has_pkg(name.as_str()),
                None => false,
            };
            if left_over {
                out.push(installed[i].clone());
            }
            i += 1;
        }
        assert(installed@.take(i as int) == installed@);
        out
    }

    /// The exit status that the run ends with: 0 if no package failed, else 1.
    pub fn exit_code(&self) -> (out: u8)
        ensures
            out == (if self.failures().len() == 0 { 0u8 } else { 1u8 }),
    {
        if self.errors.len() == 0 {
            0
        } else {
            1
        }
    }

    /// Adds a package to the lock. A package of the same name gives way to it.
    pub fn add_pkg(&mut self, lpkg: LockedPackage)
        ensures
            final(self).locked() == with_pkg(old(self).locked(), lpkg),
            final(self).context() == old(self).context(),
            final(self).failures() == old(self).failures(),
    {
        proof {
            use_type_invariant(&*self);
        }
        let mut pkgs: Vec<LockedPackage> = Vec::new();
        core::mem::swap(&mut pkgs, &mut self.pkgs);
        let ghost ns = locked_names(pkgs@);
        let mut k: usize = 0;
        while k < pkgs.len() && !same_text(pkgs[k].name.as_str(), lpkg.name.as_str())
            invariant
                k <= pkgs.len(),
                ns == locked_names(pkgs@),
                forall|i: int| 0 <= i < k ==> !is_name(lpkg.name@)(#[trigger] ns[i]),
            decreases pkgs.len() - k,
        {
            assert(ns[k as int] == pkgs@[k as int].name@);
            k += 1;
        }
        proof {
            if k < pkgs.len() {
                assert(ns[k as int] == pkgs@[k as int].name@);
            }
            lemma_first_where_is(ns, is_name(lpkg.name@), k as int);
            lemma_with_pkg_distinct(pkgs@, lpkg);
        }
        if k < pkgs.len() {
            pkgs.set(k, lpkg);
        } else {
            pkgs.push(lpkg);
        }
        core::mem::swap(&mut pkgs, &mut self.pkgs);
    }

    /// Notes the failure of a package in this run.
    pub fn add_error(&mut self, err: PackageError)
        ensures
            final(self).failures() == old(self).failures().push(err),
            final(self).locked() == old(self).locked(),
            final(self).context() == old(self).context(),
    {
        proof {
            use_type_invariant(&*self);
        }
        let mut errors: Vec<PackageError> = Vec::new();
        core::mem::swap(&mut errors, &mut self.errors);
        errors.push(err);
        core::mem::swap(&mut errors, &mut self.errors);
    }
}

/// Whether a run that is asked for `only` takes up the package named `name`:
/// every package if it is asked for none in particular, else the one named.
pub open spec fn selected(only: Option<Seq<char>>, name: Seq<char>) -> bool {
    match only {
        None => true,
        Some(wanted) => wanted == name,
    }
}

/// Whether a run that is asked for `only` takes up the package named `name`.
pub fn is_selected(only: &Option<String>, name: &str) -> (out: bool)
    ensures
        out == selected(opt_text(*only), name@),
{
    match only {
        None => true,
        Some(wanted) => same_text(wanted.as_str(), name),
    }
}

/// The declarations that an update resolves afresh: of each locked package
/// that it takes up, in order, without the locked version.
pub open spec fn redeclared(pkgs: Seq<LockedPackage>, only: Option<Seq<char>>) -> Seq<Package>
    decreases pkgs.len(),
{
    if pkgs.len() == 0 {
        Seq::empty()
    } else if selected(only, pkgs.last().name@) {
        redeclared(pkgs.drop_last(), only).push(pkgs.last().unpinned_spec())
    } else {
        redeclared(pkgs.drop_last(), only)
    }
}

/// The locked packages that an update leaves as they are, in order.
pub open spec fn untouched(pkgs: Seq<LockedPackage>, only: Option<Seq<char>>) -> Seq<LockedPackage>
    decreases pkgs.len(),
{
    if pkgs.len() == 0 {
        Seq::empty()
    } else if selected(only, pkgs.last().name@) {
        untouched(pkgs.drop_last(), only)
    } else {
        untouched(pkgs.drop_last(), only).push(pkgs.last())
    }
}

/// An update splits the names of the lock: each is redeclared or untouched,
/// none both, and none is there twice.
pub proof fn lemma_update_split(pkgs: Seq<LockedPackage>, only: Option<Seq<char>>)
    requires
        distinct(locked_names(pkgs)),
    ensures
        distinct(names(redeclared(pkgs, only))),
        distinct(locked_names(untouched(pkgs, only))),
        forall|n: Seq<char>| #[trigger]
            names(redeclared(pkgs, only)).contains(n) ==> locked_names(pkgs).contains(n)
                && selected(only, n),
        forall|n: Seq<char>| #[trigger]
            locked_names(untouched(pkgs, only)).contains(n) ==> locked_names(pkgs).contains(n)
                && !selected(only, n),
    decreases pkgs.len(),
{
    let all = locked_names(pkgs);
    let re = names(redeclared(pkgs, only));
    let un = locked_names(untouched(pkgs, only));
    if pkgs.len() > 0 {
        let init = pkgs.drop_last();
        let last = pkgs.last();
        let n = pkgs.len() - 1;
        assert(locked_names(init) =~= all.drop_last());
        assert forall|i: int, j: int| 0 <= i < j < init.len() implies #[trigger] locked_names(
            init,
        )[i] != #[trigger] locked_names(init)[j] by {
            assert(all[i] == locked_names(init)[i] && all[j] == locked_names(init)[j]);
        }
        lemma_update_split(init, only);
        let re0 = names(redeclared(init, only));
        let un0 = locked_names(untouched(init, only));
        assert(all[n] == last.name@);
        // The last name is new to both parts.
        assert(!locked_names(init).contains(last.name@)) by {
            if locked_names(init).contains(last.name@) {
                let i = choose|i: int|
                    0 <= i < locked_names(init).len() && locked_names(init)[i] == last.name@;
                assert(all[i] == locked_names(init)[i]);
            }
        }
        assert forall|m: Seq<char>| locked_names(init).contains(m) implies all.contains(m) by {
            let i = choose|i: int| 0 <= i < locked_names(init).len() && locked_names(init)[i] == m;
            assert(all[i] == m);
        }
        if selected(only, last.name@) {
            assert(re =~= re0.push(last.name@));
            assert(un == un0);
            assert forall|i: int, j: int| 0 <= i < j < re.len() implies #[trigger] re[i]
                != #[trigger] re[j] by {
                if j < re0.len() {
                    assert(re[i] == re0[i] && re[j] == re0[j]);
                } else {
                    assert(re[i] == re0[i]);
                    assert(re0.contains(re0[i]));
                }
            }
            assert forall|m: Seq<char>| #[trigger] re.contains(m) implies all.contains(m)
                && selected(only, m) by {
                let i = choose|i: int| 0 <= i < re.len() && re[i] == m;
                if i < re0.len() {
                    assert(re0[i] == m);
                    assert(re0.contains(m));
                } else {
                    assert(all[n] == m);
                }
            }
        } else {
            assert(un =~= un0.push(last.name@));
            assert(re == re0);
            assert forall|i: int, j: int| 0 <= i < j < un.len() implies #[trigger] un[i]
                != #[trigger] un[j] by {
                if j < un0.len() {
                    assert(un[i] == un0[i] && un[j] == un0[j]);
                } else {
                    assert(un[i] == un0[i]);
                    assert(un0.contains(un0[i]));
                }
            }
            assert forall|m: Seq<char>| #[trigger] un.contains(m) implies all.contains(m)
                && !selected(only, m) by {
                let i = choose|i: int| 0 <= i < un.len() && un[i] == m;
                if i < un0.len() {
                    assert(un0[i] == m);
                    assert(un0.contains(m));
                } else {
                    assert(all[n] == m);
                }
            }
        }
    }
}

/// The event that the outcome of an attempt to resolve a package is.
pub open spec fn event_of(outcome: Result<Resolution, Vec<String>>) -> PackageEvent {
    match outcome {
        Ok(_) => PackageEvent::Resolved,
        Err(_) => PackageEvent::Failed,
    }
}

/// A run that resolves declared packages one after the other and gathers
/// what it locks. The failure of one package is noted and the run goes on.
#[derive(Debug)]
pub struct SyncRun {
    ctx: Context,
    declared: Vec<Package>,
    next: usize,
    locked: Vec<LockedPackage>,
    errors: Vec<PackageError>,
}

impl SyncRun {
    #[verifier::type_invariant]
    spec fn inv(self) -> bool {
        &&& self.next <= self.declared.len()
        &&& distinct(names(self.declared@))
        &&& distinct(locked_names(self.locked@))
        &&& forall|i: int|
            self.next <= i < self.declared.len() ==> !locked_names(self.locked@).contains(
                #[trigger] self.declared@[i].name@,
            )
    }

    /// The context of the run.
    pub closed spec fn context(self) -> Context {
        self.ctx
    }

    /// The packages that the run is to resolve, in order.
    pub closed spec fn declared(self) -> Seq<Package> {
        self.declared@
    }

    /// How many of the packages have been attempted.
    pub closed spec fn attempted(self) -> nat {
        self.next as nat
    }

    /// The packages locked so far, in order.
    pub closed spec fn locked(self) -> Seq<LockedPackage> {
        self.locked@
    }

    /// The failures so far, in order.
    pub closed spec fn failures(self) -> Seq<PackageError> {
        self.errors@
    }

    /// Where the package at position `i` stands: declared, until it is
    /// attempted; then resolved, if it is in the lock, and failed, if not.
    pub open spec fn state(self, i: int) -> PackageState {
        if i >= self.attempted() {
            PackageState::Declared
        } else if locked_names(self.locked()).contains(self.declared()[i].name@) {
            PackageState::Resolved
        } else {
            PackageState::Failed
        }
    }

    /// The package to attempt now; none once all have been attempted.
    pub fn current(&self) -> (out: Option<&Package>)
        ensures
            self.attempted() <= self.declared().len(),
            match out {
                Some(pkg) => self.attempted() < self.declared().len() && *pkg
                    == self.declared()[self.attempted() as int],
                None => self.attempted() == self.declared().len(),
            },
    {
        proof {
            use_type_invariant(self);
        }
        if self.next < self.declared.len() {
            Some(&self.declared[self.next])
        } else {
            None
        }
    }

    /// Notes how the attempt on the current package ended, and moves on to
    /// the next. A resolution locks the package, under its declared name; a
    /// failure is noted under that name, with its causes. Once all packages
    /// have been attempted, nothing is noted.
    pub fn record(&mut self, outcome: Result<Resolution, Vec<String>>)
        ensures
            final(self).context() == old(self).context(),
            final(self).declared() == old(self).declared(),
            old(self).attempted() >= old(self).declared().len() ==> *final(self) == *old(self),
            old(self).attempted() < old(self).declared().len() ==> {
                let pkg = old(self).declared()[old(self).attempted() as int];
                &&& final(self).attempted() == old(self).attempted() + 1
                &&& match outcome {
                    Ok(res) => {
                        &&& final(self).locked() == old(self).locked().push(
                            LockedPackage::resolved(pkg, res),
                        )
                        &&& final(self).failures() == old(self).failures()
                    },
                    Err(chain) => {
                        &&& final(self).locked() == old(self).locked()
                        &&& final(self).failures() == old(self).failures().push(
                            PackageError { name: pkg.name, chain },
                        )
                    },
                }
            },
            forall|i: int|
                0 <= i < old(self).declared().len() ==> #[trigger] final(self).state(i) == (if i
                    == old(self).attempted() {
                    old(self).state(i).after(event_of(outcome))->0
                } else {
                    old(self).state(i)
                }),
    {
        proof {
            use_type_invariant(&*self);
        }
        if self.next >= self.declared.len() {
            return ;
        }
        let ghost before = *self;
        match outcome {
            Ok(res) => {
                let lpkg = LockedPackage::new(&self.declared[self.next], res);
                let mut locked: Vec<LockedPackage> = Vec::new();
                core::mem::swap(&mut locked, &mut self.locked);
                proof {
                    let ns = locked_names(locked@);
                    let ms = locked_names(locked@.push(lpkg));
                    assert(ms =~= ns.push(lpkg.name@));
                    assert forall|i: int, j: int| 0 <= i < j < ms.len() implies #[trigger] ms[i]
                        != #[trigger] ms[j] by {
                        if j < ns.len() {
                            assert(ms[i] == ns[i] && ms[j] == ns[j]);
                        } else {
                            assert(ms[i] == ns[i]);
                            assert(ns.contains(ns[i]));
                        }
                    }
                    assert forall|i: int|
                        self.next + 1 <= i < self.declared.len() implies !ms.contains(
                        #[trigger] self.declared@[i].name@,
                    ) by {
                        let n = self.declared@[i].name@;
                        if ms.contains(n) {
                            let k = choose|k: int| 0 <= k < ms.len() && ms[k] == n;
                            if k < ns.len() {
                                assert(ns[k] == n);
                                assert(ns.contains(n));
                            } else {
                                let ds = names(self.declared@);
                                assert(ds[self.next as int] == lpkg.name@);
                                assert(ds[i] == n);
                            }
                        }
                    }
                }
                self.next = self.next + 1;
                locked.push(lpkg);
                core::mem::swap(&mut locked, &mut self.locked);
                proof {
                    let ns = locked_names(before.locked@);
                    let ms = locked_names(self.locked@);
                    let ds = names(before.declared@);
                    assert(ms =~= ns.push(lpkg.name@));
                    assert(ms[ns.len() as int] == lpkg.name@);
                    assert forall|i: int|
                        0 <= i < before.declared.len() implies #[trigger] self.state(i) == (if i
                        == before.next {
                        before.state(i).after(event_of(outcome))->0
                    } else {
                        before.state(i)
                    }) by {
                        let n = before.declared@[i].name@;
                        assert(ds[i] == n);
                        assert(ds[before.next as int] == lpkg.name@);
                        if i < before.next {
                            if ns.contains(n) {
                                let k = choose|k: int| 0 <= k < ns.len() && ns[k] == n;
                                assert(ms[k] == n);
                            }
                            if ms.contains(n) {
                                let k = choose|k: int| 0 <= k < ms.len() && ms[k] == n;
                                if k < ns.len() {
                                    assert(ns[k] == n);
                                }
                            }
                        }
                    }
                }
            },
            Err(chain) => {
                let err = PackageError { name: self.declared[self.next].name.clone(), chain };
                let mut errors: Vec<PackageError> = Vec::new();
                core::mem::swap(&mut errors, &mut self.errors);
                errors.push(err);
                core::mem::swap(&mut errors, &mut self.errors);
                self.next = self.next + 1;
            },
        }
    }

    /// The lock that the run has made, once every package has been
    /// attempted; before that there is none. It holds the packages that were
    /// locked, no name twice, and the failures of the run.
    pub fn finish(self) -> (out: Option<LockedConfig>)
        ensures
            out is Some <==> self.attempted() == self.declared().len(),
            out matches Some(lcfg) ==> {
                &&& lcfg.context() == self.context()
                &&& lcfg.locked() == self.locked()
                &&& lcfg.failures() == self.failures()
                &&& distinct(locked_names(lcfg.locked()))
            },
    {
        proof {
            use_type_invariant(&self);
        }
        if self.next < self.declared.len() {
            None
        } else {
            Some(LockedConfig { ctx: self.ctx, pkgs: self.locked, errors: self.errors })
        }
    }
}

/// Starts the run that resolves every package of a configuration afresh, in
/// the order of their names.
pub fn sync_packages(ctx: &Context, config: Config) -> (out: SyncRun)
    ensures
        out.context() == *ctx,
        out.declared() == config@,
        out.attempted() == 0,
        out.locked().len() == 0,
        out.failures().len() == 0,
{
    let declared = config.into_pkgs();
    proof {
        assert forall|i: int, j: int| 0 <= i < j < declared.len() implies #[trigger] names(
            declared@,
        )[i] != #[trigger] names(declared@)[j] by {
            lemma_sorted_names_differ(declared@, i, j);
        }
    }
    SyncRun { ctx: ctx.clone(), declared, next: 0, locked: Vec::new(), errors: Vec::new() }
}

/// Starts the run that resolves locked packages afresh: all of them, or the
/// one that `only` names. Each of these leaves the lock and is declared
/// again without its version; the others stay locked as they are.
pub fn update_packages(lcfg: LockedConfig, only: Option<String>) -> (out: SyncRun)
    ensures
        out.context() == lcfg.context(),
        out.declared() == redeclared(lcfg.locked(), opt_text(only)),
        out.attempted() == 0,
        out.locked() == untouched(lcfg.locked(), opt_text(only)),
        out.failures().len() == 0,
{
    proof {
        use_type_invariant(&lcfg);
    }
    let ghost all = lcfg.pkgs@;
    let ghost want = opt_text(only);
    let mut declared: Vec<Package> = Vec::new();
    let mut locked: Vec<LockedPackage> = Vec::new();
    let mut i: usize = 0;
    while i < lcfg.pkgs.len()
        invariant
            i <= lcfg.pkgs.len(),
            all == lcfg.pkgs@,
            want == opt_text(only),
            declared@ == redeclared(all.take(i as int), want),
            locked@ == untouched(all.take(i as int), want),
        decreases lcfg.pkgs.len() - i,
    {
        proof {
            assert(all.take(i + 1).drop_last() == all.take(i as int));
            assert(all.take(i + 1).last() == all[i as int]);
        }
        if is_selected(&only, lcfg.pkgs[i].name.as_str()) {
            declared.push(lcfg.pkgs[i].unpinned());
        } else {
            locked.push(lcfg.pkgs[i].clone());
        }
        i += 1;
    }
    proof {
        assert(all.take(i as int) == all);
        lemma_update_split(all, want);
        assert forall|i: int| 0 <= i < declared.len() implies !locked_names(locked@).contains(
            #[trigger] declared@[i].name@,
        ) by {
            let n = declared@[i].name@;
            assert(names(declared@)[i] == n);
            assert(names(declared@).contains(n));
        }
    }
    SyncRun { ctx: lcfg.ctx, declared, next: 0, locked, errors: Vec::new() }
}

/// The first package at or behind `from` that a run asked for `only` takes
/// up, by its position; the length if there is none.
pub open spec fn next_selected(pkgs: Seq<LockedPackage>, only: Option<Seq<char>>, from: int) -> int
    decreases pkgs.len() - from,
{
    if from < 0 || from >= pkgs.len() {
        pkgs.len() as int
    } else if selected(only, pkgs[from].name@) {
        from
    } else {
        next_selected(pkgs, only, from + 1)
    }
}

/// The names that failures are noted for, in order.
pub open spec fn failed_names(errors: Seq<PackageError>) -> Seq<Seq<char>> {
    errors.map_values(|e: PackageError| e.name@)
}

/// The event that the outcome of an attempt to restore a package is.
pub open spec fn restored(outcome: Result<(), Vec<String>>) -> PackageEvent {
    match outcome {
        Ok(_) => PackageEvent::Restored,
        Err(_) => PackageEvent::Failed,
    }
}

/// The run takes up no package between a position and the next that it takes up.
pub proof fn lemma_none_selected_between(
    pkgs: Seq<LockedPackage>,
    only: Option<Seq<char>>,
    from: int,
)
    requires
        0 <= from <= pkgs.len(),
    ensures
        from <= next_selected(pkgs, only, from) <= pkgs.len(),
        forall|i: int|
            from <= i < next_selected(pkgs, only, from) ==> !selected(only, #[trigger] pkgs[i].name@),
        next_selected(pkgs, only, from) < pkgs.len() ==> selected(
            only,
            pkgs[next_selected(pkgs, only, from)].name@,
        ),
    decreases pkgs.len() - from,
{
    if from < pkgs.len() && !selected(only, pkgs[from].name@) {
        lemma_none_selected_between(pkgs, only, from + 1);
    }
}

/// A run that installs locked packages again as the lock records them. The
/// lock stays as it is; the failure of one package is noted and the run goes on.
#[derive(Debug)]
pub struct RestoreRun {
    ctx: Context,
    pkgs: Vec<LockedPackage>,
    only: Option<String>,
    next: usize,
    errors: Vec<PackageError>,
}

impl RestoreRun {
    #[verifier::type_invariant]
    spec fn inv(self) -> bool {
        &&& self.next <= self.pkgs.len()
        &&& distinct(locked_names(self.pkgs@))
        &&& forall|k: int|
            0 <= k < self.errors.len() ==> index_of(
                locked_names(self.pkgs@),
                #[trigger] self.errors@[k].name@,
            ) < self.next
    }

    /// The context of the run.
    pub closed spec fn context(self) -> Context {
        self.ctx
    }

    /// The packages of the lock, in order.
    pub closed spec fn locked(self) -> Seq<LockedPackage> {
        self.pkgs@
    }

    /// The one package that the run is asked for, if it is asked for one.
    pub closed spec fn only(self) -> Option<Seq<char>> {
        opt_text(self.only)
    }

    /// The position from which the run goes on.
    pub closed spec fn position(self) -> int {
        self.next as int
    }

    /// The position of the package to attempt now; the length once none is left.
    pub open spec fn pending(self) -> int {
        next_selected(self.locked(), self.only(), self.position())
    }

    /// The failures so far, in order.
    pub closed spec fn failures(self) -> Seq<PackageError> {
        self.errors@
    }

    /// Where the package at position `i` stands: locked, until it is
    /// attempted, and if the run does not take it up; else failed, if a
    /// failure is noted for it, and installed, if not.
    pub open spec fn state(self, i: int) -> PackageState {
        if i >= self.position() || !selected(self.only(), self.locked()[i].name@) {
            PackageState::Locked
        } else if failed_names(self.failures()).contains(self.locked()[i].name@) {
            PackageState::Failed
        } else {
            PackageState::Installed
        }
    }

    /// The position of the package to attempt now.
    fn pending_index(&self) -> (out: usize)
        ensures
            out == self.pending(),
            self.next <= out <= self.pkgs.len(),
    {
        proof {
            use_type_invariant(self);
        }
        let mut i: usize = self.next;
        while i < self.pkgs.len() && !is_selected(&self.only, self.pkgs[i].name.as_str())
            invariant
                self.next <= i <= self.pkgs.len(),
                next_selected(self.pkgs@, opt_text(self.only), self.next as int) == next_selected(
                    self.pkgs@,
                    opt_text(self.only),
                    i as int,
                ),
            decreases self.pkgs.len() - i,
        {
            i += 1;
        }
        i
    }

    /// The package to attempt now; none once all that the run takes up have
    /// been attempted.
    pub fn current(&self) -> (out: Option<&LockedPackage>)
        ensures
            match out {
                Some(lpkg) => 0 <= self.pending() < self.locked().len() && *lpkg
                    == self.locked()[self.pending()],
                None => self.pending() == self.locked().len(),
            },
    {
        let i = self.pending_index();
        if i < self.pkgs.len() {
            Some(&self.pkgs[i])
        } else {
            None
        }
    }

    /// Notes how the attempt on the current package ended, and moves on. A
    /// failure is noted under the package's name, with its causes. The lock
    /// is not changed. Once no package is left, nothing is noted.
    pub fn record(&mut self, outcome: Result<(), Vec<String>>)
        ensures
            final(self).context() == old(self).context(),
            final(self).locked() == old(self).locked(),
            final(self).only() == old(self).only(),
            old(self).pending() >= old(self).locked().len() ==> *final(self) == *old(self),
            old(self).pending() < old(self).locked().len() ==> {
                let lpkg = old(self).locked()[old(self).pending()];
                &&& final(self).position() == old(self).pending() + 1
                &&& match outcome {
                    Ok(()) => final(self).failures() == old(self).failures(),
                    Err(chain) => final(self).failures() == old(self).failures().push(
                        PackageError { name: lpkg.name, chain },
                    ),
                }
            },
            forall|i: int|
                0 <= i < old(self).locked().len() ==> #[trigger] final(self).state(i) == (if i
                    == old(self).pending() {
                    old(self).state(i).after(restored(outcome))->0
                } else {
                    old(self).state(i)
                }),
    {
        proof {
            use_type_invariant(&*self);
        }
        let i = self.pending_index();
        if i >= self.pkgs.len() {
            return ;
        }
        let ghost before = *self;
        let ghost ns = locked_names(self.pkgs@);
        proof {
            lemma_none_selected_between(self.pkgs@, opt_text(self.only), self.next as int);
            assert forall|k: int| 0 <= k < ns.len() implies index_of(ns, #[trigger] ns[k]) == k by {
                lemma_first_where(ns, is_name(ns[k]));
                let f = index_of(ns, ns[k]);
                if f < k {
                    assert(ns[f] == ns[k]);
                }
            }
            assert(ns[i as int] == self.pkgs@[i as int].name@);
        }
        self.next = i + 1;
        match outcome {
            Ok(()) => {},
            Err(chain) => {
                let err = PackageError { name: self.pkgs[i].name.clone(), chain };
                let mut errors: Vec<PackageError> = Vec::new();
                core::mem::swap(&mut errors, &mut self.errors);
                errors.push(err);
                core::mem::swap(&mut errors, &mut self.errors);
            },
        }
        proof {
            let fs = failed_names(before.errors@);
            let gs = failed_names(self.errors@);
            assert forall|j: int| 0 <= j < before.pkgs.len() implies #[trigger] self.state(j) == (if j
                == before.pending() {
                before.state(j).after(restored(outcome))->0
            } else {
                before.state(j)
            }) by {
                let n = before.pkgs@[j].name@;
                assert(ns[j] == n);
                if fs.contains(n) {
                    let k = choose|k: int| 0 <= k < fs.len() && fs[k] == n;
                    assert(before.errors@[k].name@ == n);
                    assert(gs[k] == n);
                }
                if gs.contains(n) && !fs.contains(n) {
                    let k = choose|k: int| 0 <= k < gs.len() && gs[k] == n;
                    if k < fs.len() {
                        assert(fs[k] == n);
                    }
                }
                if outcome is Err && j == i {
                    assert(gs[fs.len() as int] == n);
                }
            }
        }
    }

    /// The lock, once every package that the run takes up has been
    /// attempted; before that there is none. Its packages are those that the
    /// run started with; the failures are those of the run.
    pub fn finish(self) -> (out: Option<LockedConfig>)
        ensures
            out is Some <==> self.pending() == self.locked().len(),
            out matches Some(lcfg) ==> {
                &&& lcfg.context() == self.context()
                &&& lcfg.locked() == self.locked()
                &&& lcfg.failures() == self.failures()
            },
    {
        proof {
            use_type_invariant(&self);
        }
        let i = self.pending_index();
        if i < self.pkgs.len() {
            None
        } else {
            Some(LockedConfig { ctx: self.ctx, pkgs: self.pkgs, errors: self.errors })
        }
    }
}

/// Starts the run that installs locked packages again: all of them, or the
/// one that `only` names. Failures of the run that made the lock are left behind.
pub fn restore_packages(lcfg: LockedConfig, only: Option<String>) -> (out: RestoreRun)
    ensures
        out.context() == lcfg.context(),
        out.locked() == lcfg.locked(),
        out.only() == opt_text(only),
        out.position() == 0,
        out.failures().len() == 0,
{
    proof {
        use_type_invariant(&lcfg);
    }
    RestoreRun { ctx: lcfg.ctx, pkgs: lcfg.pkgs, only, next: 0, errors: Vec::new() }
}

/// Whether `line` is what a run reports of a package that it has installed:
/// nothing if the run is quiet, else the status `Checked` with the package's label.
pub open spec fn checked_line(ctx: Context, lpkg: LockedPackage, line: Option<String>) -> bool {
    &&& line is Some <==> ctx.output.verbosity.rank() >= Verbosity::Normal.rank()
    &&& line matches Some(text) ==> status_text(
        ctx.output.no_color,
        Color::Cyan,
        "Checked"@,
        lpkg.label(),
        text@,
    )
}

/// What follows the installation of a freshly resolved package: the entry
/// for the lock, and the line to report.
pub fn sync_package(ctx: &Context, pkg: &Package, res: Resolution) -> (out: (
    LockedPackage,
    Option<String>,
))
    ensures
        out.0 == LockedPackage::resolved(*pkg, res),
        checked_line(*ctx, out.0, out.1),
{
    let lpkg = LockedPackage::new(pkg, res);
    let label = lpkg.to_label();
    let line = ctx.log_status("Checked", label.as_str());
    (lpkg, line)
}

/// What follows the installation of a locked package: the line to report.
pub fn restore_package(ctx: &Context, lpkg: &LockedPackage) -> (out: Option<String>)
    ensures
        checked_line(*ctx, *lpkg, out),
{
    let label = lpkg.to_label();
    ctx.log_status("Checked", label.as_str())
}

} // verus!
