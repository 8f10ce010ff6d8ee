//! Declared packages and where they come from.

use crate::lock::LockedPackage;
use crate::text::{
    first_where, lemma_first_where, lemma_first_where_is, lemma_text_lt_connected,
    lemma_text_lt_irreflexive, lemma_text_lt_transitive, opt_text, same_text, text_less, text_lt,
};
use vstd::prelude::*;
use vstd::std_specs::convert::FromSpecImpl;

verus! {

/// Where a package is hosted.
#[derive(Debug)]
pub enum Source {
    /// A GitHub repository, written `owner/repo`.
    Github { repo: String },
}

/// The mathematical value of a [`Source`].
pub enum SourceView {
    Github { repo: Seq<char> },
}

impl View for Source {
    type V = SourceView;

    open spec fn view(&self) -> SourceView {
        match self {
            Source::Github { repo } => SourceView::Github { repo: repo@ },
        }
    }
}

impl Clone for Source {
    fn clone(&self) -> (out: Self)
        ensures
            out == *self,
    {
        match self {
            Source::Github { repo } => Source::Github { repo: repo.clone() },
        }
    }
}

/// A key of the table that describes a source.
#[derive(Debug, Clone, Copy, PartialEq, Eq, Structural)]
pub enum Field {
    /// `source`: the tag that names the kind of host.
    Source,
    /// `repo`: the repository coordinate.
    Repo,
}

impl Field {
    /// The key as it is written in a table.
    pub open spec fn key(self) -> Seq<char> {
        match self {
            Field::Source => "source"@,
            Field::Repo => "repo"@,
        }
    }

    /// The field that a key names, if any.
    pub open spec fn of_key(key: Seq<char>) -> Option<Field> {
        if key == "source"@ {
            Some(Field::Source)
        } else if key == "repo"@ {
            Some(Field::Repo)
        } else {
            None
        }
    }

    /// Identifies a key of a source table.
    pub fn from_key(key: &str) -> (out: Option<Field>)
        ensures
            out == Field::of_key(key@),
    {
        if same_text(key, "source") {
            Some(Field::Source)
        } else if same_text(key, "repo") {
            Some(Field::Repo)
        } else {
            None
        }
    }
}

/// Why a table does not describe a source.
#[derive(Debug)]
pub enum SourceError {
    /// The table holds a key that is neither `source` nor `repo`.
    UnknownField(String),
    /// The table holds the same key twice.
    DuplicateField(Field),
    /// The table lacks a key that the kind of host needs.
    MissingField(Field),
    /// The `source` tag names no known kind of host.
    UnknownVariant(String),
}

/// The mathematical value of a [`SourceError`].
pub enum SourceErrorView {
    UnknownField(Seq<char>),
    DuplicateField(Field),
    MissingField(Field),
    UnknownVariant(Seq<char>),
}

impl View for SourceError {
    type V = SourceErrorView;

    open spec fn view(&self) -> SourceErrorView {
        match self {
            SourceError::UnknownField(k) => SourceErrorView::UnknownField(k@),
            SourceError::DuplicateField(f) => SourceErrorView::DuplicateField(*f),
            SourceError::MissingField(f) => SourceErrorView::MissingField(*f),
            SourceError::UnknownVariant(t) => SourceErrorView::UnknownVariant(t@),
        }
    }
}

/// The values met so far while a source table is read.
pub struct Seen {
    pub source: Option<Seq<char>>,
    pub repo: Option<Seq<char>>,
}

/// A table as a sequence of keys and values, in the order in which they are read.
pub type Table = Seq<(Seq<char>, Seq<char>)>;

/// The entries of a table by their views.
pub open spec fn table_of(entries: Seq<(String, String)>) -> Table {
    entries.map_values(|e: (String, String)| (e.0@, e.1@))
}

/// Reads the entries in order. The first entry with an unknown key, or with a
/// key that an earlier entry had, ends the reading with its error.
pub open spec fn scan(table: Table) -> Result<Seen, SourceErrorView>
    decreases table.len(),
{
    if table.len() == 0 {
        Ok(Seen { source: None, repo: None })
    } else {
        match scan(table.drop_last()) {
            Err(e) => Err(e),
            Ok(seen) => {
                let (key, value) = table.last();
                match Field::of_key(key) {
                    None => Err(SourceErrorView::UnknownField(key)),
                    Some(Field::Source) => if seen.source is Some {
                        Err(SourceErrorView::DuplicateField(Field::Source))
                    } else {
                        Ok(Seen { source: Some(value), repo: seen.repo })
                    },
                    Some(Field::Repo) => if seen.repo is Some {
                        Err(SourceErrorView::DuplicateField(Field::Repo))
                    } else {
                        Ok(Seen { source: seen.source, repo: Some(value) })
                    },
                }
            },
        }
    }
}

/// The source that the values of a table describe. A table without a tag
/// describes a GitHub repository.
pub open spec fn decide(seen: Seen) -> Result<SourceView, SourceErrorView> {
    let tag = match seen.source {
        Some(tag) => tag,
        None => "github"@,
    };
    if tag == "github"@ {
        match seen.repo {
            Some(repo) => Ok(SourceView::Github { repo }),
            None => Err(SourceErrorView::MissingField(Field::Repo)),
        }
    } else {
        Err(SourceErrorView::UnknownVariant(tag))
    }
}

/// What a table describes: a source, or the first error met.
pub open spec fn parse(table: Table) -> Result<SourceView, SourceErrorView> {
    match scan(table) {
        Err(e) => Err(e),
        Ok(seen) => decide(seen),
    }
}

/// A result of parsing by its views.
pub open spec fn parsed_view(r: Result<Source, SourceError>) -> Result<
    SourceView,
    SourceErrorView,
> {
    match r {
        Ok(s) => Ok(s@),
        Err(e) => Err(e@),
    }
}

/// Once reading has failed, later entries do not change the error.
pub proof fn lemma_scan_error_stays(table: Table, n: int)
    requires
        0 <= n <= table.len(),
        scan(table.take(n)) is Err,
    ensures
        scan(table) == scan(table.take(n)),
    decreases table.len() - n,
{
    if n == table.len() {
        assert(table.take(n) == table);
    } else {
        assert(table.take(n + 1).drop_last() == table.take(n));
        lemma_scan_error_stays(table, n + 1);
    }
}

/// A source as a table writes it: the tag first, then what the kind of host needs.
pub open spec fn written(source: SourceView) -> Table {
    match source {
        SourceView::Github { repo } => seq![
            (Field::Source.key(), "github"@),
            (Field::Repo.key(), repo),
        ],
    }
}

/// Each field is identified by its key.
pub proof fn lemma_field_of_key(field: Field)
    ensures
        Field::of_key(field.key()) == Some(field),
{
    reveal_strlit("source");
    reveal_strlit("repo");
    assert("source"@.len() == 6);
    assert("repo"@.len() == 4);
}

/// A source is read back from the table that writes it.
pub proof fn lemma_parse_written(source: SourceView)
    ensures
        parse(written(source)) == Ok::<SourceView, SourceErrorView>(source),
{
    let table = written(source);
    let first = table.drop_last();
    reveal_with_fuel(scan, 3);
    lemma_field_of_key(Field::Source);
    lemma_field_of_key(Field::Repo);
    assert(first.len() == 1 && first.drop_last().len() == 0);
    assert(first.last() == (Field::Source.key(), "github"@));
    assert(table.last() == (Field::Repo.key(), source->repo));
}

/// A table that holds a repository and no tag describes that repository on GitHub.
pub proof fn lemma_parse_without_tag(repo: Seq<char>)
    ensures
        parse(seq![(Field::Repo.key(), repo)]) == Ok::<SourceView, SourceErrorView>(
            SourceView::Github { repo },
        ),
{
    let table = seq![(Field::Repo.key(), repo)];
    reveal_with_fuel(scan, 2);
    lemma_field_of_key(Field::Repo);
    assert(table.drop_last().len() == 0);
    assert(table.last() == (Field::Repo.key(), repo));
}

impl Source {
    /// The source that a table of keys and values describes.
    ///
    /// The entries are taken in order. An unknown key and a repeated key are
    /// errors, reported for the first entry at fault. A table without
    /// `source` describes a GitHub repository; any tag but `github` is
    /// unknown; a GitHub source needs `repo`.
    pub fn from_entries(entries: &Vec<(String, String)>) -> (out: Result<Source, SourceError>)
        ensures
            parsed_view(out) == parse(table_of(entries@)),
    {
        let ghost table = table_of(entries@);
        let mut source: Option<String> = None;
        let mut repo: Option<String> = None;
        let mut i: usize = 0;
        while i < entries.len()
            invariant
                i <= entries.len(),
                table == table_of(entries@),
                scan(table.take(i as int)) == Ok::<Seen, SourceErrorView>(
                    Seen { source: opt_text(source), repo: opt_text(repo) },
                ),
            decreases entries.len() - i,
        {
            let key = &entries[i].0;
            let value = &entries[i].1;
            proof {
                assert(table.take(i + 1).drop_last() == table.take(i as int));
                assert(table.take(i + 1).last() == (key@, value@));
            }
            match Field::from_key(key.as_str()) {
                None => {
                    proof {
                        lemma_scan_error_stays(table, i + 1);
                    }
                    return Err(SourceError::UnknownField(key.clone()));
                },
                Some(Field::Source) => {
                    if source.is_some() {
                        proof {
                            lemma_scan_error_stays(table, i + 1);
                        }
                        return Err(SourceError::DuplicateField(Field::Source));
                    }
                    source = Some(value.clone());
                },
                Some(Field::Repo) => {
                    if repo.is_some() {
                        proof {
                            lemma_scan_error_stays(table, i + 1);
                        }
                        return Err(SourceError::DuplicateField(Field::Repo));
                    }
                    repo = Some(value.clone());
                },
            }
            i += 1;
        }
        assert(table.take(i as int) == table);
        let tag = match source {
            Some(tag) => tag,
            None => "github".to_owned(),
        };
        if same_text(tag.as_str(), "github") {
            match repo {
                Some(repo) => Ok(Source::Github { repo }),
                None => Err(SourceError::MissingField(Field::Repo)),
            }
        } else {
            Err(SourceError::UnknownVariant(tag))
        }
    }

    /// Whether this is the kind of source that a table without a tag describes.
    pub fn is_default(&self) -> (out: bool)
        ensures
            out == (*self is Github),
    {
        match self {
            Source::Github { .. } => true,
        }
    }

    /// The source in words: the host and the repository.
    pub open spec fn text(self) -> Seq<char> {
        match self {
            Source::Github { repo } => "github.com:"@ + repo@,
        }
    }

    /// The source in words.
    pub fn to_text(&self) -> (out: String)
        ensures
            out@ == self.text(),
    {
        match self {
            Source::Github { repo } => {
                let mut out = "github.com:".to_owned();
                out.append(repo.as_str());
                out
            },
        }
    }
}

/// A package as it is declared: by name, with a source, and maybe with the
/// version that is wanted. Without one the latest version is meant.
#[derive(Debug)]
pub struct Package {
    pub name: String,
    pub version: Option<String>,
    pub source: Source,
    pub desc: Option<String>,
}

impl Clone for Package {
    fn clone(&self) -> (out: Self)
        ensures
            out == *self,
    {
        Package {
            name: self.name.clone(),
            version: self.version.clone(),
            source: self.source.clone(),
            desc: self.desc.clone(),
        }
    }
}

impl Package {
    /// The package in words: its name, the version wanted or `latest`, and its source.
    pub open spec fn text(self) -> Seq<char> {
        self.name@ + "@"@ + (match self.version {
            Some(version) => version@,
            None => "latest"@,
        }) + " from "@ + self.source.text()
    }

    /// The package in words.
    pub fn to_text(&self) -> (out: String)
        ensures
            out@ == self.text(),
    {
        let mut out = self.name.clone();
        out.append("@");
        match &self.version {
            Some(version) => out.append(version.as_str()),
            None => out.append("latest"),
        }
        out.append(" from ");
        let source = self.source.to_text();
        out.append(source.as_str());
        out
    }

    /// Whether this is the package that an addition declares: of the
    /// repository `owner/repo`, under the name given or else under the
    /// repository's name, with the version and description given.
    pub open spec fn is_added(
        self,
        repo: (String, String),
        name: Option<String>,
        version: Option<String>,
        desc: Option<String>,
    ) -> bool {
        &&& self.name@ == match name {
            Some(name) => name@,
            None => repo.1@,
        }
        &&& self.version == version
        &&& self.source@ == (SourceView::Github { repo: repo.0@ + "/"@ + repo.1@ })
        &&& self.desc == desc
    }

    /// The package that an addition declares.
    pub fn added(
        repo: (String, String),
        name: Option<String>,
        version: Option<String>,
        desc: Option<String>,
    ) -> (out: Package)
        ensures
            out.is_added(repo, name, version, desc),
    {
        let (owner, repo_name) = repo;
        let mut coordinate = owner;
        coordinate.append("/");
        coordinate.append(repo_name.as_str());
        Package {
            name: match name {
                Some(name) => name,
                None => repo_name,
            },
            version,
            source: Source::Github { repo: coordinate },
            desc,
        }
    }

    /// This package under the name `name`.
    pub open spec fn named(self, name: String) -> Package {
        Package { name, version: self.version, source: self.source, desc: self.desc }
    }
}

impl FromSpecImpl<LockedPackage> for Package {
    open spec fn obeys_from_spec() -> bool {
        true
    }

    /// The declaration that a resolved package answers: the same name, source
    /// and description, and the resolved version as the one wanted.
    open spec fn from_spec(val: LockedPackage) -> Package {
        Package {
            name: val.name,
            version: Some(val.version),
            source: val.source,
            desc: val.desc,
        }
    }
}

impl From<LockedPackage> for Package {
    fn from(val: LockedPackage) -> (out: Package) {
        Package {
            name: val.name,
            version: Some(val.version),
            source: val.source,
            desc: val.desc,
        }
    }
}

/// The names of packages, in order.
pub open spec fn names(pkgs: Seq<Package>) -> Seq<Seq<char>> {
    pkgs.map_values(|p: Package| p.name@)
}

/// Whether each name comes before all that follow it. No name is then there twice.
pub open spec fn strictly_sorted(names: Seq<Seq<char>>) -> bool {
    forall|i: int, j: int|
        0 <= i < j < names.len() ==> text_lt(#[trigger] names[i], #[trigger] names[j])
}

/// The test whether a name does not come before `name`.
pub open spec fn not_before(name: Seq<char>) -> spec_fn(Seq<char>) -> bool {
    |n: Seq<char>| !text_lt(n, name)
}

/// The place of `name` among sorted names: the position of the first name
/// that does not come before it.
pub open spec fn position(names: Seq<Seq<char>>, name: Seq<char>) -> int {
    first_where(names, not_before(name))
}

/// The packages with `p` among them, at the place that its name has in the
/// order. A package of that name gives way to `p`.
pub open spec fn inserted(pkgs: Seq<Package>, p: Package) -> Seq<Package> {
    let k = position(names(pkgs), p.name@);
    if 0 <= k < pkgs.len() && pkgs[k].name@ == p.name@ {
        pkgs.update(k, p)
    } else {
        pkgs.insert(k, p)
    }
}

/// The packages that a table declares: each entry's package under the
/// entry's key, put in one after the other.
pub open spec fn declared(entries: Seq<(String, Package)>) -> Seq<Package>
    decreases entries.len(),
{
    if entries.len() == 0 {
        Seq::empty()
    } else {
        inserted(declared(entries.drop_last()), entries.last().1.named(entries.last().0))
    }
}

/// Putting a package among sorted ones leaves them sorted, with the package
/// among them, and every package of another name in its place in the order.
pub proof fn lemma_inserted(pkgs: Seq<Package>, p: Package)
    requires
        strictly_sorted(names(pkgs)),
    ensures
        strictly_sorted(names(inserted(pkgs, p))),
        inserted(pkgs, p).contains(p),
        forall|q: Package|
            q.name@ != p.name@ ==> (inserted(pkgs, p).contains(q) <==> pkgs.contains(q)),
{
    let ns = names(pkgs);
    let k = position(ns, p.name@);
    let out = inserted(pkgs, p);
    lemma_first_where(ns, not_before(p.name@));
    assert forall|i: int| 0 <= i < k implies text_lt(#[trigger] ns[i], p.name@) by {
        assert(!not_before(p.name@)(ns[i]));
    }
    if k < pkgs.len() && pkgs[k].name@ == p.name@ {
        assert(names(out) =~= ns);
        assert(out[k] == p);
        assert forall|q: Package| q.name@ != p.name@ implies (out.contains(q) <==> pkgs.contains(
            q,
        )) by {
            if out.contains(q) {
                let i = choose|i: int| 0 <= i < out.len() && out[i] == q;
                assert(pkgs[i] == q);
            }
            if pkgs.contains(q) {
                let i = choose|i: int| 0 <= i < pkgs.len() && pkgs[i] == q;
                assert(out[i] == q);
            }
        }
    } else {
        assert(names(out) =~= ns.insert(k, p.name@));
        assert(out[k] == p);
        let ms = names(out);
        assert forall|i: int, j: int| 0 <= i < j < ms.len() implies text_lt(
            #[trigger] ms[i],
            #[trigger] ms[j],
        ) by {
            if j < k {
                assert(ms[i] == ns[i] && ms[j] == ns[j]);
            } else if j == k {
                assert(ms[i] == ns[i]);
            } else {
                assert(ms[j] == ns[j - 1]);
                if k < ns.len() {
                    assert(ns[k] == pkgs[k].name@);
                    lemma_text_lt_connected(ns[k], p.name@);
                    if j - 1 > k {
                        lemma_text_lt_transitive(p.name@, ns[k], ns[j - 1]);
                    }
                }
                if i < k {
                    assert(ms[i] == ns[i]);
                    lemma_text_lt_transitive(ns[i], p.name@, ns[j - 1]);
                } else if i > k {
                    assert(ms[i] == ns[i - 1]);
                }
            }
        }
        assert forall|q: Package| q.name@ != p.name@ implies (out.contains(q) <==> pkgs.contains(
            q,
        )) by {
            if out.contains(q) {
                let i = choose|i: int| 0 <= i < out.len() && out[i] == q;
                if i < k {
                    assert(pkgs[i] == q);
                } else {
                    assert(pkgs[i - 1] == q);
                }
            }
            if pkgs.contains(q) {
                let i = choose|i: int| 0 <= i < pkgs.len() && pkgs[i] == q;
                if i < k {
                    assert(out[i] == q);
                } else {
                    assert(out[i + 1] == q);
                }
            }
        }
    }
}

/// The packages that a table declares are sorted by name.
pub proof fn lemma_declared_sorted(entries: Seq<(String, Package)>)
    ensures
        strictly_sorted(names(declared(entries))),
    decreases entries.len(),
{
    if entries.len() > 0 {
        lemma_declared_sorted(entries.drop_last());
        lemma_inserted(declared(entries.drop_last()), entries.last().1.named(entries.last().0));
    }
}

/// No two packages of a sorted sequence have the same name.
pub proof fn lemma_sorted_names_differ(pkgs: Seq<Package>, i: int, j: int)
    requires
        strictly_sorted(names(pkgs)),
        0 <= i < pkgs.len(),
        0 <= j < pkgs.len(),
        i != j,
    ensures
        pkgs[i].name@ != pkgs[j].name@,
{
    let ns = names(pkgs);
    assert(ns[i] == pkgs[i].name@ && ns[j] == pkgs[j].name@);
    lemma_text_lt_irreflexive(ns[i]);
    if i < j {
        assert(text_lt(ns[i], ns[j]));
    } else {
        assert(text_lt(ns[j], ns[i]));
    }
}

/// The packages that a configuration declares, kept in the order of their
/// names. Each name is there once.
#[derive(Debug)]
pub struct Config {
    pkgs: Vec<Package>,
}

impl View for Config {
    type V = Seq<Package>;

    /// The packages, in the order of their names.
    closed spec fn view(&self) -> Seq<Package> {
        self.pkgs@
    }
}

impl Config {
    #[verifier::type_invariant]
    spec fn sorted(self) -> bool {
        strictly_sorted(names(self.pkgs@))
    }

    /// A configuration without packages.
    pub fn new() -> (out: Config)
        ensures
            out@.len() == 0,
    {
        Config { pkgs: Vec::new() }
    }

    /// The packages, in the order of their names.
    pub fn pkgs(&self) -> (out: &Vec<Package>)
        ensures
            out@ == self@,
            strictly_sorted(names(out@)),
    {
        proof {
            use_type_invariant(self);
        }
        &self.pkgs
    }

    /// The packages, in the order of their names, handed over.
    pub fn into_pkgs(self) -> (out: Vec<Package>)
        ensures
            out@ == self@,
            strictly_sorted(names(out@)),
    {
        proof {
            use_type_invariant(&self);
        }
        self.pkgs
    }

    /// Declares `pkg` under `name`. A package that was declared under that
    /// name gives way to it.
    pub fn insert(&mut self, name: String, pkg: Package)
        ensures
            final(self)@ == inserted(old(self)@, pkg.named(name)),
    {
        proof {
            use_type_invariant(&*self);
        }
        let p = Package { name, version: pkg.version, source: pkg.source, desc: pkg.desc };
        let mut pkgs: Vec<Package> = Vec::new();
        core::mem::swap(&mut pkgs, &mut self.pkgs);
        let ghost ns = names(pkgs@);
        let mut k: usize = 0;
        while k < pkgs.len() && text_less(pkgs[k].name.as_str(), p.name.as_str())
            invariant
                k <= pkgs.len(),
                ns == names(pkgs@),
                forall|i: int| 0 <= i < k ==> !not_before(p.name@)(#[trigger] ns[i]),
            decreases pkgs.len() - k,
        {
            assert(ns[k as int] == pkgs@[k as int].name@);
            k += 1;
        }
        proof {
            if k < pkgs.len() {
                assert(ns[k as int] == pkgs@[k as int].name@);
            }
            lemma_first_where_is(ns, not_before(p.name@), k as int);
            lemma_inserted(pkgs@, p);
        }
        if k < pkgs.len() && same_text(pkgs[k].name.as_str(), p.name.as_str()) {
            pkgs.set(k, p);
        } else {
            pkgs.insert(k, p);
        }
        core::mem::swap(&mut pkgs, &mut self.pkgs);
    }

    /// The configuration that a table of packages declares. Each package
    /// goes by the key that it stands under.
    pub fn load(entries: Vec<(String, Package)>) -> (out: Config)
        ensures
            out@ == declared(entries@),
    {
        let mut out = Config::new();
        let mut entries = entries;
        let ghost all = entries@;
        let mut rest: Vec<(String, Package)> = Vec::new();
        // Take the entries off the end, so that they can be put in from the front.
        while entries.len() > 0
            invariant
                entries@ + rest@.reverse() =~= all,
            decreases entries.len(),
        {
            let e = entries.pop().unwrap();
            rest.push(e);
        }
        while rest.len() > 0
            invariant
                rest.len() <= all.len(),
                all.take(all.len() - rest.len()) + rest@.reverse() =~= all,
                out@ == declared(all.take(all.len() - rest.len())),
            decreases rest.len(),
        {
            let ghost done = all.take(all.len() - rest.len());
            let (name, pkg) = rest.pop().unwrap();
            proof {
                let next = all.take(all.len() - rest.len());
                assert(next.drop_last() =~= done);
                assert(next.last() == (name, pkg));
            }
            out.insert(name, pkg);
        }
        proof {
            assert(all.take(all.len() as int) =~= all);
        }
        out
    }
}

} // verus!
