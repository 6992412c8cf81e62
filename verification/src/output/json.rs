//! JSON documents.
//!
//! The documents preserve the raw values libapt-pkg exposes — including the
//! local index file name — and never claim a canonical reconstruction of the
//! source entry beyond the base URI that libapt itself reports. They are
//! plain values here; the binary serializes them.
use vstd::prelude::*;

use crate::apt::{suite_package_count, PackageCounts, SuiteNameView};
use crate::output::human::{filter_suite, in_suite, suite_count};
use crate::query::{VersionRow, VersionRowView};
use crate::repository::{
    clone_indexes, distinct, distinct_some, fields, first_some, get_field, index_views,
    lemma_first_some_push, IndexField, RepoCatalog, RepoIndex, RepoIndexView, Repository,
    RepositoryView,
};
use crate::text::{clone_opt, clone_strings, opt_view, views};

verus! {

/// One package index, verbatim.
#[derive(Debug)]
pub struct RepoRef {
    /// Repository base URI as reported by libapt-pkg (trailing slash).
    pub uri: String,
    /// Hostname of the source URI, if any.
    pub site: Option<String>,
    /// Archive/Suite (e.g. `trixie`).
    pub archive: Option<String>,
    /// Codename (e.g. `trixie`).
    pub codename: Option<String>,
    /// Origin field from the Release file.
    pub origin: Option<String>,
    /// Label field from the Release file.
    pub label: Option<String>,
    /// Component (e.g. `main`).
    pub component: Option<String>,
    /// Architecture of the index (e.g. `amd64`).
    pub architecture: Option<String>,
    /// Local index file path under `/var/lib/apt/lists`.
    pub index_filename: String,
    /// Index type string from libapt-pkg.
    pub index_type: String,
}

/// The mathematical value of a [`RepoRef`].
pub struct RepoRefView {
    pub uri: Seq<char>,
    pub site: Option<Seq<char>>,
    pub archive: Option<Seq<char>>,
    pub codename: Option<Seq<char>>,
    pub origin: Option<Seq<char>>,
    pub label: Option<Seq<char>>,
    pub component: Option<Seq<char>>,
    pub architecture: Option<Seq<char>>,
    pub index_filename: Seq<char>,
    pub index_type: Seq<char>,
}

impl View for RepoRef {
    type V = RepoRefView;

    open spec fn view(&self) -> RepoRefView {
        RepoRefView {
            uri: self.uri@,
            site: opt_view(self.site),
            archive: opt_view(self.archive),
            codename: opt_view(self.codename),
            origin: opt_view(self.origin),
            label: opt_view(self.label),
            component: opt_view(self.component),
            architecture: opt_view(self.architecture),
            index_filename: self.index_filename@,
            index_type: self.index_type@,
        }
    }
}

/// The reference to an index: every field but the in-cache id.
pub open spec fn ref_of(x: RepoIndexView) -> RepoRefView {
    RepoRefView {
        uri: x.uri,
        site: x.site,
        archive: x.archive,
        codename: x.codename,
        origin: x.origin,
        label: x.label,
        component: x.component,
        architecture: x.arch,
        index_filename: x.filename,
        index_type: x.index_type,
    }
}

impl RepoRef {
    /// The reference to a package index.
    pub fn from_index(idx: &RepoIndex) -> (r: RepoRef)
        ensures
            r@ == ref_of(idx@),
    {
        RepoRef {
            uri: idx.uri.clone(),
            site: clone_opt(&idx.site),
            archive: clone_opt(&idx.archive),
            codename: clone_opt(&idx.codename),
            origin: clone_opt(&idx.origin),
            label: clone_opt(&idx.label),
            component: clone_opt(&idx.component),
            architecture: clone_opt(&idx.arch),
            index_filename: idx.filename.clone(),
            index_type: idx.index_type.clone(),
        }
    }
}

/// The views of a sequence of references.
pub open spec fn ref_views(s: Seq<RepoRef>) -> Seq<RepoRefView> {
    s.map_values(|r: RepoRef| r@)
}

/// A package version row.
#[derive(Debug)]
pub struct JsonVersion {
    /// Package name without architecture qualifier.
    pub name: String,
    /// Version string.
    pub version: String,
    /// Architecture of the version.
    pub architecture: String,
    /// Whether this version is the currently installed one (dpkg state).
    pub installed: bool,
    /// Repositories providing exactly this version. Absent when a `--repo`
    /// filter is active (the repository is reported once, at the top level).
    pub repositories: Option<Vec<RepoRef>>,
}

/// The mathematical value of a [`JsonVersion`].
pub struct JsonVersionView {
    pub name: Seq<char>,
    pub version: Seq<char>,
    pub architecture: Seq<char>,
    pub installed: bool,
    pub repositories: Option<Seq<RepoRefView>>,
}

impl View for JsonVersion {
    type V = JsonVersionView;

    open spec fn view(&self) -> JsonVersionView {
        JsonVersionView {
            name: self.name@,
            version: self.version@,
            architecture: self.architecture@,
            installed: self.installed,
            repositories: match self.repositories {
                Some(v) => Some(ref_views(v@)),
                None => None,
            },
        }
    }
}

/// The views of a sequence of JSON rows.
pub open spec fn json_version_views(s: Seq<JsonVersion>) -> Seq<JsonVersionView> {
    s.map_values(|v: JsonVersion| v@)
}

/// The JSON row of a version row, with or without its repositories.
pub open spec fn json_version_of(r: VersionRowView, with_repositories: bool) -> JsonVersionView {
    JsonVersionView {
        name: r.name,
        version: r.version,
        architecture: r.arch,
        installed: r.installed,
        repositories: if with_repositories {
            Some(r.repositories.map_values(|x: RepoIndexView| ref_of(x)))
        } else {
            None
        },
    }
}

fn json_version(r: &VersionRow, with_repositories: bool) -> (j: JsonVersion)
    ensures
        j@ == json_version_of(r@, with_repositories),
{
    let repositories = if with_repositories {
        let ghost rv = r@.repositories;
        let mut refs: Vec<RepoRef> = Vec::new();
        for k in 0..r.repositories.len()
            invariant
                rv == r@.repositories,
                ref_views(refs@) == rv.take(k as int).map_values(|x: RepoIndexView| ref_of(x)),
        {
            let ghost before = refs@;
            let x = RepoRef::from_index(&r.repositories[k]);
            assert(rv[k as int] == r.repositories@[k as int]@);
            refs.push(x);
            assert(ref_views(refs@) =~= ref_views(before).push(ref_of(rv[k as int])));
            assert(rv.take(k + 1).map_values(|x: RepoIndexView| ref_of(x)) =~= rv.take(
                k as int,
            ).map_values(|x: RepoIndexView| ref_of(x)).push(ref_of(rv[k as int])));
        }
        assert(rv.take(r.repositories.len() as int) =~= rv);
        Some(refs)
    } else {
        None
    };
    JsonVersion {
        name: r.name.clone(),
        version: r.version.clone(),
        architecture: r.arch.clone(),
        installed: r.installed,
        repositories,
    }
}

fn json_versions(rows: &[VersionRow], with_repositories: bool) -> (r: Vec<JsonVersion>)
    ensures
        json_version_views(r@) == rows@.map_values(
            |x: VersionRow| json_version_of(x@, with_repositories),
        ),
{
    let ghost want = rows@.map_values(|x: VersionRow| json_version_of(x@, with_repositories));
    let mut out: Vec<JsonVersion> = Vec::new();
    for i in 0..rows.len()
        invariant
            want == rows@.map_values(|x: VersionRow| json_version_of(x@, with_repositories)),
            json_version_views(out@) == want.take(i as int),
    {
        let ghost before = out@;
        let j = json_version(&rows[i], with_repositories);
        out.push(j);
        assert(json_version_views(out@) =~= json_version_views(before).push(want[i as int]));
    }
    assert(want.take(rows.len() as int) =~= want);
    out
}

/// One suite of a repository.
#[derive(Debug)]
pub struct JsonSuite {
    /// The suite (archive).
    pub archive: String,
    /// The first codename published for the suite.
    pub codename: Option<String>,
    /// Distinct components of the suite.
    pub components: Vec<String>,
    /// Distinct index architectures of the suite.
    pub architectures: Vec<String>,
    /// Number of distinct package names of the suite (`--repos` only).
    pub packages: Option<usize>,
}

/// The mathematical value of a [`JsonSuite`].
pub struct JsonSuiteView {
    pub archive: Seq<char>,
    pub codename: Option<Seq<char>>,
    pub components: Seq<Seq<char>>,
    pub architectures: Seq<Seq<char>>,
    pub packages: Option<nat>,
}

impl View for JsonSuite {
    type V = JsonSuiteView;

    open spec fn view(&self) -> JsonSuiteView {
        JsonSuiteView {
            archive: self.archive@,
            codename: opt_view(self.codename),
            components: views(self.components@),
            architectures: views(self.architectures@),
            packages: match self.packages {
                Some(n) => Some(n as nat),
                None => None,
            },
        }
    }
}

/// A repository with its per-suite detail.
#[derive(Debug)]
pub struct JsonRepository {
    /// Base URI of the repository.
    pub uri: String,
    /// Hostname of the repository, if any.
    pub site: Option<String>,
    /// The first origin published by its indexes.
    pub origin: Option<String>,
    /// The first label published by its indexes.
    pub label: Option<String>,
    /// One entry per suite.
    pub suites: Vec<JsonSuite>,
}

/// The mathematical value of a [`JsonRepository`].
pub struct JsonRepositoryView {
    pub uri: Seq<char>,
    pub site: Option<Seq<char>>,
    pub origin: Option<Seq<char>>,
    pub label: Option<Seq<char>>,
    pub suites: Seq<JsonSuiteView>,
}

/// The views of a sequence of suites.
pub open spec fn suite_views(s: Seq<JsonSuite>) -> Seq<JsonSuiteView> {
    s.map_values(|x: JsonSuite| x@)
}

impl View for JsonRepository {
    type V = JsonRepositoryView;

    open spec fn view(&self) -> JsonRepositoryView {
        JsonRepositoryView {
            uri: self.uri@,
            site: opt_view(self.site),
            origin: opt_view(self.origin),
            label: opt_view(self.label),
            suites: suite_views(self.suites@),
        }
    }
}

/// The views of a sequence of repositories.
pub open spec fn json_repository_views(s: Seq<JsonRepository>) -> Seq<JsonRepositoryView> {
    s.map_values(|x: JsonRepository| x@)
}

/// The detail of one suite of a repository; the package count only with
/// the counts.
pub open spec fn suite_of(
    r: RepositoryView,
    archive: Seq<char>,
    counts: Option<Seq<SuiteNameView>>,
) -> JsonSuiteView {
    let idx = in_suite(r.indexes, archive);
    JsonSuiteView {
        archive,
        codename: first_some(fields(idx, IndexField::Codename)),
        components: distinct_some(fields(idx, IndexField::Component)),
        architectures: distinct_some(fields(idx, IndexField::Arch)),
        packages: match counts {
            Some(es) => Some(suite_count(es, r.uri, Some(archive))),
            None => None,
        },
    }
}

/// The JSON form of a repository.
pub open spec fn repository_of(r: RepositoryView, counts: Option<Seq<SuiteNameView>>) -> JsonRepositoryView {
    JsonRepositoryView {
        uri: r.uri,
        site: r.site,
        origin: first_some(fields(r.indexes, IndexField::Origin)),
        label: first_some(fields(r.indexes, IndexField::Label)),
        suites: distinct_some(fields(r.indexes, IndexField::Archive)).map_values(
            |a: Seq<char>| suite_of(r, a, counts),
        ),
    }
}

/// The first present value of one field.
fn first(indexes: &Vec<RepoIndex>, f: IndexField) -> (r: Option<String>)
    ensures
        opt_view(r) == first_some(fields(index_views(indexes@), f)),
{
    let ghost all = fields(index_views(indexes@), f);
    let mut out: Option<String> = None;
    for k in 0..indexes.len()
        invariant
            all == fields(index_views(indexes@), f),
            opt_view(out) == first_some(all.take(k as int)),
    {
        proof {
            assert(all.take(k + 1) =~= all.take(k as int).push(all[k as int]));
            lemma_first_some_push(all.take(k as int), all[k as int]);
        }
        if out.is_none() {
            out = clone_opt(get_field(&indexes[k], f));
        }
    }
    assert(all.take(indexes.len() as int) =~= all);
    out
}

fn repository_json(repo: &Repository, counts: Option<&PackageCounts>) -> (r: JsonRepository)
    ensures
        r@ == repository_of(
            repo@,
            match counts {
                Some(c) => Some(c.entries()),
                None => None,
            },
        ),
{
    let ghost cv = match counts {
        Some(c) => Some(c.entries()),
        None => None,
    };
    let archives = repo.archives();
    let ghost av = views(archives@);
    let mut suites: Vec<JsonSuite> = Vec::new();
    for i in 0..archives.len()
        invariant
            av == views(archives@),
            cv == match counts {
                Some(c) => Some(c.entries()),
                None => None,
            },
            suite_views(suites@) == av.take(i as int).map_values(
                |a: Seq<char>| suite_of(repo@, a, cv),
            ),
    {
        let archive = &archives[i];
        assert(av[i as int] == archive@);
        let idx = filter_suite(&repo.indexes, archive);
        let packages = match counts {
            Some(c) => Some(suite_package_count(c, repo.uri.as_str(), Some(archive.as_str()))),
            None => None,
        };
        let s = JsonSuite {
            archive: archive.clone(),
            codename: first(&idx, IndexField::Codename),
            components: distinct(&idx, IndexField::Component),
            architectures: distinct(&idx, IndexField::Arch),
            packages,
        };
        assert(s@ == suite_of(repo@, archive@, cv));
        let ghost before = suites@;
        suites.push(s);
        assert(suite_views(suites@) =~= suite_views(before).push(s@));
        assert(av.take(i + 1).map_values(|a: Seq<char>| suite_of(repo@, a, cv)) =~= av.take(
            i as int,
        ).map_values(|a: Seq<char>| suite_of(repo@, a, cv)).push(suite_of(repo@, archive@, cv)));
    }
    assert(av.take(archives.len() as int) =~= av);
    JsonRepository {
        uri: repo.uri.clone(),
        site: clone_opt(&repo.site),
        origin: first(&repo.indexes, IndexField::Origin),
        label: first(&repo.indexes, IndexField::Label),
        suites,
    }
}

/// `{ "packages": [ ... ] }`.
#[derive(Debug)]
pub struct PackagesDocument {
    /// The rows, each with its repositories.
    pub packages: Vec<JsonVersion>,
}

/// `{ "repository": { ... }, "packages": [ ... ] }`.
#[derive(Debug)]
pub struct RepoPackagesDocument {
    /// The selected repository, reported once.
    pub repository: JsonRepository,
    /// The rows, without their repositories.
    pub packages: Vec<JsonVersion>,
}

/// `{ "repositories": [ ... ] }`.
#[derive(Debug)]
pub struct RepositoriesDocument {
    /// Every repository with its per-suite detail and package counts.
    pub repositories: Vec<JsonRepository>,
}

/// `--installed --json`, `--all --json` and package queries (without
/// `--repo`): every row carries its repositories and the installed flag.
pub fn versions(rows: &[VersionRow]) -> (r: PackagesDocument)
    ensures
        json_version_views(r.packages@) == rows@.map_values(|x: VersionRow| json_version_of(x@, true)),
{
    PackagesDocument { packages: json_versions(rows, true) }
}

/// `--repo <repo> --json` for `--installed` / `--all` / package queries: the
/// selected repository is reported once at the top level, so the rows omit
/// their (redundant) repositories.
pub fn for_repo(repository: &Repository, rows: &[VersionRow]) -> (r: RepoPackagesDocument)
    ensures
        r.repository@ == repository_of(repository@, None),
        json_version_views(r.packages@) == rows@.map_values(|x: VersionRow| json_version_of(x@, false)),
{
    RepoPackagesDocument {
        repository: repository_json(repository, None),
        packages: json_versions(rows, false),
    }
}

/// `--repos --json`: repositories grouped by URI, with per-suite detail
/// (including the number of distinct package names per suite).
pub fn repos(catalog: &RepoCatalog, package_counts: &PackageCounts) -> (r: RepositoriesDocument)
    ensures
        json_repository_views(r.repositories@) == catalog@.map_values(
            |x: RepositoryView| repository_of(x, Some(package_counts.entries())),
        ),
{
    let repositories = catalog.repositories();
    let ghost want = catalog@.map_values(
        |x: RepositoryView| repository_of(x, Some(package_counts.entries())),
    );
    let mut out: Vec<JsonRepository> = Vec::new();
    for i in 0..repositories.len()
        invariant
            want == catalog@.map_values(
                |x: RepositoryView| repository_of(x, Some(package_counts.entries())),
            ),
            catalog@ == crate::repository::repo_views(repositories@),
            json_repository_views(out@) == want.take(i as int),
    {
        let ghost before = out@;
        let j = repository_json(&repositories[i], Some(package_counts));
        assert(catalog@[i as int] == repositories@[i as int]@);
        out.push(j);
        assert(json_repository_views(out@) =~= json_repository_views(before).push(want[i as int]));
    }
    assert(want.take(repositories.len() as int) =~= want);
    RepositoriesDocument { repositories: out }
}

} // verus!
