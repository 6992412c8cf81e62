//! The in-memory result of one pass over the APT cache.
//!
//! The cache itself is read by the binary through `oma-apt`, exactly as
//! `apt list` sees it (`Package -> Version -> VersionFile -> PackageFile`);
//! what it reads is handed to [`CacheScan::from_records`] as plain records,
//! and everything decided from them is verified here.
mod records;
mod counts;

pub use records::{
    dl_indexes, package_from, with_versions, PackageRecord, PackageRecordView, VersionFileRecord,
    VersionFileRecordView, VersionRecord, VersionRecordView,
};
pub use counts::{
    count_entries, counted_names, has_count_entry, id_entries, suite_package_count,
    version_entries, PackageCounts, SuiteName, SuiteNameView,
};

use std::collections::BTreeMap;

use vstd::prelude::*;

use crate::repository::RepoIndex;
use crate::text::{chars_of, eq_chars, split_once, split_once_chars, str_eq};

verus! {

/// A single available (or installed) version of a package.
#[derive(Debug)]
pub struct ScannedVersion {
    /// Version string, e.g. `1.2.3-1`.
    pub version: String,
    /// Architecture of the version itself, e.g. `amd64` or `all`.
    pub arch: String,
    /// Whether this version is the currently installed one (dpkg state).
    pub installed: bool,
    /// Ids of the downloadable package indexes that carry exactly this
    /// version, increasing; empty if no repository in the cache provides the
    /// version (e.g. a locally installed .deb).
    pub index_ids: Vec<usize>,
}

/// The mathematical value of a [`ScannedVersion`].
pub struct ScannedVersionView {
    pub version: Seq<char>,
    pub arch: Seq<char>,
    pub installed: bool,
    pub index_ids: Seq<usize>,
}

impl View for ScannedVersion {
    type V = ScannedVersionView;

    open spec fn view(&self) -> ScannedVersionView {
        ScannedVersionView {
            version: self.version@,
            arch: self.arch@,
            installed: self.installed,
            index_ids: self.index_ids@,
        }
    }
}

/// One package record (a `(name, arch)` pair in dpkg terms) with all of its
/// known versions.
#[derive(Debug)]
pub struct ScannedPackage {
    /// Package name without architecture qualifier.
    pub name: String,
    /// Architecture of the package record (`amd64`, `i386`, `all`, ...).
    pub arch: String,
    /// Whether the package is marked as automatically installed, as used by
    /// `apt list --manual-installed`. Only meaningful when the package has an
    /// installed version.
    pub auto_installed: bool,
    /// All versions known to the cache, newest first (libapt order).
    pub versions: Vec<ScannedVersion>,
}

/// The views of a sequence of versions.
pub open spec fn version_views(s: Seq<ScannedVersion>) -> Seq<ScannedVersionView> {
    s.map_values(|v: ScannedVersion| v@)
}

/// The mathematical value of a [`ScannedPackage`].
pub struct ScannedPackageView {
    pub name: Seq<char>,
    pub arch: Seq<char>,
    pub auto_installed: bool,
    pub versions: Seq<ScannedVersionView>,
}

impl View for ScannedPackage {
    type V = ScannedPackageView;

    open spec fn view(&self) -> ScannedPackageView {
        ScannedPackageView {
            name: self.name@,
            arch: self.arch@,
            auto_installed: self.auto_installed,
            versions: version_views(self.versions@),
        }
    }
}

/// The views of a sequence of packages.
pub open spec fn package_views(s: Seq<ScannedPackage>) -> Seq<ScannedPackageView> {
    s.map_values(|p: ScannedPackage| p@)
}

/// Position of the first installed version.
pub open spec fn first_installed(vs: Seq<ScannedVersionView>) -> Option<int>
    decreases vs.len(),
{
    if vs.len() == 0 {
        None
    } else if vs.last().installed && !(first_installed(vs.drop_last()) is Some) {
        Some(vs.len() - 1)
    } else {
        first_installed(vs.drop_last())
    }
}

/// The installed version of a package, if any.
pub open spec fn installed_version_of(p: ScannedPackageView) -> Option<ScannedVersionView> {
    match first_installed(p.versions) {
        Some(i) => Some(p.versions[i]),
        None => None,
    }
}

/// Some version of the package has the given architecture (always true
/// without one).
pub open spec fn has_version_arch_spec(p: ScannedPackageView, arch: Option<Seq<char>>) -> bool {
    match arch {
        None => true,
        Some(a) => exists|i: int| 0 <= i < p.versions.len() && #[trigger] p.versions[i].arch == a,
    }
}

/// What a package query `name` or `name:arch` selects: the name, and the
/// architecture if one is given.
pub open spec fn query_parts(q: Seq<char>) -> (Seq<char>, Option<Seq<char>>) {
    match split_once(q, seq![':']) {
        Some((n, a)) => (n, Some(a)),
        None => (q, None),
    }
}

/// The package records that a query `name` or `name:arch` selects.
pub open spec fn packages_named(pkgs: Seq<ScannedPackageView>, q: Seq<char>) -> Seq<
    ScannedPackageView,
> {
    pkgs.filter(
        |p: ScannedPackageView|
            p.name == query_parts(q).0 && has_version_arch_spec(p, query_parts(q).1),
    )
}

/// Every package with an installed version, paired with that version.
pub open spec fn installed_pairs(pkgs: Seq<ScannedPackageView>) -> Seq<
    (ScannedPackageView, ScannedVersionView),
>
    decreases pkgs.len(),
{
    if pkgs.len() == 0 {
        seq![]
    } else {
        let prev = installed_pairs(pkgs.drop_last());
        match installed_version_of(pkgs.last()) {
            Some(v) => prev.push((pkgs.last(), v)),
            None => prev,
        }
    }
}

impl ScannedPackage {
    /// The version that is currently installed, if any.
    ///
    /// This always uses the *installed* version (dpkg state) and never the
    /// candidate or the "install" version from the depcache.
    pub fn installed_version(&self) -> (r: Option<&ScannedVersion>)
        ensures
            match r {
                Some(v) => installed_version_of(self@) == Some(v@),
                None => installed_version_of(self@) is None,
            },
    {
        let ghost vs = self@.versions;
        for i in 0..self.versions.len()
            invariant
                vs == self@.versions,
                first_installed(vs.take(i as int)) is None,
        {
            assert(vs.take(i + 1).drop_last() =~= vs.take(i as int));
            if self.versions[i].installed {
                proof {
                    lemma_first_installed_prefix(vs, i as int + 1);
                }
                return Some(&self.versions[i]);
            }
        }
        assert(vs.take(self.versions.len() as int) =~= vs);
        None
    }

    /// Some version of the package has the given architecture (always `true`
    /// without one).
    fn has_version_arch(&self, arch: &Option<Vec<char>>) -> (r: bool)
        ensures
            arch is None ==> r,
            forall|a: Vec<char>| *arch == Some(a) ==> r == has_version_arch_spec(self@, Some(a@)),
    {
        match arch {
            None => true,
            Some(a) => self.any_version_arch(a),
        }
    }

    /// Some version of the package has the given architecture.
    fn any_version_arch(&self, a: &Vec<char>) -> (r: bool)
        ensures
            r == has_version_arch_spec(self@, Some(a@)),
    {
        for i in 0..self.versions.len()
            invariant
                forall|k: int| 0 <= k < i ==> self@.versions[k].arch != a@,
        {
            assert(self@.versions[i as int] == self.versions@[i as int]@);
            if eq_chars(&chars_of(self.versions[i].arch.as_str()), a) {
                assert(self@.versions[i as int].arch == a@);
                return true;
            }
        }
        false
    }
}

/// `first_installed` of a prefix that ends with the first installed version.
proof fn lemma_first_installed_prefix(vs: Seq<ScannedVersionView>, n: int)
    requires
        0 < n <= vs.len(),
        vs[n - 1].installed,
        first_installed(vs.take(n - 1)) is None,
    ensures
        first_installed(vs) == Some(n - 1),
    decreases vs.len(),
{
    if vs.len() > n {
        assert(vs.drop_last().take(n) =~= vs.take(n));
        assert(vs.drop_last().take(n - 1) =~= vs.take(n - 1));
        lemma_first_installed_prefix(vs.drop_last(), n);
    } else {
        assert(vs.drop_last() =~= vs.take(n - 1));
    }
}

/// Result of a single pass over the whole APT cache.
#[derive(Debug)]
pub struct CacheScan {
    /// All downloadable package indexes (repositories) that provide at least
    /// one package version, keyed by their unique in-cache id.
    pub indexes: BTreeMap<usize, RepoIndex>,
    /// All package records that have at least one version.
    pub packages: Vec<ScannedPackage>,
    /// Which package names each repository suite provides.
    pub package_counts: PackageCounts,
}

impl CacheScan {
    /// All package records with the given name.
    ///
    /// A package name can have several records (`foo:amd64`, `foo:all`, ...);
    /// each record carries the versions of its own architecture. A query
    /// `name:arch` selects the records of that name with a version of that
    /// architecture.
    pub fn packages_by_name<'a>(&'a self, name: &str) -> (r: Vec<&'a ScannedPackage>)
        ensures
            r@.map_values(|p: &ScannedPackage| p@) == packages_named(
                package_views(self.packages@),
                name@,
            ),
    {
        let q = chars_of(name);
        let colon = vec![':'];
        assert(colon@ =~= seq![':']);
        let (n, arch): (Vec<char>, Option<Vec<char>>) = match split_once_chars(&q, &colon) {
            Some((n, a)) => (n, Some(a)),
            None => (q, None),
        };
        let ghost pv = package_views(self.packages@);
        let ghost pred = |p: ScannedPackageView|
            p.name == query_parts(name@).0 && has_version_arch_spec(p, query_parts(name@).1);
        let mut out: Vec<&'a ScannedPackage> = Vec::new();
        for i in 0..self.packages.len()
            invariant
                pv == package_views(self.packages@),
                n@ == query_parts(name@).0,
                match arch {
                    Some(a) => query_parts(name@).1 == Some(a@),
                    None => query_parts(name@).1 is None,
                },
                pred == (|p: ScannedPackageView|
                    p.name == query_parts(name@).0 && has_version_arch_spec(
                        p,
                        query_parts(name@).1,
                    )),
                out@.map_values(|p: &ScannedPackage| p@) == pv.take(i as int).filter(pred),
        {
            let ghost before = out@;
            proof {
                assert(pv.take(i + 1) =~= pv.take(i as int).push(pv[i as int]));
                pv.take(i as int).lemma_filter_push(pv[i as int], pred);
            }
            let p = &self.packages[i];
            if eq_chars(&chars_of(p.name.as_str()), &n) && p.has_version_arch(&arch) {
                out.push(p);
                assert(out@.map_values(|p: &ScannedPackage| p@) =~= before.map_values(
                    |p: &ScannedPackage| p@,
                ).push(pv[i as int]));
            }
        }
        assert(pv.take(self.packages.len() as int) =~= pv);
        out
    }

    /// All installed versions across all packages, each with its package.
    pub fn installed_versions(&self) -> (r: Vec<(&ScannedPackage, &ScannedVersion)>)
        ensures
            r@.map_values(|t: (&ScannedPackage, &ScannedVersion)| (t.0@, t.1@)) == installed_pairs(
                package_views(self.packages@),
            ),
    {
        let ghost pv = package_views(self.packages@);
        let mut out: Vec<(&ScannedPackage, &ScannedVersion)> = Vec::new();
        for i in 0..self.packages.len()
            invariant
                pv == package_views(self.packages@),
                out@.map_values(|t: (&ScannedPackage, &ScannedVersion)| (t.0@, t.1@))
                    == installed_pairs(pv.take(i as int)),
        {
            let ghost before = out@;
            assert(pv.take(i + 1).drop_last() =~= pv.take(i as int));
            let p = &self.packages[i];
            match p.installed_version() {
                Some(v) => {
                    out.push((p, v));
                    assert(out@.map_values(|t: (&ScannedPackage, &ScannedVersion)| (t.0@, t.1@))
                        =~= before.map_values(
                        |t: (&ScannedPackage, &ScannedVersion)| (t.0@, t.1@),
                    ).push((p@, v@)));
                },
                None => {},
            }
        }
        assert(pv.take(self.packages.len() as int) =~= pv);
        out
    }
}

} // verus!
