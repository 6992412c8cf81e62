//! High-level queries over the scanned cache.
//!
//! All queries answer the same underlying relation
//!
//! ```text
//! installed packages
//!     JOIN installed version's VersionFiles
//!     JOIN repository identity
//! ```
//!
//! built from the single in-memory scan, with exact `(name, version,
//! architecture)` matching: a version belongs to a repository if and only if
//! the cache records a `VersionFile` for it in one of that repository's
//! package indexes.
use vstd::prelude::*;

use crate::apt::{
    installed_pairs, package_views, packages_named, CacheScan, ScannedPackage,
    ScannedPackageView, ScannedVersion, ScannedVersionView,
};
use crate::error::AptListsError;
use crate::repository::{
    clone_indexes, flatten_indexes, index_views, lookup_id, RepoCatalog, RepoIndex, RepoIndexView,
    ResolvedRepo, ResolvedRepoView,
};

verus! {

/// A package version together with the repositories that provide exactly this
/// version.
#[derive(Debug)]
pub struct VersionRow {
    /// Package name without architecture qualifier.
    pub name: String,
    /// Version string.
    pub version: String,
    /// Architecture of the version (`amd64`, `all`, ...).
    pub arch: String,
    /// Whether this is the currently installed version.
    pub installed: bool,
    /// Whether the package is marked auto-installed; the inverse of
    /// `apt list --manual-installed` membership. Only meaningful for
    /// installed versions.
    pub auto_installed: bool,
    /// Repositories providing exactly this version. May be empty when the
    /// version is not available from any repository in the cache (e.g. a
    /// locally installed .deb).
    pub repositories: Vec<RepoIndex>,
}

/// The mathematical value of a [`VersionRow`].
pub struct VersionRowView {
    pub name: Seq<char>,
    pub version: Seq<char>,
    pub arch: Seq<char>,
    pub installed: bool,
    pub auto_installed: bool,
    pub repositories: Seq<RepoIndexView>,
}

impl View for VersionRow {
    type V = VersionRowView;

    open spec fn view(&self) -> VersionRowView {
        VersionRowView {
            name: self.name@,
            version: self.version@,
            arch: self.arch@,
            installed: self.installed,
            auto_installed: self.auto_installed,
            repositories: index_views(self.repositories@),
        }
    }
}

/// The views of a sequence of rows.
pub open spec fn row_views(s: Seq<VersionRow>) -> Seq<VersionRowView> {
    s.map_values(|r: VersionRow| r@)
}

/// Filter which versions a query returns.
#[derive(Debug, Clone, Copy)]
pub enum RepoFilter<'a> {
    /// No repository filter; all providers are reported.
    All,
    /// Only versions provided by the resolved repository.
    Selected(&'a ResolvedRepo),
}

/// The value of a filter: the selected repository, if any.
pub open spec fn filter_view(f: RepoFilter) -> Option<ResolvedRepoView> {
    match f {
        RepoFilter::All => None,
        RepoFilter::Selected(sel) => Some(sel@),
    }
}

/// Extra constraints applied to installed-version queries.
#[derive(Debug, Clone, Copy)]
pub struct InstalledFilter {
    /// Keep only packages that are *not* marked auto-installed, like
    /// `apt list --manual-installed`.
    pub manual_only: bool,
}

impl Default for InstalledFilter {
    fn default() -> (r: Self)
        ensures
            !r.manual_only,
    {
        InstalledFilter { manual_only: false }
    }
}

/// A version with the given index ids passes the filter: always without a
/// selection, otherwise when one of its indexes belongs to the selected
/// repository.
pub open spec fn filter_matches(f: Option<ResolvedRepoView>, ids: Seq<usize>) -> bool {
    match f {
        None => true,
        Some(sel) => exists|k: int| 0 <= k < ids.len() && sel.index_ids.contains(#[trigger] ids[k]),
    }
}

/// The indexes of the given ids, in the order of the ids; an id that the
/// indexes do not hold contributes nothing.
pub open spec fn indexes_for_ids(flat: Seq<RepoIndexView>, ids: Seq<usize>) -> Seq<RepoIndexView>
    decreases ids.len(),
{
    if ids.len() == 0 {
        seq![]
    } else {
        let prev = indexes_for_ids(flat, ids.drop_last());
        match lookup_id(flat, ids.last()) {
            Some(x) => prev.push(x),
            None => prev,
        }
    }
}

/// The repositories reported for a version with the given index ids: every
/// provider from the catalog without a selection; otherwise the selected
/// repository's indexes that provide it, in the repository's order.
pub open spec fn providers(
    catalog: Seq<crate::repository::RepositoryView>,
    ids: Seq<usize>,
    f: Option<ResolvedRepoView>,
) -> Seq<RepoIndexView> {
    match f {
        None => indexes_for_ids(flatten_indexes(catalog), ids),
        Some(sel) => sel.repository.indexes.filter(|x: RepoIndexView| ids.contains(x.id)),
    }
}

/// The row of one version of one package.
pub open spec fn row_of(
    p: ScannedPackageView,
    v: ScannedVersionView,
    catalog: Seq<crate::repository::RepositoryView>,
    f: Option<ResolvedRepoView>,
) -> VersionRowView {
    VersionRowView {
        name: p.name,
        version: v.version,
        arch: v.arch,
        installed: v.installed,
        auto_installed: p.auto_installed,
        repositories: providers(catalog, v.index_ids, f),
    }
}

/// The rows of the given versions of one package that pass the filter.
pub open spec fn package_rows(
    p: ScannedPackageView,
    vs: Seq<ScannedVersionView>,
    catalog: Seq<crate::repository::RepositoryView>,
    f: Option<ResolvedRepoView>,
) -> Seq<VersionRowView>
    decreases vs.len(),
{
    if vs.len() == 0 {
        seq![]
    } else {
        let prev = package_rows(p, vs.drop_last(), catalog, f);
        if filter_matches(f, vs.last().index_ids) {
            prev.push(row_of(p, vs.last(), catalog, f))
        } else {
            prev
        }
    }
}

/// The rows of every version of every package that pass the filter.
pub open spec fn all_rows(
    ps: Seq<ScannedPackageView>,
    catalog: Seq<crate::repository::RepositoryView>,
    f: Option<ResolvedRepoView>,
) -> Seq<VersionRowView>
    decreases ps.len(),
{
    if ps.len() == 0 {
        seq![]
    } else {
        all_rows(ps.drop_last(), catalog, f) + package_rows(ps.last(), ps.last().versions, catalog, f)
    }
}

/// The rows of the installed versions that pass both filters.
pub open spec fn installed_rows(
    pairs: Seq<(ScannedPackageView, ScannedVersionView)>,
    catalog: Seq<crate::repository::RepositoryView>,
    f: Option<ResolvedRepoView>,
    manual_only: bool,
) -> Seq<VersionRowView>
    decreases pairs.len(),
{
    if pairs.len() == 0 {
        seq![]
    } else {
        let prev = installed_rows(pairs.drop_last(), catalog, f, manual_only);
        let (p, v) = pairs.last();
        if !(manual_only && p.auto_installed) && filter_matches(f, v.index_ids) {
            prev.push(VersionRowView { installed: true, ..row_of(p, v, catalog, f) })
        } else {
            prev
        }
    }
}

impl<'a> RepoFilter<'a> {
    fn matches(self, index_ids: &Vec<usize>) -> (r: bool)
        ensures
            r == filter_matches(filter_view(self), index_ids@),
    {
        match self {
            RepoFilter::All => true,
            RepoFilter::Selected(sel) => selected_provides(sel, index_ids),
        }
    }
}

/// One of the ids belongs to the selected repository.
fn selected_provides(sel: &ResolvedRepo, index_ids: &Vec<usize>) -> (r: bool)
    ensures
        r == filter_matches(Some(sel@), index_ids@),
{
    for k in 0..index_ids.len()
        invariant
            forall|q: int| 0 <= q < k ==> !sel.index_ids@.contains(#[trigger] index_ids@[q]),
    {
        if sel.contains(index_ids[k]) {
            return true;
        }
    }
    false
}

/// Whether a list of ids holds an id.
fn contains_id(ids: &Vec<usize>, id: usize) -> (r: bool)
    ensures
        r == ids@.contains(id),
{
    for k in 0..ids.len()
        invariant
            forall|q: int| 0 <= q < k ==> ids@[q] != id,
    {
        if ids[k] == id {
            return true;
        }
    }
    false
}

fn resolve_repositories(catalog: &RepoCatalog, index_ids: &Vec<usize>, filter: RepoFilter<'_>) -> (r:
    Vec<RepoIndex>)
    ensures
        index_views(r@) == providers(catalog@, index_ids@, filter_view(filter)),
{
    match filter {
        RepoFilter::All => {
            let ghost flat = flatten_indexes(catalog@);
            let mut out: Vec<RepoIndex> = Vec::new();
            for k in 0..index_ids.len()
                invariant
                    flat == flatten_indexes(catalog@),
                    index_views(out@) == indexes_for_ids(flat, index_ids@.take(k as int)),
            {
                let ghost before = out@;
                assert(index_ids@.take(k + 1).drop_last() =~= index_ids@.take(k as int));
                match catalog.index_by_id(index_ids[k]) {
                    Some(x) => {
                        out.push(x.clone());
                        assert(index_views(out@) =~= index_views(before).push(x@));
                    },
                    None => {},
                }
            }
            assert(index_ids@.take(index_ids.len() as int) =~= index_ids@);
            out
        },
        RepoFilter::Selected(sel) => {
            let ghost iv = sel@.repository.indexes;
            let ghost pred = |x: RepoIndexView| index_ids@.contains(x.id);
            let mut out: Vec<RepoIndex> = Vec::new();
            for k in 0..sel.repository.indexes.len()
                invariant
                    iv == sel@.repository.indexes,
                    pred == (|x: RepoIndexView| index_ids@.contains(x.id)),
                    index_views(out@) == iv.take(k as int).filter(pred),
            {
                let ghost before = out@;
                let x = &sel.repository.indexes[k];
                proof {
                    assert(iv[k as int] == x@);
                    assert(iv.take(k + 1) =~= iv.take(k as int).push(x@));
                    iv.take(k as int).lemma_filter_push(x@, pred);
                }
                if contains_id(index_ids, x.id) {
                    out.push(x.clone());
                    assert(index_views(out@) =~= index_views(before).push(x@));
                }
            }
            assert(iv.take(sel.repository.indexes.len() as int) =~= iv);
            out
        },
    }
}

fn row_for(
    pkg: &ScannedPackage,
    ver: &ScannedVersion,
    catalog: &RepoCatalog,
    filter: RepoFilter<'_>,
) -> (r: VersionRow)
    ensures
        r@ == row_of(pkg@, ver@, catalog@, filter_view(filter)),
{
    VersionRow {
        name: pkg.name.clone(),
        version: ver.version.clone(),
        arch: ver.arch.clone(),
        installed: ver.installed,
        auto_installed: pkg.auto_installed,
        repositories: resolve_repositories(catalog, &ver.index_ids, filter),
    }
}

/// The rows of the versions of one package that pass the filter, appended.
fn push_package_rows(
    rows: &mut Vec<VersionRow>,
    pkg: &ScannedPackage,
    catalog: &RepoCatalog,
    filter: RepoFilter<'_>,
)
    ensures
        row_views(final(rows)@) == row_views(old(rows)@) + package_rows(
            pkg@,
            pkg@.versions,
            catalog@,
            filter_view(filter),
        ),
{
    let ghost base = row_views(rows@);
    let ghost vs = pkg@.versions;
    for j in 0..pkg.versions.len()
        invariant
            vs == pkg@.versions,
            row_views(rows@) == base + package_rows(pkg@, vs.take(j as int), catalog@, filter_view(filter)),
    {
        let ghost before = rows@;
        let ver = &pkg.versions[j];
        assert(vs[j as int] == ver@);
        assert(vs.take(j + 1).drop_last() =~= vs.take(j as int));
        if filter.matches(&ver.index_ids) {
            let row = row_for(pkg, ver, catalog, filter);
            rows.push(row);
            assert(row_views(rows@) =~= row_views(before).push(row@));
        }
    }
    assert(vs.take(pkg.versions.len() as int) =~= vs);
}

/// All currently installed package versions.
///
/// Uses the *installed* version (dpkg state) of every package record, never
/// the candidate or depcache "install" version. When `filter` selects a
/// repository, only packages whose exact installed version is provided by
/// that repository are returned; their repository list is then exactly the
/// matching indexes of that repository. `installed_filter` can restrict the
/// result to manually installed packages (`apt list --manual-installed`).
pub fn installed(
    scan: &CacheScan,
    catalog: &RepoCatalog,
    filter: RepoFilter<'_>,
    installed_filter: InstalledFilter,
) -> (r: Vec<VersionRow>)
    ensures
        row_views(r@) == installed_rows(
            installed_pairs(package_views(scan.packages@)),
            catalog@,
            filter_view(filter),
            installed_filter.manual_only,
        ),
{
    let pairs = scan.installed_versions();
    let ghost pv = pairs@.map_values(|t: (&ScannedPackage, &ScannedVersion)| (t.0@, t.1@));
    let mut rows: Vec<VersionRow> = Vec::new();
    for i in 0..pairs.len()
        invariant
            pv == pairs@.map_values(|t: (&ScannedPackage, &ScannedVersion)| (t.0@, t.1@)),
            row_views(rows@) == installed_rows(
                pv.take(i as int),
                catalog@,
                filter_view(filter),
                installed_filter.manual_only,
            ),
    {
        let ghost before = rows@;
        let (pkg, ver) = pairs[i];
        assert(pv[i as int] == (pkg@, ver@));
        assert(pv.take(i + 1).drop_last() =~= pv.take(i as int));
        if !(installed_filter.manual_only && pkg.auto_installed) && filter.matches(&ver.index_ids) {
            let row = VersionRow {
                name: pkg.name.clone(),
                version: ver.version.clone(),
                arch: ver.arch.clone(),
                installed: true,
                auto_installed: pkg.auto_installed,
                repositories: resolve_repositories(catalog, &ver.index_ids, filter),
            };
            rows.push(row);
            assert(row_views(rows@) =~= row_views(before).push(row@));
        }
    }
    assert(pv.take(pairs.len() as int) =~= pv);
    rows
}

/// All versions of all packages known to the cache (`--all`).
pub fn all_versions(scan: &CacheScan, catalog: &RepoCatalog, filter: RepoFilter<'_>) -> (r: Vec<
    VersionRow,
>)
    ensures
        row_views(r@) == all_rows(package_views(scan.packages@), catalog@, filter_view(filter)),
{
    let ghost ps = package_views(scan.packages@);
    let mut rows: Vec<VersionRow> = Vec::new();
    for i in 0..scan.packages.len()
        invariant
            ps == package_views(scan.packages@),
            row_views(rows@) == all_rows(ps.take(i as int), catalog@, filter_view(filter)),
    {
        assert(ps[i as int] == scan.packages@[i as int]@);
        assert(ps.take(i + 1).drop_last() =~= ps.take(i as int));
        push_package_rows(&mut rows, &scan.packages[i], catalog, filter);
    }
    assert(ps.take(scan.packages.len() as int) =~= ps);
    rows
}

/// All versions of a single package (`apt-lists <package>`).
///
/// Errors only when the package (or the requested `name:architecture`
/// combination) does not exist in the cache at all, so that an invalid
/// request is never confused with an empty result. A package that exists but
/// simply has no versions from the selected repository yields an empty list.
pub fn package_versions(
    scan: &CacheScan,
    catalog: &RepoCatalog,
    name: &str,
    filter: RepoFilter<'_>,
) -> (r: Result<Vec<VersionRow>, AptListsError>)
    ensures
        match r {
            Ok(rows) => {
                &&& packages_named(package_views(scan.packages@), name@).len() > 0
                &&& row_views(rows@) == all_rows(
                    packages_named(package_views(scan.packages@), name@),
                    catalog@,
                    filter_view(filter),
                )
            },
            Err(AptListsError::PackageNotFound(n)) => {
                &&& packages_named(package_views(scan.packages@), name@).len() == 0
                &&& n@ == name@
            },
            Err(_) => false,
        },
{
    let pkgs = scan.packages_by_name(name);
    if pkgs.len() == 0 {
        return Err(AptListsError::PackageNotFound(crate::text::string_of(&crate::text::chars_of(name))));
    }
    let ghost ps = pkgs@.map_values(|p: &ScannedPackage| p@);
    let mut rows: Vec<VersionRow> = Vec::new();
    for i in 0..pkgs.len()
        invariant
            ps == pkgs@.map_values(|p: &ScannedPackage| p@),
            row_views(rows@) == all_rows(ps.take(i as int), catalog@, filter_view(filter)),
    {
        assert(ps[i as int] == pkgs@[i as int]@);
        assert(ps.take(i + 1).drop_last() =~= ps.take(i as int));
        push_package_rows(&mut rows, pkgs[i], catalog, filter);
    }
    assert(ps.take(pkgs.len() as int) =~= ps);
    Ok(rows)
}

} // verus!
