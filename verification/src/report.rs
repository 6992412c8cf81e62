//! What one invocation produces: the decisions between parsing the options
//! and writing to stdout.
//!
//! [`run`] resolves `--repo` first (so that an invalid selector is reported
//! even before looking at packages, and "selector does not exist" is never
//! mistaken for "exists but nothing matched"), then answers the requested
//! mode. The binary prints the warning, the output or the error.
use vstd::prelude::*;

use crate::apt::{
    installed_pairs, package_views, packages_named, CacheScan, ScannedPackageView, SuiteNameView,
};
use crate::cli::{Args, Mode};
use crate::error::AptListsError;
use crate::output::human::{
    catalog_rows, header_if_spec, installed_cells, package_header, repos_header, table_spec,
    version_cells,
};
use crate::output::json::{
    json_repository_views, json_version_of, json_version_views, repository_of,
    PackagesDocument, RepoPackagesDocument, RepositoriesDocument,
};
use crate::output::{human, json};
use crate::query::{
    all_rows, filter_view, installed_rows, row_views, InstalledFilter, RepoFilter, VersionRow,
    VersionRowView,
};
use crate::repository::{
    ids_of, matched_repos, resolve_result, RepoCatalog, RepositoryView, ResolvedRepo,
    ResolvedRepoView,
};
use crate::text::{trim, views};

verus! {

/// What goes to stdout.
#[derive(Debug)]
pub enum Output {
    /// Nothing at all (a human-readable query without rows).
    Nothing,
    /// A human-readable table.
    Text(String),
    /// `{ "packages": [ ... ] }`.
    Packages(PackagesDocument),
    /// `{ "repository": { ... }, "packages": [ ... ] }`.
    RepoPackages(RepoPackagesDocument),
    /// `{ "repositories": [ ... ] }`.
    Repositories(RepositoriesDocument),
}

/// The outcome of one invocation.
#[derive(Debug)]
pub struct Report {
    /// Warn on stderr, before anything else, that the cache has no package
    /// indexes, so repository provenance cannot be determined.
    pub warn_no_indexes: bool,
    /// What to print, or the error to report.
    pub outcome: Result<Output, AptListsError>,
}

/// The repository that a `--repo` selector designates, with the ids of its
/// indexes; `None` when the selector does not resolve.
pub open spec fn selected_view(catalog: Seq<RepositoryView>, selector: Seq<char>) -> Option<
    ResolvedRepoView,
> {
    let sel = trim(selector);
    let m = matched_repos(catalog, sel);
    if sel.len() > 0 && m.len() == 1 {
        Some(ResolvedRepoView { repository: m[0], index_ids: ids_of(m[0].indexes) })
    } else {
        None
    }
}

/// The filter that the options select.
pub open spec fn filter_spec(args: Args, catalog: Seq<RepositoryView>) -> Option<ResolvedRepoView> {
    match args.repo {
        Some(sel) => selected_view(catalog, sel@),
        None => None,
    }
}

/// The rows of the named packages, in the order of the names; the first name
/// that no package carries is the error.
pub open spec fn query_names(
    pkgs: Seq<ScannedPackageView>,
    catalog: Seq<RepositoryView>,
    names: Seq<Seq<char>>,
    f: Option<ResolvedRepoView>,
) -> Result<Seq<VersionRowView>, Seq<char>>
    decreases names.len(),
{
    if names.len() == 0 {
        Ok(seq![])
    } else {
        match query_names(pkgs, catalog, names.drop_last(), f) {
            Err(n) => Err(n),
            Ok(rows) => {
                let hit = packages_named(pkgs, names.last());
                if hit.len() == 0 {
                    Err(names.last())
                } else {
                    Ok(rows + all_rows(hit, catalog, f))
                }
            },
        }
    }
}

/// The rows that a package-listing mode produces (or the package name that
/// was not found).
pub open spec fn rows_spec(
    args: Args,
    pkgs: Seq<ScannedPackageView>,
    catalog: Seq<RepositoryView>,
    f: Option<ResolvedRepoView>,
) -> Result<Seq<VersionRowView>, Seq<char>> {
    match args.mode_spec() {
        Mode::Installed => Ok(
            installed_rows(installed_pairs(pkgs), catalog, f, args.manual_installed),
        ),
        Mode::Packages => query_names(pkgs, catalog, views(args.packages@), f),
        _ => Ok(all_rows(pkgs, catalog, f)),
    }
}

/// The cells of a row in the table of the given mode.
pub open spec fn cells_for(mode: Mode, r: VersionRowView) -> Seq<Seq<char>> {
    if mode == Mode::Installed {
        installed_cells(r)
    } else {
        version_cells(r)
    }
}

/// How rows are emitted, uniformly across the package-listing modes: JSON
/// without `--repo` carries each row's repositories and installed flag; JSON
/// with `--repo` reports the selected repository once at the top level; a
/// human table has the PACKAGE/VERSION/ARCH/REPOSITORY columns and is not
/// printed at all when there is no row.
pub open spec fn emit_spec(
    out: Output,
    rows: Seq<VersionRowView>,
    args: Args,
    f: Option<ResolvedRepoView>,
) -> bool {
    if args.json {
        match f {
            Some(sel) => {
                &&& out matches Output::RepoPackages(d)
                &&& d.repository@ == repository_of(sel.repository, None)
                &&& json_version_views(d.packages@) == rows.map_values(
                    |x: VersionRowView| json_version_of(x, false),
                )
            },
            None => {
                &&& out matches Output::Packages(d)
                &&& json_version_views(d.packages@) == rows.map_values(
                    |x: VersionRowView| json_version_of(x, true),
                )
            },
        }
    } else if rows.len() > 0 {
        &&& out matches Output::Text(s)
        &&& s@ == table_spec(
            header_if_spec(package_header(), !args.no_headers),
            rows.map_values(|x: VersionRowView| cells_for(args.mode_spec(), x)),
        )
    } else {
        out is Nothing
    }
}

/// The repository catalog in the format the options ask for.
pub open spec fn repos_output_spec(
    out: Output,
    args: Args,
    catalog: Seq<RepositoryView>,
    counts: Seq<SuiteNameView>,
) -> bool {
    if args.json {
        &&& out matches Output::Repositories(d)
        &&& json_repository_views(d.repositories@) == catalog.map_values(
            |x: RepositoryView| repository_of(x, Some(counts)),
        )
    } else {
        &&& out matches Output::Text(s)
        &&& s@ == table_spec(header_if_spec(repos_header(), !args.no_headers), catalog_rows(catalog, counts))
    }
}

/// What an invocation produces from the options, the scanned packages, the
/// catalog and the package counts.
///
/// * With `--repo` and no package index at all: no-package-indexes error.
/// * With `--repo` that does not resolve: the resolution error.
/// * `--repos`: the catalog, or the no-package-indexes error when it is
///   empty.
/// * Otherwise the rows of the mode (or the first unknown package name),
///   emitted as [`emit_spec`] says, with a warning when the catalog is
///   empty.
pub open spec fn run_spec(
    args: Args,
    pkgs: Seq<ScannedPackageView>,
    catalog: Seq<RepositoryView>,
    counts: Seq<SuiteNameView>,
    r: Report,
) -> bool {
    let empty = catalog.len() == 0;
    let f = filter_spec(args, catalog);
    match args.repo {
        Some(sel) if empty => {
            &&& !r.warn_no_indexes
            &&& r.outcome matches Err(AptListsError::NoPackageIndexes)
        },
        Some(sel) if f is None => {
            &&& !r.warn_no_indexes
            &&& r.outcome matches Err(e)
            &&& resolve_result(catalog, sel@, Err(e))
        },
        _ => if args.mode_spec() == Mode::Repos {
            &&& !r.warn_no_indexes
            &&& if empty {
                r.outcome matches Err(AptListsError::NoPackageIndexes)
            } else {
                r.outcome matches Ok(out) && repos_output_spec(out, args, catalog, counts)
            }
        } else {
            &&& r.warn_no_indexes == empty
            &&& match rows_spec(args, pkgs, catalog, f) {
                Err(name) => r.outcome matches Err(AptListsError::PackageNotFound(n)) && n@ == name,
                Ok(rows) => r.outcome matches Ok(out) && emit_spec(out, rows, args, f),
            }
        },
    }
}

/// Once a prefix of the names fails, the whole list fails the same way.
proof fn lemma_query_names_err_stays(
    pkgs: Seq<ScannedPackageView>,
    catalog: Seq<RepositoryView>,
    names: Seq<Seq<char>>,
    j: int,
    f: Option<ResolvedRepoView>,
)
    requires
        0 <= j <= names.len(),
        query_names(pkgs, catalog, names.take(j), f) is Err,
    ensures
        query_names(pkgs, catalog, names, f) == query_names(pkgs, catalog, names.take(j), f),
    decreases names.len() - j,
{
    if j < names.len() {
        assert(names.take(j + 1).drop_last() =~= names.take(j));
        lemma_query_names_err_stays(pkgs, catalog, names, j + 1, f);
    } else {
        assert(names.take(j) =~= names);
    }
}

/// The query filter of an optional resolved repository.
pub fn filter_of(resolved: Option<&ResolvedRepo>) -> (f: RepoFilter<'_>)
    ensures
        filter_view(f) == match resolved {
            Some(sel) => Some(sel@),
            None => None,
        },
{
    match resolved {
        Some(sel) => RepoFilter::Selected(sel),
        None => RepoFilter::All,
    }
}

/// The rows of the named packages, in the order of the names; fails on the
/// first name that no package carries.
pub fn query_packages(
    scan: &CacheScan,
    catalog: &RepoCatalog,
    names: &Vec<String>,
    filter: RepoFilter<'_>,
) -> (r: Result<Vec<VersionRow>, AptListsError>)
    ensures
        match query_names(package_views(scan.packages@), catalog@, views(names@), filter_view(filter)) {
            Ok(rows) => r matches Ok(v) && row_views(v@) == rows,
            Err(n) => r matches Err(AptListsError::PackageNotFound(m)) && m@ == n,
        },
{
    let ghost pkgs = package_views(scan.packages@);
    let ghost nv = views(names@);
    let mut rows: Vec<VersionRow> = Vec::new();
    assert(nv.take(0) =~= Seq::<Seq<char>>::empty());
    assert(row_views(rows@) =~= Seq::<VersionRowView>::empty());
    for i in 0..names.len()
        invariant
            pkgs == package_views(scan.packages@),
            nv == views(names@),
            query_names(pkgs, catalog@, nv.take(i as int), filter_view(filter)) == Ok::<
                Seq<VersionRowView>,
                Seq<char>,
            >(row_views(rows@)),
    {
        let ghost before = rows@;
        assert(nv.take(i + 1).drop_last() =~= nv.take(i as int));
        assert(nv.take(i + 1).last() == names@[i as int]@);
        match crate::query::package_versions(scan, catalog, names[i].as_str(), filter) {
            Ok(mut more) => {
                let ghost added = more@;
                rows.append(&mut more);
                assert(row_views(rows@) =~= row_views(before) + row_views(added));
            },
            Err(e) => {
                proof {
                    lemma_query_names_err_stays(pkgs, catalog@, nv, i + 1, filter_view(filter));
                }
                return Err(e);
            },
        }
    }
    assert(nv.take(names.len() as int) =~= nv);
    Ok(rows)
}

/// Emit the rows of a package-listing mode as [`emit_spec`] says.
pub fn emit_rows(args: &Args, resolved: Option<&ResolvedRepo>, rows: &Vec<VersionRow>) -> (out: Output)
    ensures
        emit_spec(
            out,
            row_views(rows@),
            *args,
            match resolved {
                Some(sel) => Some(sel@),
                None => None,
            },
        ),
{
    if args.json {
        match resolved {
            Some(sel) => {
                let d = json::for_repo(&sel.repository, rows.as_slice());
                assert(rows@.map_values(|x: VersionRow| json_version_of(x@, false)) =~= row_views(
                    rows@,
                ).map_values(|x: VersionRowView| json_version_of(x, false)));
                Output::RepoPackages(d)
            },
            None => {
                let d = json::versions(rows.as_slice());
                assert(rows@.map_values(|x: VersionRow| json_version_of(x@, true)) =~= row_views(
                    rows@,
                ).map_values(|x: VersionRowView| json_version_of(x, true)));
                Output::Packages(d)
            },
        }
    } else if rows.len() > 0 {
        let mode = args.mode();
        let text = match mode {
            Mode::Installed => human::installed(rows.as_slice(), args.no_headers),
            _ => human::package_versions(rows.as_slice(), args.no_headers),
        };
        proof {
            if mode == Mode::Installed {
                assert(rows@.map_values(|x: VersionRow| installed_cells(x@)) =~= row_views(
                    rows@,
                ).map_values(|x: VersionRowView| cells_for(mode, x)));
            } else {
                assert(rows@.map_values(|x: VersionRow| version_cells(x@)) =~= row_views(
                    rows@,
                ).map_values(|x: VersionRowView| cells_for(mode, x)));
            }
        }
        Output::Text(text)
    } else {
        Output::Nothing
    }
}

/// Everything between parsing the options and writing to stdout: resolve
/// `--repo`, answer the requested mode, and put the answer in the shape the
/// options ask for (see [`run_spec`]).
pub fn run(args: &Args, scan: &CacheScan, catalog: &RepoCatalog) -> (r: Report)
    ensures
        run_spec(*args, package_views(scan.packages@), catalog@, scan.package_counts.entries(), r),
{
    let empty = catalog.is_empty();
    let resolved: Option<ResolvedRepo> = match &args.repo {
        Some(selector) => {
            if empty {
                return Report { warn_no_indexes: false, outcome: Err(AptListsError::NoPackageIndexes) };
            }
            match catalog.resolve(selector.as_str()) {
                Ok(res) => {
                    assert(Some(res@) == selected_view(catalog@, selector@));
                    Some(res)
                },
                Err(e) => {
                    return Report { warn_no_indexes: false, outcome: Err(e) };
                },
            }
        },
        None => None,
    };
    let mode = args.mode();
    if mode == Mode::Repos {
        if empty {
            return Report { warn_no_indexes: false, outcome: Err(AptListsError::NoPackageIndexes) };
        }
        let out = if args.json {
            Output::Repositories(json::repos(catalog, &scan.package_counts))
        } else {
            Output::Text(human::repos(catalog, &scan.package_counts, args.no_headers))
        };
        return Report { warn_no_indexes: false, outcome: Ok(out) };
    }
    let filter = filter_of(resolved.as_ref());
    let rows = match mode {
        Mode::Installed => {
            let installed_filter = InstalledFilter { manual_only: args.manual_only() };
            crate::query::installed(scan, catalog, filter, installed_filter)
        },
        Mode::All => crate::query::all_versions(scan, catalog, filter),
        _ => match query_packages(scan, catalog, &args.packages, filter) {
            Ok(rows) => rows,
            Err(e) => {
                return Report { warn_no_indexes: empty, outcome: Err(e) };
            },
        },
    };
    let out = emit_rows(args, resolved.as_ref(), &rows);
    Report { warn_no_indexes: empty, outcome: Ok(out) }
}

} // verus!
