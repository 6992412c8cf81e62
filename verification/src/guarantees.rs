//! What the listing queries, the tables, the JSON documents and the selector
//! answer, stated over their inputs.
use vstd::prelude::*;

use crate::apt::{
    count_entries, counted_names, id_entries, version_entries, ScannedPackageView,
    ScannedVersionView, SuiteNameView,
};
use crate::cli::{Args, Mode};
use crate::error::AptListsError;
use crate::output::human::{
    catalog_rows, header_if_spec, package_header, repo_column_spec, repo_rows, suite_count,
    table_spec,
};
use crate::output::json::{json_version_of, ref_of, RepoRefView};
use crate::query::{all_rows, filter_matches, package_rows, VersionRowView};
use crate::report::{emit_spec, Output};
use crate::repository::{
    distinct_some, fields, matched_repos, resolve_result, scheme_sep, selector_matches,
    strip_scheme_spec, uri_key, IndexField, RepoIndex, RepoIndexView, RepositoryView,
    ResolvedRepo, ResolvedRepoView,
};
use crate::text::{
    decimal, find, lemma_find_push, lemma_trim_push, lemma_ws_prefix_push, lower,
    strip_trailing, trim, ws_suffix_len,
};

verus! {

/// What a row reports of its version: package name, version, architecture
/// and whether the version is installed.
pub open spec fn reported(r: VersionRowView) -> (Seq<char>, Seq<char>, Seq<char>, bool) {
    (r.name, r.version, r.arch, r.installed)
}

/// The same four facts of one scanned version of a package.
pub open spec fn version_facts(p: ScannedPackageView, v: ScannedVersionView) -> (
    Seq<char>,
    Seq<char>,
    Seq<char>,
    bool,
) {
    (p.name, v.version, v.arch, v.installed)
}

/// The facts of every version, package by package and in order, that the
/// filter lets through.
pub open spec fn passing_versions(ps: Seq<ScannedPackageView>, f: Option<ResolvedRepoView>) -> Seq<
    (Seq<char>, Seq<char>, Seq<char>, bool),
>
    decreases ps.len(),
{
    if ps.len() == 0 {
        seq![]
    } else {
        let p = ps.last();
        passing_versions(ps.drop_last(), f) + p.versions.filter(
            |v: ScannedVersionView| filter_matches(f, v.index_ids),
        ).map_values(|v: ScannedVersionView| version_facts(p, v))
    }
}

/// The rows of one package report its passing versions, and under a
/// selection list only indexes of the selected repository.
proof fn lemma_package_rows_report(
    p: ScannedPackageView,
    vs: Seq<ScannedVersionView>,
    catalog: Seq<crate::repository::RepositoryView>,
    f: Option<ResolvedRepoView>,
)
    ensures
        package_rows(p, vs, catalog, f).map_values(|r: VersionRowView| reported(r)) == vs.filter(
            |v: ScannedVersionView| filter_matches(f, v.index_ids),
        ).map_values(|v: ScannedVersionView| version_facts(p, v)),
        forall|k: int, j: int|
            #![trigger package_rows(p, vs, catalog, f)[k].repositories[j]]
            0 <= k < package_rows(p, vs, catalog, f).len() && 0 <= j < package_rows(
                p,
                vs,
                catalog,
                f,
            )[k].repositories.len() && f is Some ==> f->0.repository.indexes.contains(
                package_rows(p, vs, catalog, f)[k].repositories[j],
            ),
    decreases vs.len(),
{
    let pred = |v: ScannedVersionView| filter_matches(f, v.index_ids);
    let g = |v: ScannedVersionView| version_facts(p, v);
    let rows = package_rows(p, vs, catalog, f);
    if vs.len() == 0 {
        assert(vs.filter(pred) =~= vs);
        assert(rows.map_values(|r: VersionRowView| reported(r)) =~= Seq::<
            (Seq<char>, Seq<char>, Seq<char>, bool),
        >::empty());
        assert(vs.filter(pred).map_values(g) =~= Seq::<
            (Seq<char>, Seq<char>, Seq<char>, bool),
        >::empty());
    } else {
        let init = vs.drop_last();
        lemma_package_rows_report(p, init, catalog, f);
        assert(vs =~= init.push(vs.last()));
        init.lemma_filter_push(vs.last(), pred);
        let prev = package_rows(p, init, catalog, f);
        if pred(vs.last()) {
            let row = crate::query::row_of(p, vs.last(), catalog, f);
            assert(prev.push(row).map_values(|r: VersionRowView| reported(r)) =~= prev.map_values(
                |r: VersionRowView| reported(r),
            ).push(reported(row)));
            assert(init.filter(pred).push(vs.last()).map_values(g) =~= init.filter(pred).map_values(
                g,
            ).push(g(vs.last())));
            assert forall|k: int, j: int|
                #![trigger rows[k].repositories[j]]
                0 <= k < rows.len() && 0 <= j < rows[k].repositories.len() && f is Some implies f->0.repository.indexes.contains(
                rows[k].repositories[j],
            ) by {
                if k < prev.len() {
                    assert(rows[k] == prev[k]);
                } else {
                    let sel = f->0;
                    let q = |x: RepoIndexView| vs.last().index_ids.contains(x.id);
                    assert(rows[k].repositories == sel.repository.indexes.filter(q));
                    assert(sel.repository.indexes.filter(q).contains(rows[k].repositories[j]));
                    sel.repository.indexes.lemma_filter_contains_rev(q, rows[k].repositories[j]);
                }
            }
        }
    }
}

/// Every package query and `--all`, with or without a `--repo` selection,
/// reports the versions of the scanned packages that the selection lets
/// through, in order, each with its own package name, version, architecture
/// and installed flag: a selection only removes rows. Under a selection a
/// row lists only indexes of the selected repository.
pub proof fn law_rows_report_their_versions(
    ps: Seq<ScannedPackageView>,
    catalog: Seq<crate::repository::RepositoryView>,
    f: Option<ResolvedRepoView>,
)
    ensures
        all_rows(ps, catalog, f).map_values(|r: VersionRowView| reported(r)) == passing_versions(
            ps,
            f,
        ),
        forall|k: int, j: int|
            #![trigger all_rows(ps, catalog, f)[k].repositories[j]]
            0 <= k < all_rows(ps, catalog, f).len() && 0 <= j < all_rows(
                ps,
                catalog,
                f,
            )[k].repositories.len() && f is Some ==> f->0.repository.indexes.contains(
                all_rows(ps, catalog, f)[k].repositories[j],
            ),
    decreases ps.len(),
{
    let rows = all_rows(ps, catalog, f);
    if ps.len() == 0 {
        assert(rows.map_values(|r: VersionRowView| reported(r)) =~= Seq::<
            (Seq<char>, Seq<char>, Seq<char>, bool),
        >::empty());
    } else {
        let p = ps.last();
        law_rows_report_their_versions(ps.drop_last(), catalog, f);
        lemma_package_rows_report(p, p.versions, catalog, f);
        let a = all_rows(ps.drop_last(), catalog, f);
        let b = package_rows(p, p.versions, catalog, f);
        assert(rows == a + b);
        assert((a + b).map_values(|r: VersionRowView| reported(r)) =~= a.map_values(
            |r: VersionRowView| reported(r),
        ) + b.map_values(|r: VersionRowView| reported(r)));
        assert forall|k: int, j: int|
            #![trigger rows[k].repositories[j]]
            0 <= k < rows.len() && 0 <= j < rows[k].repositories.len() && f is Some implies f->0.repository.indexes.contains(
            rows[k].repositories[j],
        ) by {
            if k < a.len() {
                assert(rows[k] == a[k]);
            } else {
                assert(rows[k] == b[k - a.len()]);
            }
        }
    }
}

/// The REPOSITORY cell of a package table: the providing repositories, then
/// `  [installed]` for an installed version in every table but that of
/// `--installed`.
pub open spec fn repository_cell(mode: Mode, r: VersionRowView) -> Seq<char> {
    if mode != Mode::Installed && r.installed {
        repo_column_spec(r.repositories) + "  [installed]"@
    } else {
        repo_column_spec(r.repositories)
    }
}

/// The human table of every package-listing mode has the PACKAGE, VERSION,
/// ARCH and REPOSITORY cells of each row; the REPOSITORY cell ends in
/// `  [installed]` exactly for installed versions, except in the table of
/// `--installed`, which never carries the marker.
pub proof fn law_package_tables_mark_installed_versions(
    out: Output,
    rows: Seq<VersionRowView>,
    args: Args,
    f: Option<ResolvedRepoView>,
)
    requires
        emit_spec(out, rows, args, f),
        !args.json,
        rows.len() > 0,
    ensures
        out matches Output::Text(s) && s@ == table_spec(
            header_if_spec(package_header(), !args.no_headers),
            rows.map_values(
                |r: VersionRowView|
                    seq![r.name, r.version, r.arch, repository_cell(args.mode_spec(), r)],
            ),
        ),
{
    let mode = args.mode_spec();
    let want = rows.map_values(
        |r: VersionRowView| seq![r.name, r.version, r.arch, repository_cell(mode, r)],
    );
    let got = rows.map_values(|r: VersionRowView| crate::report::cells_for(mode, r));
    assert forall|k: int| 0 <= k < rows.len() implies #[trigger] got[k] == want[k] by {
        let r = rows[k];
        if !(mode != Mode::Installed && r.installed) && mode != Mode::Installed {
            assert(repo_column_spec(r.repositories) + Seq::<char>::empty() =~= repo_column_spec(
                r.repositories,
            ));
        }
        assert(got[k] =~= want[k]);
    }
    assert(got =~= want);
}

/// A JSON repository reference reproduces its package index field for
/// field.
pub open spec fn copies_index(j: RepoRefView, x: RepoIndexView) -> bool {
    &&& j.uri == x.uri
    &&& j.site == x.site
    &&& j.archive == x.archive
    &&& j.codename == x.codename
    &&& j.origin == x.origin
    &&& j.label == x.label
    &&& j.component == x.component
    &&& j.architecture == x.arch
    &&& j.index_filename == x.filename
    &&& j.index_type == x.index_type
}

/// Every JSON repository reference of a row (`--json` without `--repo`)
/// reproduces the corresponding package index of the row field for field,
/// in the row's order; with `--repo` the rows carry no references. The other
/// fields of a JSON row are the row's own.
pub proof fn law_json_references_copy_their_indexes(r: VersionRowView)
    ensures
        json_version_of(r, true).repositories matches Some(refs) && refs.len()
            == r.repositories.len() && forall|j: int|
            0 <= j < refs.len() ==> copies_index(#[trigger] refs[j], r.repositories[j]),
        json_version_of(r, false).repositories is None,
        json_version_of(r, true).name == r.name && json_version_of(r, true).version == r.version
            && json_version_of(r, true).architecture == r.arch && json_version_of(r, true).installed
            == r.installed,
{
}

/// The JSON reference to a package index (what `RepoRef::from_index`
/// returns) reproduces it field for field.
pub proof fn law_index_reference_copies_its_index(x: RepoIndexView)
    ensures
        copies_index(ref_of(x), x),
{
}

/// A row of the `--repos` table counts the package names of its own
/// repository and suite: the PACKAGES cell is the number of distinct names
/// that the counts record for the row's URI and the row's suite; the row
/// belongs to a repository of the catalog, and its suite is one of that
/// repository's suites (or `-` for a repository without any).
pub open spec fn counts_own_suite(
    row: Seq<Seq<char>>,
    repos: Seq<RepositoryView>,
    entries: Seq<SuiteNameView>,
) -> bool {
    &&& row.len() == 5
    &&& exists|i: int|
        0 <= i < repos.len() && (#[trigger] repos[i]).uri == row[0] && if distinct_some(
            fields(repos[i].indexes, IndexField::Archive),
        ).len() == 0 {
            row[1] == "-"@ && row[4] == decimal(suite_count(entries, row[0], None))
        } else {
            distinct_some(fields(repos[i].indexes, IndexField::Archive)).contains(row[1])
                && row[4] == decimal(suite_count(entries, row[0], Some(row[1])))
        }
}

/// Every row of the `--repos` table (what `human::repos` lays out) counts
/// the package names of its own repository and suite.
pub proof fn law_suite_rows_count_their_own_suite(
    repos: Seq<RepositoryView>,
    entries: Seq<SuiteNameView>,
)
    ensures
        forall|k: int|
            0 <= k < catalog_rows(repos, entries).len() ==> #[trigger] counts_own_suite(
                catalog_rows(repos, entries)[k],
                repos,
                entries,
            ),
    decreases repos.len(),
{
    if repos.len() > 0 {
        let init = repos.drop_last();
        law_suite_rows_count_their_own_suite(init, entries);
        let a = catalog_rows(init, entries);
        let r = repos.last();
        let b = repo_rows(r, entries);
        let rows = catalog_rows(repos, entries);
        assert(rows == a + b);
        let last = repos.len() - 1;
        assert(repos[last] == r);
        assert forall|k: int| 0 <= k < rows.len() implies #[trigger] counts_own_suite(
            rows[k],
            repos,
            entries,
        ) by {
            if k < a.len() {
                assert(rows[k] == a[k]);
                assert(counts_own_suite(a[k], init, entries));
                let i = choose|i: int|
                    0 <= i < init.len() && (#[trigger] init[i]).uri == a[k][0] && if distinct_some(
                        fields(init[i].indexes, IndexField::Archive),
                    ).len() == 0 {
                        a[k][1] == "-"@ && a[k][4] == decimal(suite_count(entries, a[k][0], None))
                    } else {
                        distinct_some(fields(init[i].indexes, IndexField::Archive)).contains(a[k][1])
                            && a[k][4] == decimal(suite_count(entries, a[k][0], Some(a[k][1])))
                    };
                assert(repos[i] == init[i]);
            } else {
                let m = k - a.len();
                assert(rows[k] == b[m]);
                let suites = distinct_some(fields(r.indexes, IndexField::Archive));
                if suites.len() > 0 {
                    assert(b[m] == crate::output::human::suite_row(r, suites[m], entries));
                    assert(suites.contains(suites[m]));
                }
                assert(repos[last].uri == rows[k][0]);
            }
        }
    }
}

/// An element of a concatenation is an element of one of its parts.
proof fn lemma_contains_add<A>(a: Seq<A>, b: Seq<A>, x: A)
    ensures
        (a + b).contains(x) <==> a.contains(x) || b.contains(x),
{
    if (a + b).contains(x) {
        let i = choose|i: int| 0 <= i < (a + b).len() && (a + b)[i] == x;
        if i < a.len() {
            assert(a[i] == x);
        } else {
            assert(b[i - a.len()] == x);
        }
    }
    if a.contains(x) {
        let i = choose|i: int| 0 <= i < a.len() && a[i] == x;
        assert((a + b)[i] == x);
    }
    if b.contains(x) {
        let i = choose|i: int| 0 <= i < b.len() && b[i] == x;
        assert((a + b)[a.len() + i] == x);
    }
}

/// One of the ids names an index of the map with the repository key and
/// the suite.
pub open spec fn ids_provide(
    ids: Seq<usize>,
    m: Map<usize, RepoIndex>,
    key: Seq<char>,
    suite: Option<Seq<char>>,
) -> bool {
    exists|j: int|
        0 <= j < ids.len() && m.dom().contains(#[trigger] ids[j]) && uri_key(m[ids[j]]@) == key
            && m[ids[j]]@.archive == suite
}

/// One of the versions is provided by an index with the key and the suite.
pub open spec fn versions_provide(
    vs: Seq<ScannedVersionView>,
    m: Map<usize, RepoIndex>,
    key: Seq<char>,
    suite: Option<Seq<char>>,
) -> bool {
    exists|v: int| 0 <= v < vs.len() && ids_provide((#[trigger] vs[v]).index_ids, m, key, suite)
}

/// Some package named `n` has a version provided by an index with the
/// repository key and the suite.
pub open spec fn provides_name(
    pkgs: Seq<ScannedPackageView>,
    m: Map<usize, RepoIndex>,
    key: Seq<char>,
    suite: Option<Seq<char>>,
    n: Seq<char>,
) -> bool {
    exists|i: int|
        0 <= i < pkgs.len() && (#[trigger] pkgs[i]).name == n && versions_provide(
            pkgs[i].versions,
            m,
            key,
            suite,
        )
}

proof fn lemma_id_entries(
    name: Seq<char>,
    ids: Seq<usize>,
    m: Map<usize, RepoIndex>,
    key: Seq<char>,
    suite: Option<Seq<char>>,
    n: Seq<char>,
)
    ensures
        id_entries(name, ids, m).contains((key, suite, n)) <==> (n == name && ids_provide(
            ids,
            m,
            key,
            suite,
        )),
    decreases ids.len(),
{
    if ids.len() > 0 {
        let init = ids.drop_last();
        lemma_id_entries(name, init, m, key, suite, n);
        let prev = id_entries(name, init, m);
        let last = ids.len() - 1;
        assert(ids[last] == ids.last());
        if m.dom().contains(ids.last()) {
            let e = (uri_key(m[ids.last()]@), m[ids.last()]@.archive, name);
            lemma_contains_add(prev, seq![e], (key, suite, n));
            assert(prev.push(e) == prev + seq![e]);
            if seq![e].contains((key, suite, n)) {
                assert(seq![e][0] == (key, suite, n));
            }
            if e == (key, suite, n) {
                assert(seq![e][0] == e);
            }
        }
        if ids_provide(init, m, key, suite) {
            let j = choose|j: int|
                0 <= j < init.len() && m.dom().contains(#[trigger] init[j]) && uri_key(m[init[j]]@)
                    == key && m[init[j]]@.archive == suite;
            assert(ids[j] == init[j]);
        }
        if ids_provide(ids, m, key, suite) {
            let j = choose|j: int|
                0 <= j < ids.len() && m.dom().contains(#[trigger] ids[j]) && uri_key(m[ids[j]]@)
                    == key && m[ids[j]]@.archive == suite;
            if j < init.len() {
                assert(init[j] == ids[j]);
            }
        }
    }
}

proof fn lemma_version_entries(
    name: Seq<char>,
    vs: Seq<ScannedVersionView>,
    m: Map<usize, RepoIndex>,
    key: Seq<char>,
    suite: Option<Seq<char>>,
    n: Seq<char>,
)
    ensures
        version_entries(name, vs, m).contains((key, suite, n)) <==> (n == name && versions_provide(
            vs,
            m,
            key,
            suite,
        )),
    decreases vs.len(),
{
    if vs.len() > 0 {
        let init = vs.drop_last();
        lemma_version_entries(name, init, m, key, suite, n);
        lemma_id_entries(name, vs.last().index_ids, m, key, suite, n);
        lemma_contains_add(
            version_entries(name, init, m),
            id_entries(name, vs.last().index_ids, m),
            (key, suite, n),
        );
        let last = vs.len() - 1;
        assert(vs[last] == vs.last());
        if versions_provide(init, m, key, suite) {
            let v = choose|v: int|
                0 <= v < init.len() && ids_provide((#[trigger] init[v]).index_ids, m, key, suite);
            assert(vs[v] == init[v]);
        }
        if versions_provide(vs, m, key, suite) {
            let v = choose|v: int|
                0 <= v < vs.len() && ids_provide((#[trigger] vs[v]).index_ids, m, key, suite);
            if v < init.len() {
                assert(init[v] == vs[v]);
            }
        }
    }
}

/// The package counts record a name for a repository key and a suite
/// exactly when some package of that name has a version provided by an
/// index of that repository and suite: the PACKAGES cell of `--repos` (the
/// size of this set) is the number of such distinct names.
pub proof fn law_counts_record_the_names_a_suite_provides(
    pkgs: Seq<ScannedPackageView>,
    m: Map<usize, RepoIndex>,
    key: Seq<char>,
    suite: Option<Seq<char>>,
)
    ensures
        counted_names(count_entries(pkgs, m), key, suite) == Set::new(
            |n: Seq<char>| provides_name(pkgs, m, key, suite, n),
        ),
{
    assert forall|n: Seq<char>| #[trigger] count_entries(pkgs, m).contains((key, suite, n))
        <==> provides_name(pkgs, m, key, suite, n) by {
        lemma_count_entries(pkgs, m, key, suite, n);
    }
    assert(counted_names(count_entries(pkgs, m), key, suite) =~= Set::new(
        |n: Seq<char>| provides_name(pkgs, m, key, suite, n),
    ));
}

proof fn lemma_count_entries(
    pkgs: Seq<ScannedPackageView>,
    m: Map<usize, RepoIndex>,
    key: Seq<char>,
    suite: Option<Seq<char>>,
    n: Seq<char>,
)
    ensures
        count_entries(pkgs, m).contains((key, suite, n)) <==> provides_name(pkgs, m, key, suite, n),
    decreases pkgs.len(),
{
    if pkgs.len() > 0 {
        let init = pkgs.drop_last();
        let p = pkgs.last();
        lemma_count_entries(init, m, key, suite, n);
        lemma_version_entries(p.name, p.versions, m, key, suite, n);
        lemma_contains_add(
            count_entries(init, m),
            version_entries(p.name, p.versions, m),
            (key, suite, n),
        );
        let last = pkgs.len() - 1;
        assert(pkgs[last] == p);
        if provides_name(init, m, key, suite, n) {
            let i = choose|i: int|
                0 <= i < init.len() && (#[trigger] init[i]).name == n && versions_provide(
                    init[i].versions,
                    m,
                    key,
                    suite,
                );
            assert(pkgs[i] == init[i]);
        }
        if provides_name(pkgs, m, key, suite, n) {
            let i = choose|i: int|
                0 <= i < pkgs.len() && (#[trigger] pkgs[i]).name == n && versions_provide(
                    pkgs[i].versions,
                    m,
                    key,
                    suite,
                );
            if i < init.len() {
                assert(init[i] == pkgs[i]);
            }
        }
    }
}

/// Whether a repository's site equals a selector, ASCII case aside.
pub open spec fn site_is(r: RepositoryView, sel: Seq<char>) -> bool {
    r.site matches Some(x) && lower(x) == lower(sel)
}

/// A scheme-less selector (one without `://`, even with one more slash)
/// designates a repository through the repository's URI without its scheme
/// the same way with or without one more trailing slash: with the slash it
/// matches exactly when its site equals the slashed selector or the URI
/// without scheme equals the selector without scheme and trailing slashes.
pub proof fn law_scheme_less_selector_ignores_a_trailing_slash(r: RepositoryView, s: Seq<char>)
    requires
        find(s.push('/'), scheme_sep()) is None,
    ensures
        find(s, scheme_sep()) is None,
        strip_scheme_spec(s.push('/')) == strip_trailing(s, '/'),
        selector_matches(r, s.push('/')) == (site_is(r, s.push('/')) || lower(
            strip_scheme_spec(r.uri),
        ) == lower(strip_trailing(s, '/'))),
        selector_matches(r, s) == (site_is(r, s) || lower(strip_scheme_spec(r.uri)) == lower(
            strip_trailing(s, '/'),
        )),
{
    lemma_find_push(s, scheme_sep(), '/');
    assert(s.push('/').drop_last() =~= s);
    assert(strip_trailing(s.push('/'), '/') == strip_trailing(s, '/'));
}

/// Where no repository's site equals a scheme-less selector with or
/// without one more trailing slash, the selector resolves exactly as with the
/// slash: the same repositories match, and it resolves to the same repository
/// with the same index ids, or fails in both forms.
pub proof fn law_trailing_slash_on_a_selector_is_ignored(
    repos: Seq<RepositoryView>,
    s: Seq<char>,
    r1: Result<ResolvedRepo, AptListsError>,
    r2: Result<ResolvedRepo, AptListsError>,
)
    requires
        ws_suffix_len(s) == 0,
        trim(s).len() > 0,
        find(trim(s).push('/'), scheme_sep()) is None,
        forall|i: int|
            0 <= i < repos.len() ==> !site_is(#[trigger] repos[i], trim(s)) && !site_is(
                repos[i],
                trim(s).push('/'),
            ),
        resolve_result(repos, s, r1),
        resolve_result(repos, s.push('/'), r2),
    ensures
        matched_repos(repos, trim(s.push('/'))) == matched_repos(repos, trim(s)),
        r1 is Ok <==> r2 is Ok,
        r1 matches Ok(a) ==> r2 matches Ok(b) && a.repository@ == b.repository@ && a.index_ids@
            == b.index_ids@,
{
    lemma_ws_prefix_push(s, '/');
    lemma_trim_push(s, '/');
    let t = trim(s);
    assert(trim(s.push('/')) == t.push('/'));
    let p1 = |r: RepositoryView| selector_matches(r, t);
    let p2 = |r: RepositoryView| selector_matches(r, t.push('/'));
    assert forall|i: int| 0 <= i < repos.len() implies p1(#[trigger] repos[i]) == p2(repos[i]) by {
        law_scheme_less_selector_ignores_a_trailing_slash(repos[i], t);
    }
    lemma_filter_same(repos, p1, p2);
}

/// Filters whose predicates agree on every element are equal.
proof fn lemma_filter_same<A>(s: Seq<A>, p: spec_fn(A) -> bool, q: spec_fn(A) -> bool)
    requires
        forall|i: int| 0 <= i < s.len() ==> p(#[trigger] s[i]) == q(s[i]),
    ensures
        s.filter(p) == s.filter(q),
    decreases s.len(),
{
    if s.len() > 0 {
        let init = s.drop_last();
        assert forall|i: int| 0 <= i < init.len() implies p(#[trigger] init[i]) == q(init[i]) by {
            assert(init[i] == s[i]);
        }
        lemma_filter_same(init, p, q);
        assert(s =~= init.push(s.last()));
        init.lemma_filter_push(s.last(), p);
        init.lemma_filter_push(s.last(), q);
        assert(s[s.len() - 1] == s.last());
    } else {
        assert(s.filter(p) =~= s);
        assert(s.filter(q) =~= s);
    }
}

} // verus!
