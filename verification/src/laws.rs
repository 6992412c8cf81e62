//! Properties that hold across the library's operations.
use vstd::prelude::*;

use crate::apt::{ScannedPackageView, ScannedVersionView, SuiteNameView};
use crate::cli::{Args, Mode};
use crate::error::AptListsError;
use crate::query::{filter_matches, indexes_for_ids, installed_rows, providers, VersionRowView};
use crate::report::{run_spec, selected_view, Report};
use crate::repository::{
    distinct_some, flatten_indexes, ids_of, is_catalog_of, lookup_id, matched_repos,
    normalize_uri_spec, repo_of_group, repo_uris, resolve_result, scheme_sep, selector_matches,
    uri_key, uris_increasing, values_in_key_order, with_filename, with_key, RepoIndexView, RepositoryView, ResolvedRepo,
    ResolvedRepoView,
};
use crate::text::{
    find, is_ws, lemma_find_from, lemma_find_from_same, lemma_find_is, lemma_find_none,
    lemma_lower_char, lemma_occurs_chars, lemma_strip_concat, lemma_strip_prefix,
    lemma_trim_no_ws, lower_char, occurs_at, lemma_find_push, lemma_lex_irreflexive, lemma_trim_push,
    lemma_ws_prefix_push, lex_lt, lower, split_once, strip_trailing, trim, views, ws_prefix_len,
    ws_suffix_len,
};

verus! {

/// The part of a row that names the version: package, version, architecture
/// and the two flags.
pub open spec fn row_key(r: VersionRowView) -> (Seq<char>, Seq<char>, Seq<char>, bool, bool) {
    (r.name, r.version, r.arch, r.installed, r.auto_installed)
}

/// `--manual-installed` lists exactly the rows of `--installed` whose package
/// is not marked auto-installed, in the same order (with or without a
/// repository filter).
pub proof fn law_manual_only_drops_auto_installed(
    pairs: Seq<(ScannedPackageView, ScannedVersionView)>,
    catalog: Seq<RepositoryView>,
    f: Option<ResolvedRepoView>,
)
    ensures
        installed_rows(pairs, catalog, f, true) == installed_rows(pairs, catalog, f, false).filter(
            |r: VersionRowView| !r.auto_installed,
        ),
    decreases pairs.len(),
{
    let pred = |r: VersionRowView| !r.auto_installed;
    if pairs.len() > 0 {
        law_manual_only_drops_auto_installed(pairs.drop_last(), catalog, f);
        let prev = installed_rows(pairs.drop_last(), catalog, f, false);
        let (p, v) = pairs.last();
        if filter_matches(f, v.index_ids) {
            let row = VersionRowView { installed: true, ..crate::query::row_of(p, v, catalog, f) };
            prev.lemma_filter_push(row, pred);
        }
    } else {
        assert(Seq::<VersionRowView>::empty().filter(pred) =~= Seq::<VersionRowView>::empty());
    }
}

/// Every row of an installed-version query is marked installed.
pub proof fn law_installed_rows_are_installed(
    pairs: Seq<(ScannedPackageView, ScannedVersionView)>,
    catalog: Seq<RepositoryView>,
    f: Option<ResolvedRepoView>,
    manual_only: bool,
)
    ensures
        forall|k: int|
            0 <= k < installed_rows(pairs, catalog, f, manual_only).len() ==> (#[trigger] installed_rows(
                pairs,
                catalog,
                f,
                manual_only,
            )[k]).installed,
    decreases pairs.len(),
{
    if pairs.len() > 0 {
        law_installed_rows_are_installed(pairs.drop_last(), catalog, f, manual_only);
        let rows = installed_rows(pairs, catalog, f, manual_only);
        let prev = installed_rows(pairs.drop_last(), catalog, f, manual_only);
        assert forall|k: int| 0 <= k < rows.len() implies (#[trigger] rows[k]).installed by {
            if k < prev.len() {
                assert(rows[k] == prev[k]);
            }
        }
    }
}

/// With `--repo`, an installed version is reported exactly when one of the
/// indexes that provide that exact version belongs to the selected
/// repository: the rows name the same versions, in the same order, as the
/// unfiltered rows of just those versions.
pub proof fn law_repo_filter_keeps_exactly_provided_versions(
    pairs: Seq<(ScannedPackageView, ScannedVersionView)>,
    catalog: Seq<RepositoryView>,
    sel: ResolvedRepoView,
    manual_only: bool,
)
    ensures
        installed_rows(pairs, catalog, Some(sel), manual_only).map_values(
            |r: VersionRowView| row_key(r),
        ) == installed_rows(
            pairs.filter(
                |pv: (ScannedPackageView, ScannedVersionView)|
                    filter_matches(Some(sel), pv.1.index_ids),
            ),
            catalog,
            None,
            manual_only,
        ).map_values(|r: VersionRowView| row_key(r)),
    decreases pairs.len(),
{
    let pred = |pv: (ScannedPackageView, ScannedVersionView)|
        filter_matches(Some(sel), pv.1.index_ids);
    if pairs.len() > 0 {
        law_repo_filter_keeps_exactly_provided_versions(pairs.drop_last(), catalog, sel, manual_only);
        let init = pairs.drop_last();
        assert(pairs =~= init.push(pairs.last()));
        init.lemma_filter_push(pairs.last(), pred);
        let a = installed_rows(init, catalog, Some(sel), manual_only);
        let b = installed_rows(init.filter(pred), catalog, None, manual_only);
        let (p, v) = pairs.last();
        if pred(pairs.last()) {
            let fl = init.filter(pred).push(pairs.last());
            assert(fl.drop_last() =~= init.filter(pred));
            if !(manual_only && p.auto_installed) {
                let ra = VersionRowView { installed: true, ..crate::query::row_of(p, v, catalog, Some(sel)) };
                let rb = VersionRowView { installed: true, ..crate::query::row_of(p, v, catalog, None) };
                assert(a.push(ra).map_values(|r: VersionRowView| row_key(r)) =~= a.map_values(
                    |r: VersionRowView| row_key(r),
                ).push(row_key(ra)));
                assert(b.push(rb).map_values(|r: VersionRowView| row_key(r)) =~= b.map_values(
                    |r: VersionRowView| row_key(r),
                ).push(row_key(rb)));
            }
        }
    } else {
        assert(pairs.filter(pred) =~= pairs);
    }
}

/// Some repository with the normalized URI of `x` holds `x`.
pub open spec fn held_by_its_repository(repos: Seq<RepositoryView>, x: RepoIndexView) -> bool {
    exists|i: int|
        0 <= i < repos.len() && normalize_uri_spec(repos[i].uri) == uri_key(x)
            && #[trigger] repos[i].indexes.contains(x)
}

/// Repositories are grouped by their normalized base URI: no two
/// repositories of a catalog share it, every index belongs to the repository
/// of its URI, and a repository holds only indexes of its own URI.
pub proof fn law_catalog_partitions_indexes(repos: Seq<RepositoryView>, list: Seq<RepoIndexView>)
    requires
        is_catalog_of(repos, list),
    ensures
        forall|i: int, j: int|
            0 <= i < j < repos.len() ==> normalize_uri_spec(#[trigger] repos[i].uri)
                != normalize_uri_spec(#[trigger] repos[j].uri),
        forall|j: int| 0 <= j < list.len() ==> #[trigger] held_by_its_repository(repos, list[j]),
        forall|i: int, x: RepoIndexView|
            0 <= i < repos.len() && #[trigger] repos[i].indexes.contains(x) ==> list.contains(x)
                && uri_key(x) == normalize_uri_spec(repos[i].uri),
{
    assert forall|i: int, j: int| 0 <= i < j < repos.len() implies normalize_uri_spec(
        #[trigger] repos[i].uri,
    ) != normalize_uri_spec(#[trigger] repos[j].uri) by {
        assert(repo_of_group(repos[i], list));
        assert(repo_of_group(repos[j], list));
        if normalize_uri_spec(repos[i].uri) == normalize_uri_spec(repos[j].uri) {
            lemma_lex_irreflexive(repos[i].uri);
        }
    }
    assert forall|i: int, x: RepoIndexView|
        0 <= i < repos.len() && #[trigger] repos[i].indexes.contains(x) implies list.contains(x)
        && uri_key(x) == normalize_uri_spec(repos[i].uri) by {
        lemma_member_of_group(repos[i], list, x);
    }
    assert forall|j: int| 0 <= j < list.len() implies #[trigger] held_by_its_repository(
        repos,
        list[j],
    ) by {
        assert(crate::repository::has_repo_for(repos, list[j]));
        let i = choose|i: int|
            0 <= i < repos.len() && normalize_uri_spec(repos[i].uri) == uri_key(list[j]);
        assert(repo_of_group(repos[i], list));
        lemma_group_member(repos[i], list, j);
        assert(repos[i].indexes.contains(list[j]));
    }
}

/// An index of a repository is one of the grouped indexes of its URI.
proof fn lemma_member_of_group(r: RepositoryView, list: Seq<RepoIndexView>, x: RepoIndexView)
    requires
        repo_of_group(r, list),
        r.indexes.contains(x),
    ensures
        list.contains(x),
        uri_key(x) == normalize_uri_spec(r.uri),
{
    let k = normalize_uri_spec(r.uri);
    let g = with_key(list, k);
    let kp = |y: RepoIndexView| uri_key(y) == k;
    let fp = |y: RepoIndexView| y.filename == x.filename;
    let p = choose|p: int| 0 <= p < r.indexes.len() && r.indexes[p] == x;
    r.indexes.lemma_filter_contains(fp, p);
    assert(with_filename(r.indexes, x.filename) == with_filename(g, x.filename));
    g.lemma_filter_contains_rev(fp, x);
    let q = choose|q: int| 0 <= q < g.len() && g[q] == x;
    list.lemma_filter_pred(kp, q);
    list.lemma_filter_contains_rev(kp, x);
}

/// Every grouped index of a repository's URI is one of its indexes.
proof fn lemma_group_member(r: RepositoryView, list: Seq<RepoIndexView>, j: int)
    requires
        repo_of_group(r, list),
        0 <= j < list.len(),
        uri_key(list[j]) == normalize_uri_spec(r.uri),
    ensures
        r.indexes.contains(list[j]),
{
    let x = list[j];
    let k = normalize_uri_spec(r.uri);
    let g = with_key(list, k);
    let kp = |y: RepoIndexView| uri_key(y) == k;
    let fp = |y: RepoIndexView| y.filename == x.filename;
    list.lemma_filter_contains(kp, j);
    let q = choose|q: int| 0 <= q < g.len() && g[q] == x;
    g.lemma_filter_contains(fp, q);
    assert(with_filename(r.indexes, x.filename) == with_filename(g, x.filename));
    r.indexes.lemma_filter_contains_rev(fp, x);
}

/// Filtering a sequence in which exactly one element passes gives that
/// element.
proof fn lemma_filter_unique<A>(s: Seq<A>, p: spec_fn(A) -> bool, i: int)
    requires
        0 <= i < s.len(),
        p(s[i]),
        forall|j: int| 0 <= j < s.len() && j != i ==> !p(#[trigger] s[j]),
    ensures
        s.filter(p) == seq![s[i]],
    decreases s.len(),
{
    let init = s.drop_last();
    assert(s =~= init.push(s.last()));
    init.lemma_filter_push(s.last(), p);
    if i == s.len() - 1 {
        assert(init.all(|x: A| !p(x))) by {
            assert forall|k: int| 0 <= k < init.len() implies !p(#[trigger] init[k]) by {
                assert(init[k] == s[k]);
            }
        }
        init.lemma_all_neg_filter_empty(p);
        assert(init.filter(p) =~= Seq::<A>::empty());
    } else {
        assert forall|j: int| 0 <= j < init.len() && j != i implies !p(#[trigger] init[j]) by {
            assert(init[j] == s[j]);
        }
        lemma_filter_unique(init, p, i);
    }
}

/// A selector with a scheme designates the repository whose base URI it
/// equals after normalization: a repository URI, given with or without its
/// trailing slash and in any case of scheme and host, resolves to that
/// repository and exactly the ids of its indexes.
pub proof fn law_uri_selector_resolves_to_its_repository(
    list: Seq<RepoIndexView>,
    repos: Seq<RepositoryView>,
    i: int,
    selector: Seq<char>,
    r: Result<ResolvedRepo, AptListsError>,
)
    requires
        is_catalog_of(repos, list),
        0 <= i < repos.len(),
        find(trim(selector), scheme_sep()) is Some,
        normalize_uri_spec(trim(selector)) == normalize_uri_spec(repos[i].uri),
        resolve_result(repos, selector, r),
    ensures
        r matches Ok(res) && res.repository@ == repos[i] && res.index_ids@ == ids_of(
            repos[i].indexes,
        ),
{
    let t = trim(selector);
    law_catalog_partitions_indexes(repos, list);
    lemma_find_from(t, scheme_sep(), 0);
    let p = |rv: RepositoryView| selector_matches(rv, t);
    assert forall|j: int| 0 <= j < repos.len() && j != i implies !p(#[trigger] repos[j]) by {
        if j < i {
            assert(normalize_uri_spec(repos[j].uri) != normalize_uri_spec(repos[i].uri));
        } else {
            assert(normalize_uri_spec(repos[i].uri) != normalize_uri_spec(repos[j].uri));
        }
    }
    lemma_filter_unique(repos, p, i);
    assert(matched_repos(repos, t) == seq![repos[i]]);
}

/// Filtering keeps the strictly increasing order of the URIs.
proof fn lemma_filter_keeps_uri_order(s: Seq<RepositoryView>, p: spec_fn(RepositoryView) -> bool)
    requires
        uris_increasing(s),
    ensures
        uris_increasing(s.filter(p)),
    decreases s.len(),
{
    if s.len() > 0 {
        let init = s.drop_last();
        assert(s =~= init.push(s.last()));
        init.lemma_filter_push(s.last(), p);
        lemma_filter_keeps_uri_order(init, p);
        let f = init.filter(p);
        if p(s.last()) {
            let g = f.push(s.last());
            assert forall|i: int, j: int| 0 <= i < j < g.len() implies lex_lt(
                #[trigger] g[i].uri,
                #[trigger] g[j].uri,
            ) by {
                if j == g.len() - 1 {
                    assert(f.contains(g[i]));
                    init.lemma_filter_contains_rev(p, g[i]);
                    let k = choose|k: int| 0 <= k < init.len() && init[k] == g[i];
                    assert(s[k] == g[i]);
                } else {
                    assert(g[i] == f[i] && g[j] == f[j]);
                }
            }
        }
    } else {
        assert(s.filter(p) =~= s);
    }
}

/// An ambiguous selector reports at least two candidate URIs, distinct and
/// in increasing order.
pub proof fn law_ambiguity_lists_distinct_candidates(
    repos: Seq<RepositoryView>,
    selector: Seq<char>,
    r: Result<ResolvedRepo, AptListsError>,
)
    requires
        uris_increasing(repos),
        resolve_result(repos, selector, r),
        r matches Err(AptListsError::AmbiguousRepoSelector { .. }),
    ensures
        r matches Err(AptListsError::AmbiguousRepoSelector { candidates, .. }) && candidates@.len() >= 2
            && forall|i: int, j: int|
            0 <= i < j < candidates@.len() ==> lex_lt(
                #[trigger] candidates@[i]@,
                #[trigger] candidates@[j]@,
            ),
{
    let t = trim(selector);
    let p = |rv: RepositoryView| selector_matches(rv, t);
    lemma_filter_keeps_uri_order(repos, p);
    match r {
        Err(AptListsError::AmbiguousRepoSelector { selector: _, candidates }) => {
            let m = matched_repos(repos, t);
            assert(views(candidates@) == repo_uris(m));
            assert(views(candidates@).len() == candidates@.len());
            assert(repo_uris(m).len() == m.len());
            assert forall|i: int, j: int| 0 <= i < j < candidates@.len() implies lex_lt(
                #[trigger] candidates@[i]@,
                #[trigger] candidates@[j]@,
            ) by {
                assert(views(candidates@)[i] == candidates@[i]@);
                assert(views(candidates@)[j] == candidates@[j]@);
                assert(repo_uris(m)[i] == m[i].uri);
                assert(repo_uris(m)[j] == m[j].uri);
            }
        },
        _ => {},
    }
}

/// The three outcomes of `--repo` are never confused: unless packages are
/// named (which may fail on an unknown name), an invocation with a selector
/// succeeds exactly when the cache has package indexes and the selector
/// designates one repository, even when nothing matches; otherwise it fails
/// with the no-indexes, not-found or ambiguity error.
pub proof fn law_selector_outcomes_are_distinct(
    args: Args,
    pkgs: Seq<ScannedPackageView>,
    catalog: Seq<RepositoryView>,
    counts: Seq<SuiteNameView>,
    r: Report,
)
    requires
        run_spec(args, pkgs, catalog, counts, r),
        args.repo is Some,
        args.mode_spec() != Mode::Packages,
    ensures
        r.outcome is Ok <==> (catalog.len() > 0 && selected_view(catalog, args.repo->0@) is Some),
        r.outcome matches Err(e) ==> (e is NoPackageIndexes || e is RepoNotFound
            || e is AmbiguousRepoSelector),
{
}

/// The distinct values of a field: each present value exactly once.
pub proof fn law_distinct_values(s: Seq<Option<Seq<char>>>)
    ensures
        distinct_some(s).no_duplicates(),
        forall|v: Seq<char>| #[trigger] distinct_some(s).contains(v) <==> s.contains(Some(v)),
    decreases s.len(),
{
    if s.len() > 0 {
        let init = s.drop_last();
        law_distinct_values(init);
        assert(s =~= init.push(s.last()));
        let prev = distinct_some(init);
        assert forall|v: Seq<char>| #[trigger] distinct_some(s).contains(v) <==> s.contains(Some(v)) by {
            assert(s.contains(Some(v)) <==> (init.contains(Some(v)) || s.last() == Some(v))) by {
                if s.contains(Some(v)) {
                    let k = choose|k: int| 0 <= k < s.len() && s[k] == Some(v);
                    if k < init.len() {
                        assert(init[k] == Some(v));
                    }
                }
                if init.contains(Some(v)) {
                    let k = choose|k: int| 0 <= k < init.len() && init[k] == Some(v);
                    assert(s[k] == Some(v));
                }
                if s.last() == Some(v) {
                    assert(s[s.len() - 1] == Some(v));
                }
            }
            match s.last() {
                Some(w) => {
                    if !prev.contains(w) {
                        assert(prev.push(w).contains(v) <==> (prev.contains(v) || v == w)) by {
                            if prev.push(w).contains(v) {
                                let k = choose|k: int| 0 <= k < prev.len() + 1 && prev.push(w)[k] == v;
                                if k < prev.len() {
                                    assert(prev[k] == v);
                                }
                            }
                            if prev.contains(v) {
                                let k = choose|k: int| 0 <= k < prev.len() && prev[k] == v;
                                assert(prev.push(w)[k] == v);
                            }
                            assert(prev.push(w)[prev.len() as int] == w);
                        }
                    }
                },
                None => {},
            }
        }
    }
}

/// A version that no package index provides never passes a `--repo` filter,
/// and without a filter it is reported with an empty repository list.
pub proof fn law_unprovided_version(catalog: Seq<RepositoryView>, sel: ResolvedRepoView)
    ensures
        !filter_matches(Some(sel), Seq::<usize>::empty()),
        providers(catalog, Seq::<usize>::empty(), None) == Seq::<RepoIndexView>::empty(),
{
}

/// Without a filter, a version is reported with every package index of the
/// catalog that provides it (no candidate-priority filtering).
pub proof fn law_every_provider_is_reported(catalog: Seq<RepositoryView>, ids: Seq<usize>)
    ensures
        forall|k: int|
            0 <= k < ids.len() && #[trigger] lookup_id(flatten_indexes(catalog), ids[k]) is Some
                ==> providers(catalog, ids, None).contains(
                lookup_id(flatten_indexes(catalog), ids[k])->0,
            ),
    decreases ids.len(),
{
    let flat = flatten_indexes(catalog);
    if ids.len() > 0 {
        let init = ids.drop_last();
        law_every_provider_is_reported(catalog, init);
        let prev = indexes_for_ids(flat, init);
        assert forall|k: int|
            0 <= k < ids.len() && #[trigger] lookup_id(flat, ids[k]) is Some implies providers(
            catalog,
            ids,
            None,
        ).contains(lookup_id(flat, ids[k])->0) by {
            let x = lookup_id(flat, ids[k])->0;
            let cur = providers(catalog, ids, None);
            if k < init.len() {
                assert(init[k] == ids[k]);
                assert(prev.contains(x));
                let q = choose|q: int| 0 <= q < prev.len() && prev[q] == x;
                match lookup_id(flat, ids.last()) {
                    Some(y) => {
                        assert(cur == prev.push(y));
                        assert(cur[q] == x);
                    },
                    None => {},
                }
            } else {
                assert(cur == prev.push(x));
                assert(cur[prev.len() as int] == x);
            }
        }
    }
}

/// Whether appending one slash changes how `u` normalizes: `u` ends in
/// whitespace that follows text, or, trimmed, it holds no scheme separator
/// but ends in `:/` after text with an ASCII upper-case letter, so that the
/// slash completes a separator that lower-cases that text.
pub open spec fn slash_sensitive(u: Seq<char>) -> bool {
    let t = trim(u);
    ||| (ws_suffix_len(u) > 0 && ws_prefix_len(u) < u.len())
    ||| (find(t, scheme_sep()) is None && find(t.push('/'), scheme_sep()) is Some && lower(
        t.subrange(0, t.len() - 2),
    ) != t.subrange(0, t.len() - 2))
}

/// The host part and path after a scheme separator, as normalization
/// rewrites them.
spec fn host_and_path(rest: Seq<char>) -> Seq<char> {
    match split_once(rest, seq!['/']) {
        Some(hp) => lower(hp.0) + seq!['/'] + hp.1,
        None => lower(rest),
    }
}

/// The lower-cased scheme and host of a trimmed URI, before trailing slashes
/// are dropped.
spec fn lowered(t: Seq<char>) -> Seq<char> {
    match split_once(t, scheme_sep()) {
        Some(parts) => lower(parts.0) + scheme_sep() + host_and_path(parts.1),
        None => t,
    }
}

/// Dropping trailing slashes ignores one more slash.
proof fn lemma_strip_push_slash(x: Seq<char>)
    ensures
        strip_trailing(x.push('/'), '/') == strip_trailing(x, '/'),
{
    assert(x.push('/').drop_last() =~= x);
}

/// A slash after the host part and path is a slash after the rewritten ones.
proof fn lemma_host_and_path_push(rest: Seq<char>)
    ensures
        host_and_path(rest.push('/')) == host_and_path(rest).push('/'),
{
    let sl = seq!['/'];
    let r2 = rest.push('/');
    lemma_find_push(rest, sl, '/');
    match find(rest, sl) {
        Some(j) => {
            lemma_find_from(rest, sl, 0);
            assert(r2.subrange(0, j) =~= rest.subrange(0, j));
            assert(r2.subrange(j + 1, r2.len() as int) =~= rest.subrange(j + 1, rest.len() as int).push(
                '/',
            ));
            assert(lower(rest.subrange(0, j)) + sl + rest.subrange(j + 1, rest.len() as int).push('/')
                =~= (lower(rest.subrange(0, j)) + sl + rest.subrange(j + 1, rest.len() as int)).push(
                '/',
            ));
        },
        None => {
            assert(r2.subrange(rest.len() as int, rest.len() + 1int) =~= sl);
            assert(crate::text::occurs_at(r2, sl, rest.len() as int));
            lemma_find_from(r2, sl, 0);
            assert(find(r2, sl) == Some(rest.len() as int));
            assert(r2.subrange(0, rest.len() as int) =~= rest);
            assert(r2.subrange(rest.len() + 1int, r2.len() as int) =~= Seq::<char>::empty());
            assert(lower(rest) + sl + Seq::<char>::empty() =~= lower(rest).push('/'));
        },
    }
}

/// A URI normalizes the same with or without one more trailing slash (the
/// selector `https://deb.debian.org/debian` designates the repository
/// `https://deb.debian.org/debian/`), unless the slash itself changes it.
pub proof fn law_trailing_slash_is_ignored(u: Seq<char>)
    requires
        !slash_sensitive(u),
    ensures
        normalize_uri_spec(u.push('/')) == normalize_uri_spec(u),
{
    let sep = scheme_sep();
    lemma_ws_prefix_push(u, '/');
    lemma_trim_push(u, '/');
    let t = trim(u);
    let v = t.push('/');
    assert(trim(u.push('/')) == v);
    assert(lowered(t) == match split_once(t, sep) {
        Some(parts) => lower(parts.0) + sep + match split_once(parts.1, seq!['/']) {
            Some(hp) => lower(hp.0) + seq!['/'] + hp.1,
            None => lower(parts.1),
        },
        None => t,
    });
    lemma_find_push(t, sep, '/');
    lemma_find_from(t, sep, 0);
    lemma_find_from(v, sep, 0);
    match find(t, sep) {
        Some(k) => {
            let a = t.subrange(0, k);
            let rest = t.subrange(k + 3, t.len() as int);
            assert(v.subrange(0, k) =~= a);
            assert(v.subrange(k + 3, v.len() as int) =~= rest.push('/'));
            lemma_host_and_path_push(rest);
            assert(lowered(v) =~= lowered(t).push('/'));
            lemma_strip_push_slash(lowered(t));
        },
        None => {
            match find(v, sep) {
                None => {
                    lemma_strip_push_slash(t);
                },
                Some(j) => {
                    let a = t.subrange(0, t.len() - 2);
                    assert(j == t.len() - 2);
                    assert(v.subrange(j, j + 3) == sep);
                    assert(v.subrange(j, j + 3)[0] == ':');
                    assert(v.subrange(j, j + 3)[1] == '/');
                    assert(t =~= a + seq![':', '/']);
                    assert(v.subrange(0, j) =~= a);
                    assert(v.subrange(j + 3, v.len() as int) =~= Seq::<char>::empty());
                    assert(find(Seq::<char>::empty(), seq!['/']) is None);
                    assert(lower(Seq::<char>::empty()) =~= Seq::<char>::empty());
                    assert(lowered(v) =~= a + seq![':', '/', '/']);
                    assert((a + seq![':', '/']).drop_last() =~= a + seq![':']);
                    assert((a + seq![':', '/', '/']).drop_last() =~= a + seq![':', '/']);
                    assert(strip_trailing(a + seq![':', '/', '/'], '/') == strip_trailing(
                        a + seq![':', '/'],
                        '/',
                    ));
                },
            }
        },
    }
}

/// The row that an installed version gets under a `--repo` selection: the
/// version itself, marked installed, with the indexes of the selected
/// repository that carry it.
pub open spec fn selected_row(
    pv: (ScannedPackageView, ScannedVersionView),
    sel: ResolvedRepoView,
) -> VersionRowView {
    VersionRowView {
        name: pv.0.name,
        version: pv.1.version,
        arch: pv.1.arch,
        installed: true,
        auto_installed: pv.0.auto_installed,
        repositories: sel.repository.indexes.filter(
            |x: RepoIndexView| pv.1.index_ids.contains(x.id),
        ),
    }
}

/// Whether an installed version is kept under a `--repo` selection (and the
/// manual-only filter).
pub open spec fn kept_under(
    pv: (ScannedPackageView, ScannedVersionView),
    sel: ResolvedRepoView,
    manual_only: bool,
) -> bool {
    !(manual_only && pv.0.auto_installed) && filter_matches(Some(sel), pv.1.index_ids)
}

/// With a resolved `--repo` selection, the installed query lists exactly the
/// installed versions that an index of the selected repository provides, in
/// order, each with exactly the selected repository's indexes that carry that
/// version, a list that is never empty.
pub proof fn law_selected_rows_list_the_selected_providers(
    pairs: Seq<(ScannedPackageView, ScannedVersionView)>,
    catalog: Seq<RepositoryView>,
    sel: ResolvedRepoView,
    manual_only: bool,
)
    requires
        sel.index_ids == ids_of(sel.repository.indexes),
    ensures
        installed_rows(pairs, catalog, Some(sel), manual_only) == pairs.filter(
            |pv: (ScannedPackageView, ScannedVersionView)| kept_under(pv, sel, manual_only),
        ).map_values(|pv: (ScannedPackageView, ScannedVersionView)| selected_row(pv, sel)),
        forall|k: int|
            0 <= k < installed_rows(pairs, catalog, Some(sel), manual_only).len() ==> (
            #[trigger] installed_rows(pairs, catalog, Some(sel), manual_only)[k]).repositories.len()
                > 0,
    decreases pairs.len(),
{
    let pred = |pv: (ScannedPackageView, ScannedVersionView)| kept_under(pv, sel, manual_only);
    let f = |pv: (ScannedPackageView, ScannedVersionView)| selected_row(pv, sel);
    let rows = installed_rows(pairs, catalog, Some(sel), manual_only);
    if pairs.len() > 0 {
        let init = pairs.drop_last();
        law_selected_rows_list_the_selected_providers(init, catalog, sel, manual_only);
        assert(pairs =~= init.push(pairs.last()));
        init.lemma_filter_push(pairs.last(), pred);
        let prev = installed_rows(init, catalog, Some(sel), manual_only);
        let (p, v) = pairs.last();
        if pred(pairs.last()) {
            let row = VersionRowView { installed: true, ..crate::query::row_of(p, v, catalog, Some(sel)) };
            assert(row == selected_row(pairs.last(), sel));
            assert(init.filter(pred).push(pairs.last()).map_values(f) =~= init.filter(pred).map_values(
                f,
            ).push(f(pairs.last())));
            lemma_selected_providers_nonempty(v, sel);
            assert forall|k: int| 0 <= k < rows.len() implies (#[trigger] rows[k]).repositories.len()
                > 0 by {
                if k < prev.len() {
                    assert(rows[k] == prev[k]);
                }
            }
        }
    } else {
        assert(pairs.filter(pred) =~= pairs);
        assert(pairs.filter(pred).map_values(f) =~= Seq::<VersionRowView>::empty());
    }
}

/// A version that passes a resolved selection is carried by at least one
/// index of the selected repository.
proof fn lemma_selected_providers_nonempty(v: ScannedVersionView, sel: ResolvedRepoView)
    requires
        sel.index_ids == ids_of(sel.repository.indexes),
        filter_matches(Some(sel), v.index_ids),
    ensures
        sel.repository.indexes.filter(|x: RepoIndexView| v.index_ids.contains(x.id)).len() > 0,
{
    let idx = sel.repository.indexes;
    let q = choose|q: int| 0 <= q < v.index_ids.len() && sel.index_ids.contains(#[trigger] v.index_ids[q]);
    let t = choose|t: int| 0 <= t < sel.index_ids.len() && sel.index_ids[t] == v.index_ids[q];
    assert(idx[t].id == sel.index_ids[t]);
    assert(v.index_ids.contains(idx[t].id));
    let pr = |x: RepoIndexView| v.index_ids.contains(x.id);
    idx.lemma_filter_contains(pr, t);
}

/// How often `x` occurs in `s`.
pub open spec fn count_of<A>(s: Seq<A>, x: A) -> nat {
    s.filter(|y: A| y == x).len()
}

/// Counting in a filtered sequence.
proof fn lemma_count_filter<A>(s: Seq<A>, q: spec_fn(A) -> bool, x: A)
    ensures
        count_of(s.filter(q), x) == if q(x) {
            count_of(s, x)
        } else {
            0
        },
    decreases s.len(),
{
    let eq = |y: A| y == x;
    if s.len() > 0 {
        let init = s.drop_last();
        lemma_count_filter(init, q, x);
        assert(s =~= init.push(s.last()));
        init.lemma_filter_push(s.last(), q);
        init.lemma_filter_push(s.last(), eq);
        if q(s.last()) {
            init.filter(q).lemma_filter_push(s.last(), eq);
        }
    } else {
        assert(s.filter(q) =~= s);
        assert(s.filter(eq) =~= s);
    }
}

/// Counting in a concatenation.
proof fn lemma_count_add<A>(a: Seq<A>, b: Seq<A>, x: A)
    ensures
        count_of(a + b, x) == count_of(a, x) + count_of(b, x),
{
    Seq::filter_distributes_over_add(a, b, |y: A| y == x);
}

/// An element occurs exactly when its count is positive.
proof fn lemma_count_contains<A>(s: Seq<A>, x: A)
    ensures
        count_of(s, x) > 0 <==> s.contains(x),
{
    let eq = |y: A| y == x;
    if s.contains(x) {
        let j = choose|j: int| 0 <= j < s.len() && s[j] == x;
        s.lemma_filter_contains(eq, j);
    }
    if count_of(s, x) > 0 {
        s.lemma_filter_pred(eq, 0);
        assert(s.filter(eq).contains(s.filter(eq)[0]));
        s.lemma_filter_contains_rev(eq, x);
    }
}

/// A repository holds an index as often as the grouped list holds it when the
/// index has the repository's key, and never otherwise.
proof fn lemma_count_in_repository(r: RepositoryView, list: Seq<RepoIndexView>, x: RepoIndexView)
    requires
        repo_of_group(r, list),
    ensures
        count_of(r.indexes, x) == if uri_key(x) == normalize_uri_spec(r.uri) {
            count_of(list, x)
        } else {
            0
        },
{
    let k = normalize_uri_spec(r.uri);
    let g = with_key(list, k);
    let fp = |y: RepoIndexView| y.filename == x.filename;
    let kp = |y: RepoIndexView| uri_key(y) == k;
    lemma_count_filter(r.indexes, fp, x);
    lemma_count_filter(g, fp, x);
    assert(with_filename(r.indexes, x.filename) == with_filename(g, x.filename));
    assert(r.indexes.filter(fp) == with_filename(r.indexes, x.filename));
    assert(g.filter(fp) == with_filename(g, x.filename));
    lemma_count_filter(list, kp, x);
    assert(g == list.filter(kp));
}

/// The indexes of the first `n` repositories hold an index as often as the
/// list when one of them has its key, and never otherwise.
proof fn lemma_count_in_prefix(
    repos: Seq<RepositoryView>,
    list: Seq<RepoIndexView>,
    x: RepoIndexView,
    n: int,
)
    requires
        is_catalog_of(repos, list),
        0 <= n <= repos.len(),
    ensures
        count_of(flatten_indexes(repos.take(n)), x) == if exists|i: int|
            0 <= i < n && normalize_uri_spec(#[trigger] repos[i].uri) == uri_key(x) {
            count_of(list, x)
        } else {
            0
        },
    decreases n,
{
    if n == 0 {
        assert(flatten_indexes(repos.take(0)) =~= Seq::<RepoIndexView>::empty());
        assert(count_of(Seq::<RepoIndexView>::empty(), x) == 0);
    } else {
        lemma_count_in_prefix(repos, list, x, n - 1);
        law_catalog_partitions_indexes(repos, list);
        let t = repos.take(n);
        assert(t.drop_last() =~= repos.take(n - 1));
        assert(t.last() == repos[n - 1]);
        lemma_count_add(flatten_indexes(repos.take(n - 1)), repos[n - 1].indexes, x);
        assert(repo_of_group(repos[n - 1], list));
        lemma_count_in_repository(repos[n - 1], list, x);
        if normalize_uri_spec(repos[n - 1].uri) == uri_key(x) {
            assert forall|i: int| 0 <= i < n - 1 implies normalize_uri_spec(
                #[trigger] repos[i].uri,
            ) != uri_key(x) by {
                assert(normalize_uri_spec(repos[i].uri) != normalize_uri_spec(repos[n - 1].uri));
            }
        }
    }
}

/// The URI of a repository is that of one of its indexes.
pub open spec fn uri_of_an_index(r: RepositoryView) -> bool {
    exists|j: int| 0 <= j < r.indexes.len() && (#[trigger] r.indexes[j]).uri == r.uri
}

/// The catalog holds every index of the grouped list exactly as often as the
/// list does (taken together, the repositories' indexes are a permutation of
/// the list), and each repository's URI is that of one of its indexes.
pub proof fn law_catalog_holds_each_index_once(repos: Seq<RepositoryView>, list: Seq<RepoIndexView>)
    requires
        is_catalog_of(repos, list),
    ensures
        forall|x: RepoIndexView| #[trigger]
            count_of(flatten_indexes(repos), x) == count_of(list, x),
        forall|i: int| 0 <= i < repos.len() ==> #[trigger] uri_of_an_index(repos[i]),
{
    assert forall|x: RepoIndexView| #[trigger]
        count_of(flatten_indexes(repos), x) == count_of(list, x) by {
        lemma_count_in_prefix(repos, list, x, repos.len() as int);
        assert(repos.take(repos.len() as int) =~= repos);
        lemma_count_contains(list, x);
        if count_of(list, x) > 0 {
            let j = choose|j: int| 0 <= j < list.len() && list[j] == x;
            assert(crate::repository::has_repo_for(repos, list[j]));
        }
    }
    assert forall|i: int| 0 <= i < repos.len() implies #[trigger] uri_of_an_index(repos[i]) by {
        let r = repos[i];
        assert(repo_of_group(r, list));
        let k = normalize_uri_spec(r.uri);
        let kp = |y: RepoIndexView| uri_key(y) == k;
        let g = with_key(list, k);
        list.lemma_filter_pred(kp, 0);
        assert(g.contains(g[0]));
        list.lemma_filter_contains_rev(kp, g[0]);
        let q = choose|q: int| 0 <= q < list.len() && list[q] == g[0];
        lemma_group_member(r, list, q);
        let j = choose|j: int| 0 <= j < r.indexes.len() && r.indexes[j] == list[q];
        assert(r.indexes[j].uri == r.uri);
    }
}

/// Looking up an id in a sequence in which every index with that id is `x`.
proof fn lemma_lookup_id_unique(s: Seq<RepoIndexView>, id: usize, x: RepoIndexView)
    requires
        forall|j: int| 0 <= j < s.len() && (#[trigger] s[j]).id == id ==> s[j] == x,
    ensures
        (exists|j: int| 0 <= j < s.len() && (#[trigger] s[j]).id == id) ==> lookup_id(s, id) == Some(
            x,
        ),
        (forall|j: int| 0 <= j < s.len() ==> (#[trigger] s[j]).id != id) ==> lookup_id(s, id) is None,
    decreases s.len(),
{
    if s.len() > 0 {
        let rest = s.drop_first();
        assert forall|j: int| 0 <= j < rest.len() && (#[trigger] rest[j]).id == id implies rest[j]
            == x by {
            assert(rest[j] == s[j + 1]);
        }
        lemma_lookup_id_unique(rest, id, x);
        if s[0].id != id {
            if exists|j: int| 0 <= j < s.len() && (#[trigger] s[j]).id == id {
                let j = choose|j: int| 0 <= j < s.len() && (#[trigger] s[j]).id == id;
                assert(rest[j - 1] == s[j]);
            }
            if forall|j: int| 0 <= j < s.len() ==> (#[trigger] s[j]).id != id {
                assert forall|j: int| 0 <= j < rest.len() implies (#[trigger] rest[j]).id != id by {
                    assert(rest[j] == s[j + 1]);
                }
            }
        }
    }
}

/// When every index of a map is stored under its own id, looking an id up in
/// the catalog built from the map gives the map's index for that id, and
/// nothing for an id that is not a key of the map.
pub proof fn law_index_lookup_agrees_with_the_map(
    m: Map<usize, crate::repository::RepoIndex>,
    list: Seq<RepoIndexView>,
    repos: Seq<RepositoryView>,
    id: usize,
)
    requires
        values_in_key_order(m, list),
        is_catalog_of(repos, list),
        forall|k: usize| #[trigger] m.dom().contains(k) ==> m[k].id == k,
    ensures
        lookup_id(flatten_indexes(repos), id) == if m.dom().contains(id) {
            Some(m[id]@)
        } else {
            None
        },
{
    let flat = flatten_indexes(repos);
    law_catalog_holds_each_index_once(repos, list);
    let ks = choose|ks: Seq<usize>|
        {
            &&& forall|i: int, j: int| 0 <= i < j < ks.len() ==> ks[i] < ks[j]
            &&& ks.to_set() == m.dom()
            &&& list == ks.map_values(|k: usize| m[k]@)
        };
    // Every index of the catalog is the map's index under its own id.
    assert forall|j: int| 0 <= j < flat.len() implies m.dom().contains((#[trigger] flat[j]).id)
        && flat[j] == m[flat[j].id]@ by {
        lemma_count_contains(flat, flat[j]);
        lemma_count_contains(list, flat[j]);
        let i = choose|i: int| 0 <= i < list.len() && list[i] == flat[j];
        assert(list[i] == m[ks[i]]@);
        assert(ks.to_set().contains(ks[i]));
    }
    let x = m[id]@;
    assert forall|j: int| 0 <= j < flat.len() && (#[trigger] flat[j]).id == id implies flat[j]
        == x by {}
    lemma_lookup_id_unique(flat, id, x);
    if m.dom().contains(id) {
        assert(ks.to_set().contains(id));
        let i = choose|i: int| 0 <= i < ks.len() && ks[i] == id;
        assert(list[i] == x);
        lemma_count_contains(list, x);
        lemma_count_contains(flat, x);
        let j = choose|j: int| 0 <= j < flat.len() && flat[j] == x;
        assert(flat[j].id == id);
    }
}

/// No character of `s` is whitespace.
pub open spec fn no_ws(s: Seq<char>) -> bool {
    forall|i: int| 0 <= i < s.len() ==> !is_ws(#[trigger] s[i])
}

/// Normalization is trimming, rewriting scheme and host, and dropping
/// trailing slashes.
proof fn lemma_normalize_is(x: Seq<char>)
    ensures
        normalize_uri_spec(x) == strip_trailing(lowered(trim(x)), '/'),
{
    let t = trim(x);
    assert(lowered(t) == match split_once(t, scheme_sep()) {
        Some(parts) => lower(parts.0) + scheme_sep() + match split_once(parts.1, seq!['/']) {
            Some(hp) => lower(hp.0) + seq!['/'] + hp.1,
            None => lower(parts.1),
        },
        None => t,
    });
}

/// Lower-casing twice is lower-casing once; it keeps the absence of
/// whitespace.
proof fn lemma_lower_twice(x: Seq<char>)
    ensures
        lower(lower(x)) == lower(x),
        no_ws(x) ==> no_ws(lower(x)),
{
    assert forall|i: int| 0 <= i < x.len() implies #[trigger] lower(lower(x))[i] == lower(x)[i]
        && (is_ws(lower(x)[i]) <==> is_ws(x[i])) by {
        lemma_lower_char(x[i]);
    }
    assert(lower(lower(x)) =~= lower(x));
}

/// No character of `x` is a slash.
spec fn no_slash(x: Seq<char>) -> bool {
    forall|i: int| 0 <= i < x.len() ==> #[trigger] x[i] != '/'
}

/// A sequence without slashes has no slash occurrence, lower-cased or not,
/// and is kept by dropping trailing slashes.
proof fn lemma_no_slash(x: Seq<char>)
    requires
        no_slash(x),
    ensures
        find(x, seq!['/']) is None,
        find(lower(x), seq!['/']) is None,
        no_slash(lower(x)),
        strip_trailing(x, '/') == x,
        strip_trailing(lower(x), '/') == lower(x),
{
    let sl = seq!['/'];
    assert forall|i: int| 0 <= i < x.len() implies #[trigger] lower(x)[i] != '/' by {
        lemma_lower_char(x[i]);
    }
    assert forall|p: int| 0 <= p implies !#[trigger] occurs_at(x, sl, p) by {
        lemma_occurs_chars(x, sl, p);
        if occurs_at(x, sl, p) {
            assert(x[p + 0] == sl[0]);
        }
    }
    assert forall|p: int| 0 <= p implies !#[trigger] occurs_at(lower(x), sl, p) by {
        lemma_occurs_chars(lower(x), sl, p);
        if occurs_at(lower(x), sl, p) {
            assert(lower(x)[p + 0] == sl[0]);
        }
    }
    lemma_find_none(x, sl);
    lemma_find_none(lower(x), sl);
    if x.len() > 0 {
        assert(x.last() != '/');
        assert(lower(x).last() != '/');
    }
}

/// The rewritten host part and path, once its trailing slashes are dropped,
/// is rewritten to itself; it has no whitespace when the input has none.
proof fn lemma_host_and_path_stable(r: Seq<char>)
    ensures
        strip_trailing(host_and_path(r), '/').len() > 0 ==> host_and_path(
            strip_trailing(host_and_path(r), '/'),
        ) == strip_trailing(host_and_path(r), '/'),
        no_ws(r) ==> no_ws(host_and_path(r)),
{
    let sl = seq!['/'];
    lemma_find_from(r, sl, 0);
    match find(r, sl) {
        Some(j) => {
            let h = r.subrange(0, j);
            let p = r.subrange(j + 1, r.len() as int);
            assert forall|q: int| 0 <= q < h.len() implies #[trigger] h[q] != '/' by {
                lemma_occurs_chars(r, sl, q);
                assert(h[q] == r[q + 0]);
            }
            lemma_no_slash(h);
            lemma_lower_twice(h);
            let lh = lower(h);
            let b = lh + sl + p;
            assert(host_and_path(r) == b);
            lemma_strip_concat(lh + sl, p, '/');
            let sp = strip_trailing(p, '/');
            if sp.len() > 0 {
                let sb = lh + sl + sp;
                assert(strip_trailing(b, '/') == sb);
                assert(occurs_at(sb, sl, lh.len() as int)) by {
                    lemma_occurs_chars(sb, sl, lh.len() as int);
                }
                assert forall|q: int| 0 <= q < lh.len() implies !#[trigger] occurs_at(sb, sl, q) by {
                    lemma_occurs_chars(sb, sl, q);
                    if occurs_at(sb, sl, q) {
                        assert(sb[q + 0] == sl[0]);
                        assert(sb[q + 0] == lh[q]);
                    }
                }
                lemma_find_is(sb, sl, lh.len() as int);
                assert(sb.subrange(0, lh.len() as int) =~= lh);
                assert(sb.subrange(lh.len() + 1int, sb.len() as int) =~= sp);
            } else {
                assert((lh + sl).drop_last() =~= lh);
                assert(strip_trailing(lh + sl, '/') == strip_trailing(lh, '/'));
            }
            if no_ws(r) {
                assert forall|i: int| 0 <= i < b.len() implies !is_ws(#[trigger] b[i]) by {
                    if i < lh.len() {
                        lemma_lower_char(h[i]);
                        assert(!is_ws(h[i]));
                    } else if i > lh.len() {
                        assert(b[i] == r[j + 1 + (i - lh.len() - 1)]);
                    }
                }
            }
        },
        None => {
            assert forall|q: int| 0 <= q < r.len() implies #[trigger] r[q] != '/' by {
                lemma_occurs_chars(r, sl, q);
                assert(r[q + 0] == r[q]);
            }
            lemma_no_slash(r);
            lemma_lower_twice(r);
        },
    }
}

/// The scheme separator occurs nowhere in `x`.
spec fn no_sep(x: Seq<char>) -> bool {
    forall|q: int| 0 <= q ==> !#[trigger] occurs_at(x, scheme_sep(), q)
}

/// Lower-casing creates no scheme separator.
proof fn lemma_no_sep_lower(a: Seq<char>)
    requires
        no_sep(a),
    ensures
        no_sep(lower(a)),
{
    let sep = scheme_sep();
    let la = lower(a);
    assert forall|q: int| 0 <= q implies !#[trigger] occurs_at(la, sep, q) by {
        lemma_occurs_chars(la, sep, q);
        lemma_occurs_chars(a, sep, q);
        if occurs_at(la, sep, q) {
            assert forall|i: int| 0 <= i < sep.len() implies a[q + i] == #[trigger] sep[i] by {
                lemma_lower_char(a[q + i]);
                assert(la[q + i] == sep[i]);
            }
        }
    }
}

/// A separator in `la + tail` starts after `la` when `la` holds none and the
/// tail starts with `:` followed by something other than `/` or nothing
/// fitting.
proof fn lemma_sep_after(la: Seq<char>, tail: Seq<char>, p: int)
    requires
        no_sep(la),
        tail.len() > 0,
        tail[0] == ':',
        0 <= p < la.len(),
    ensures
        !occurs_at(la + tail, scheme_sep(), p),
{
    let sep = scheme_sep();
    let n = la + tail;
    lemma_occurs_chars(n, sep, p);
    if occurs_at(n, sep, p) {
        assert(n[p + 0] == sep[0]);
        assert(n[p + 1] == sep[1]);
        assert(n[p + 2] == sep[2]);
        if p + 3 <= la.len() {
            lemma_occurs_chars(la, sep, p);
            assert forall|i: int| 0 <= i < sep.len() implies la[p + i] == #[trigger] sep[i] by {
                assert(la[p + i] == n[p + i]);
            }
            assert(occurs_at(la, sep, p));
        } else if p + 2 == la.len() {
            assert(n[p + 2] == tail[0]);
        } else {
            assert(n[p + 1] == tail[0]);
        }
    }
}

/// A normalized URI with a scheme and a non-empty host part and path.
proof fn lemma_renormalize_full(la: Seq<char>, sb: Seq<char>)
    requires
        no_sep(la),
        lower(la) == la,
        no_ws(la),
        no_ws(sb),
        sb.len() > 0,
        host_and_path(sb) == sb,
        strip_trailing(sb, '/') == sb,
    ensures
        normalize_uri_spec(la + scheme_sep() + sb) == la + scheme_sep() + sb,
{
    let sep = scheme_sep();
    let n = la + sep + sb;
    assert(n == la + (sep + sb));
    assert((sep + sb)[0] == ':');
    assert forall|p: int| 0 <= p < la.len() implies !#[trigger] occurs_at(n, sep, p) by {
        lemma_sep_after(la, sep + sb, p);
    }
    assert(occurs_at(n, sep, la.len() as int)) by {
        assert(n.subrange(la.len() as int, la.len() + 3int) =~= sep);
    }
    lemma_find_is(n, sep, la.len() as int);
    assert(n.subrange(0, la.len() as int) =~= la);
    assert(n.subrange(la.len() + 3int, n.len() as int) =~= sb);
    assert(lowered(n) == n);
    assert forall|i: int| 0 <= i < n.len() implies !is_ws(#[trigger] n[i]) by {
        if i >= la.len() + 3 {
            assert(n[i] == sb[i - la.len() - 3]);
        }
    }
    lemma_trim_no_ws(n);
    lemma_normalize_is(n);
    lemma_strip_concat(la + sep, sb, '/');
}

/// A normalized URI whose host part and path were only slashes.
proof fn lemma_renormalize_bare(la: Seq<char>)
    requires
        no_sep(la),
        no_ws(la),
    ensures
        normalize_uri_spec(la + seq![':']) == la + seq![':'],
{
    let sep = scheme_sep();
    let n = la + seq![':'];
    assert forall|p: int| 0 <= p implies !#[trigger] occurs_at(n, sep, p) by {
        if p < la.len() {
            lemma_sep_after(la, seq![':'], p);
        }
    }
    lemma_find_none(n, sep);
    assert(lowered(n) == n);
    assert forall|i: int| 0 <= i < n.len() implies !is_ws(#[trigger] n[i]) by {
        if i < la.len() {
            assert(n[i] == la[i]);
        }
    }
    lemma_trim_no_ws(n);
    lemma_normalize_is(n);
    assert(n.last() == ':');
}

/// Normalizing a URI without whitespace a second time changes nothing.
pub proof fn law_normalization_is_idempotent(u: Seq<char>)
    requires
        no_ws(u),
    ensures
        normalize_uri_spec(normalize_uri_spec(u)) == normalize_uri_spec(u),
{
    let sep = scheme_sep();
    lemma_trim_no_ws(u);
    lemma_normalize_is(u);
    let n = normalize_uri_spec(u);
    lemma_find_from(u, sep, 0);
    match find(u, sep) {
        None => {
            lemma_normalize_is(n);
            assert(lowered(u) == u);
            lemma_strip_prefix(u, '/');
            assert forall|i: int| 0 <= i < n.len() implies !is_ws(#[trigger] n[i]) by {
                assert(n[i] == u[i]);
            }
            lemma_trim_no_ws(n);
            assert forall|p: int| 0 <= p implies !#[trigger] occurs_at(n, sep, p) by {
                lemma_occurs_chars(n, sep, p);
                lemma_occurs_chars(u, sep, p);
                if occurs_at(n, sep, p) {
                    assert forall|i: int| 0 <= i < sep.len() implies u[p + i] == #[trigger] sep[i] by {
                        assert(n[p + i] == u[p + i]);
                    }
                }
            }
            lemma_find_none(n, sep);
        },
        Some(k) => {
            lemma_idempotent_with_scheme(u, k);
        },
    }
}

/// Idempotence for a URI with a scheme separator first at `k`.
proof fn lemma_idempotent_with_scheme(u: Seq<char>, k: int)
    requires
        no_ws(u),
        trim(u) == u,
        find(u, scheme_sep()) == Some(k),
        0 <= k,
        occurs_at(u, scheme_sep(), k),
        forall|q: int| 0 <= q < k ==> !#[trigger] occurs_at(u, scheme_sep(), q),
    ensures
        normalize_uri_spec(normalize_uri_spec(u)) == normalize_uri_spec(u),
{
    let sep = scheme_sep();
    lemma_normalize_is(u);
    let a = u.subrange(0, k);
    let r = u.subrange(k + 3, u.len() as int);
    let la = lower(a);
    let b = host_and_path(r);
    assert(lowered(u) == la + sep + b);
    assert forall|i: int| 0 <= i < r.len() implies !is_ws(#[trigger] r[i]) by {
        assert(r[i] == u[k + 3 + i]);
    }
    assert forall|i: int| 0 <= i < a.len() implies !is_ws(#[trigger] a[i]) by {
        assert(a[i] == u[i]);
    }
    assert forall|q: int| 0 <= q implies !#[trigger] occurs_at(a, sep, q) by {
        lemma_occurs_chars(a, sep, q);
        lemma_occurs_chars(u, sep, q);
        if occurs_at(a, sep, q) {
            assert forall|i: int| 0 <= i < sep.len() implies u[q + i] == #[trigger] sep[i] by {
                assert(a[q + i] == u[q + i]);
            }
        }
    }
    lemma_no_sep_lower(a);
    lemma_lower_twice(a);
    lemma_host_and_path_stable(r);
    lemma_strip_concat(la + sep, b, '/');
    let sb = strip_trailing(b, '/');
    lemma_strip_prefix(b, '/');
    let n = normalize_uri_spec(u);
    if sb.len() > 0 {
        assert(n == la + sep + sb);
        assert forall|i: int| 0 <= i < sb.len() implies !is_ws(#[trigger] sb[i]) by {
            assert(sb[i] == b[i]);
        }
        lemma_renormalize_full(la, sb);
    } else {
        assert((la + sep).drop_last() =~= la + seq![':', '/']);
        assert((la + seq![':', '/']).drop_last() =~= la + seq![':']);
        assert((la + sep).last() == '/');
        assert((la + seq![':', '/']).last() == '/');
        assert((la + seq![':']).last() == ':');
        assert(strip_trailing(la + seq![':'], '/') == la + seq![':']);
        assert(strip_trailing(la + seq![':', '/'], '/') == la + seq![':']);
        assert(strip_trailing(la + sep, '/') == la + seq![':']);
        assert(n == la + seq![':']);
        lemma_renormalize_bare(la);
    }
}

/// The two sequences differ at most in the ASCII case of their letters.
pub open spec fn same_up_to_case(s1: Seq<char>, s2: Seq<char>) -> bool {
    &&& s1.len() == s2.len()
    &&& forall|i: int| 0 <= i < s1.len() ==> lower_char(#[trigger] s1[i]) == lower_char(s2[i])
}

/// Sequences that differ only in case have the same separator occurrences.
proof fn lemma_same_case_find(s1: Seq<char>, s2: Seq<char>, pat: Seq<char>)
    requires
        same_up_to_case(s1, s2),
        forall|i: int| 0 <= i < pat.len() ==> #[trigger] pat[i] == ':' || pat[i] == '/',
    ensures
        find(s1, pat) == find(s2, pat),
{
    assert forall|p: int| #[trigger] occurs_at(s1, pat, p) == occurs_at(s2, pat, p) by {
        lemma_occurs_chars(s1, pat, p);
        lemma_occurs_chars(s2, pat, p);
        if 0 <= p && p + pat.len() <= s1.len() {
            assert forall|i: int| 0 <= i < pat.len() implies (s1[p + i] == #[trigger] pat[i]
                <==> s2[p + i] == pat[i]) by {
                lemma_lower_char(s1[p + i]);
                lemma_lower_char(s2[p + i]);
                assert(lower_char(s1[p + i]) == lower_char(s2[p + i]));
            }
        }
    }
    lemma_find_from_same(s1, s2, pat, 0);
}

/// Where the scheme and host of a URI end: at the first `/` after the scheme
/// separator, or at the end; at the start when there is no separator.
pub open spec fn scheme_and_host_len(u: Seq<char>) -> int {
    match find(u, scheme_sep()) {
        Some(k) => match find(u.subrange(k + 3, u.len() as int), seq!['/']) {
            Some(j) => k + 3 + j,
            None => u.len() as int,
        },
        None => 0,
    }
}

/// Changing the ASCII case of letters in the scheme and host of a URI
/// without whitespace does not change how it normalizes.
pub proof fn law_scheme_and_host_case_is_ignored(u: Seq<char>, x: Seq<char>)
    requires
        no_ws(u),
        lower(x) == lower(u.subrange(0, scheme_and_host_len(u))),
    ensures
        normalize_uri_spec(x + u.subrange(scheme_and_host_len(u), u.len() as int))
            == normalize_uri_spec(u),
{
    let sep = scheme_sep();
    let sl = seq!['/'];
    lemma_find_from(u, sep, 0);
    let e = scheme_and_host_len(u);
    match find(u, sep) {
        Some(k) => {
            lemma_find_from(u.subrange(k + 3, u.len() as int), sl, 0);
        },
        None => {},
    }
    assert(0 <= e <= u.len());
    let pre = u.subrange(0, e);
    let post = u.subrange(e, u.len() as int);
    let v = x + post;
    assert(x.len() == lower(x).len());
    assert(x.len() == pre.len());
    assert forall|i: int| 0 <= i < v.len() implies lower_char(#[trigger] v[i]) == lower_char(u[i])
        && (i >= e ==> v[i] == u[i]) by {
        if i < e {
            assert(lower(x)[i] == lower(pre)[i]);
        }
    }
    assert(same_up_to_case(v, u));
    assert forall|i: int| 0 <= i < v.len() implies !is_ws(#[trigger] v[i]) by {
        lemma_lower_char(v[i]);
        lemma_lower_char(u[i]);
    }
    lemma_trim_no_ws(u);
    lemma_trim_no_ws(v);
    lemma_normalize_is(u);
    lemma_normalize_is(v);
    assert(sep[0] == ':' && sep[1] == '/' && sep[2] == '/');
    lemma_same_case_find(v, u, sep);
    match find(u, sep) {
        None => {
            assert(x.len() == 0);
            assert(v =~= u);
        },
        Some(k) => {
            let av = v.subrange(0, k);
            let au = u.subrange(0, k);
            assert forall|i: int| 0 <= i < k implies lower(av)[i] == lower(au)[i] by {
                assert(lower_char(v[i]) == lower_char(u[i]));
            }
            assert(lower(av) =~= lower(au));
            let rv = v.subrange(k + 3, v.len() as int);
            let ru = u.subrange(k + 3, u.len() as int);
            assert forall|i: int| 0 <= i < rv.len() implies lower_char(#[trigger] rv[i])
                == lower_char(ru[i]) by {
                assert(lower_char(v[k + 3 + i]) == lower_char(u[k + 3 + i]));
            }
            assert(sl[0] == '/');
            lemma_same_case_find(rv, ru, sl);
            match find(ru, sl) {
                Some(j) => {
                    assert forall|i: int| 0 <= i < j implies lower(rv.subrange(0, j))[i] == lower(
                        ru.subrange(0, j),
                    )[i] by {
                        assert(lower_char(rv[i]) == lower_char(ru[i]));
                    }
                    assert(lower(rv.subrange(0, j)) =~= lower(ru.subrange(0, j)));
                    let pv = rv.subrange(j + 1, rv.len() as int);
                    let pu = ru.subrange(j + 1, ru.len() as int);
                    assert forall|i: int| 0 <= i < pv.len() implies #[trigger] pv[i] == pu[i] by {
                        assert(v[k + 3 + j + 1 + i] == u[k + 3 + j + 1 + i]);
                    }
                    assert(rv.subrange(j + 1, rv.len() as int) =~= ru.subrange(
                        j + 1,
                        ru.len() as int,
                    ));
                },
                None => {
                    assert forall|i: int| 0 <= i < rv.len() implies lower(rv)[i] == lower(ru)[i] by {
                        assert(lower_char(rv[i]) == lower_char(ru[i]));
                    }
                    assert(lower(rv) =~= lower(ru));
                },
            }
            assert(host_and_path(rv) == host_and_path(ru));
            assert(lowered(v) == lowered(u));
        },
    }
}

} // verus!
