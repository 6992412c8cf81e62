//! User-facing repository selector resolution (`--repo`).
use vstd::prelude::*;

use crate::error::AptListsError;
use crate::repository::{
    find_key_exec, normalize_chars, normalize_uri_spec, repo_uris, scheme_sep, strip_scheme_chars,
    strip_scheme_spec, uris_increasing, RepoCatalog, RepoIndexView, Repository, RepositoryView,
};
use crate::text::{
    chars_of, eq_chars, eq_ignore_ascii_case, find, lower, string_of, trim, trim_chars, views,
};

verus! {

/// A successfully resolved `--repo` selector: exactly one repository plus the
/// set of index ids that belong to it.
#[derive(Debug)]
pub struct ResolvedRepo {
    /// The matched repository.
    pub repository: Repository,
    /// Ids of all package indexes of the repository.
    pub index_ids: Vec<usize>,
}

/// The mathematical value of a [`ResolvedRepo`].
pub struct ResolvedRepoView {
    pub repository: RepositoryView,
    pub index_ids: Seq<usize>,
}

impl View for ResolvedRepo {
    type V = ResolvedRepoView;

    open spec fn view(&self) -> ResolvedRepoView {
        ResolvedRepoView { repository: self.repository@, index_ids: self.index_ids@ }
    }
}

/// The ids of a sequence of indexes.
pub open spec fn ids_of(s: Seq<RepoIndexView>) -> Seq<usize> {
    s.map_values(|x: RepoIndexView| x.id)
}

impl ResolvedRepo {
    /// `true` when the given index id belongs to the resolved repository.
    pub fn contains(&self, index_id: usize) -> (r: bool)
        ensures
            r == self.index_ids@.contains(index_id),
    {
        for i in 0..self.index_ids.len()
            invariant
                forall|k: int| 0 <= k < i ==> self.index_ids@[k] != index_id,
        {
            if self.index_ids[i] == index_id {
                return true;
            }
        }
        false
    }
}

/// Whether a (trimmed, non-empty) selector designates a repository: a
/// selector with a scheme is compared with the normalized base URI; any
/// other selector with the site or with the URI without its scheme, ASCII
/// case-insensitively.
pub open spec fn selector_matches(r: RepositoryView, sel: Seq<char>) -> bool {
    if find(sel, scheme_sep()) is Some {
        normalize_uri_spec(r.uri) == normalize_uri_spec(sel)
    } else {
        ||| (r.site matches Some(s) && lower(s) == lower(sel))
        ||| lower(strip_scheme_spec(r.uri)) == lower(strip_scheme_spec(sel))
    }
}

/// The repositories that a selector designates, in catalog order.
pub open spec fn matched_repos(repos: Seq<RepositoryView>, sel: Seq<char>) -> Seq<
    RepositoryView,
> {
    repos.filter(|r: RepositoryView| selector_matches(r, sel))
}

/// What resolving `selector` against `repos` gives: the selector is trimmed;
/// an empty selector, or one that designates no repository, is not found;
/// one that designates several is ambiguous; otherwise the one repository
/// with the ids of its indexes.
pub open spec fn resolve_result(
    repos: Seq<RepositoryView>,
    selector: Seq<char>,
    r: Result<ResolvedRepo, AptListsError>,
) -> bool {
    let sel = trim(selector);
    let m = matched_repos(repos, sel);
    match r {
        Ok(res) => {
            &&& sel.len() > 0
            &&& m.len() == 1
            &&& res.repository@ == m[0]
            &&& res.index_ids@ == ids_of(m[0].indexes)
        },
        Err(AptListsError::RepoNotFound { selector: s, known }) => {
            &&& sel.len() == 0 || m.len() == 0
            &&& s@ == sel
            &&& views(known@) == repo_uris(repos)
        },
        Err(AptListsError::AmbiguousRepoSelector { selector: s, candidates }) => {
            &&& sel.len() > 0
            &&& m.len() > 1
            &&& s@ == sel
            &&& views(candidates@) == repo_uris(m)
        },
        _ => false,
    }
}

/// Whether one repository matches; `want` is the selector prepared as
/// [`selector_matches`] compares it.
fn repo_matches(r: &Repository, sel: &Vec<char>, has_scheme: bool, want: &Vec<char>) -> (b: bool)
    requires
        has_scheme == (find(sel@, scheme_sep()) is Some),
        want@ == if has_scheme {
            normalize_uri_spec(sel@)
        } else {
            strip_scheme_spec(sel@)
        },
    ensures
        b == selector_matches(r@, sel@),
{
    let uri = chars_of(r.uri.as_str());
    if has_scheme {
        let n = normalize_chars(&uri);
        eq_chars(&n, want)
    } else {
        let site_matches = match &r.site {
            Some(s) => eq_ignore_ascii_case(&chars_of(s.as_str()), sel),
            None => false,
        };
        site_matches || eq_ignore_ascii_case(&strip_scheme_chars(&uri), want)
    }
}

/// Resolve a selector against the catalog (see [`RepoCatalog::resolve`]).
pub(super) fn resolve(catalog: &RepoCatalog, selector: &str) -> (r: Result<
    ResolvedRepo,
    AptListsError,
>)
    ensures
        resolve_result(catalog@, selector@, r),
{
    let sel = trim_chars(&chars_of(selector));
    if sel.len() == 0 {
        return Err(AptListsError::RepoNotFound { selector: string_of(&sel), known: catalog.known_uris() });
    }
    let repos = catalog.repositories();
    let ghost rv = catalog@;
    let ghost pred = |x: RepositoryView| selector_matches(x, sel@);
    let sep = vec![':', '/', '/'];
    assert(sep@ =~= scheme_sep());
    let has_scheme = find_key_exec(&sel, &sep);
    let want = if has_scheme {
        normalize_chars(&sel)
    } else {
        strip_scheme_chars(&sel)
    };
    let mut matched: Vec<usize> = Vec::new();
    for i in 0..repos.len()
        invariant
            rv == crate::repository::repo_views(repos@),
            pred == (|x: RepositoryView| selector_matches(x, sel@)),
            has_scheme == (find(sel@, scheme_sep()) is Some),
            want@ == if has_scheme {
                normalize_uri_spec(sel@)
            } else {
                strip_scheme_spec(sel@)
            },
            forall|k: int| 0 <= k < matched.len() ==> #[trigger] matched@[k] < i,
            matched@.map_values(|p: usize| rv[p as int]) == rv.take(i as int).filter(pred),
    {
        let ghost before = matched@;
        assert(rv.take(i + 1) =~= rv.take(i as int).push(rv[i as int]));
        proof {
            rv.take(i as int).lemma_filter_push(rv[i as int], pred);
        }
        if repo_matches(&repos[i], &sel, has_scheme, &want) {
            matched.push(i);
            assert(matched@.map_values(|p: usize| rv[p as int]) =~= before.map_values(
                |p: usize| rv[p as int],
            ).push(rv[i as int]));
        }
    }
    assert(rv.take(repos.len() as int) =~= rv);
    let ghost m = matched_repos(rv, sel@);
    assert(matched@.map_values(|p: usize| rv[p as int]) == m);
    if matched.len() == 0 {
        return Err(AptListsError::RepoNotFound { selector: string_of(&sel), known: catalog.known_uris() });
    }
    if matched.len() > 1 {
        let mut candidates: Vec<String> = Vec::new();
        for k in 0..matched.len()
            invariant
                m == matched@.map_values(|p: usize| rv[p as int]),
                rv == crate::repository::repo_views(repos@),
                forall|q: int| 0 <= q < matched.len() ==> #[trigger] matched@[q] < repos.len(),
                views(candidates@) == repo_uris(m.take(k as int)),
        {
            candidates.push(repos[matched[k]].uri.clone());
            assert(repo_uris(m.take(k + 1)) =~= repo_uris(m.take(k as int)).push(m[k as int].uri));
        }
        assert(m.take(matched.len() as int) =~= m);
        return Err(AptListsError::AmbiguousRepoSelector { selector: string_of(&sel), candidates });
    }
    let repository = repos[matched[0]].clone();
    let mut index_ids: Vec<usize> = Vec::new();
    for k in 0..repository.indexes.len()
        invariant
            index_ids@ == ids_of(repository@.indexes.take(k as int)),
    {
        index_ids.push(repository.indexes[k].id);
        assert(ids_of(repository@.indexes.take(k + 1)) =~= ids_of(
            repository@.indexes.take(k as int),
        ).push(repository@.indexes[k as int].id));
    }
    assert(repository@.indexes.take(repository.indexes.len() as int) =~= repository@.indexes);
    Ok(ResolvedRepo { repository, index_ids })
}

} // verus!
