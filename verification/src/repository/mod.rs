//! Repository identity and the package index -> repository mapping.
//!
//! APT identifies a repository by more than one field, and none of Suite,
//! Codename, Component, Origin or Label is globally unique. Repository
//! identity is therefore built from the metadata that `libapt-pkg` keeps for
//! each package index: the base URI of its source entry, its site, its local
//! index file name and the Release/index metadata, all preserved raw.
mod selector;

pub use selector::{
    ids_of, matched_repos, resolve_result, selector_matches, ResolvedRepo, ResolvedRepoView,
};

use std::collections::BTreeMap;

use vstd::prelude::*;

use crate::error::AptListsError;
use crate::text::{
    chars_of, clone_opt, eq_chars, find, lemma_lex_irreflexive, lemma_lex_total, lemma_lex_transitive,
    lex_less, lex_lt, lower, lower_chars, opt_view, push_all, split_once, split_once_chars,
    str_eq, string_of, strip_trailing, strip_trailing_chars, trim, trim_chars, views,
};

verus! {

broadcast use {vstd::laws_cmp::group_laws_cmp, vstd::std_specs::btree::group_btree_axioms};

/// Metadata of a single package index (one `Packages` file), the finest
/// granularity of "where a version comes from".
#[derive(Debug)]
pub struct RepoIndex {
    /// Unique id of this index inside the current cache.
    pub id: usize,
    /// Repository base URI as configured in the source entry, verbatim.
    pub uri: String,
    /// Hostname of the source URI, if any.
    pub site: Option<String>,
    /// Archive/Suite (e.g. `trixie`, `trixie-updates`).
    pub archive: Option<String>,
    /// Codename (e.g. `trixie`).
    pub codename: Option<String>,
    /// Origin (e.g. `Debian`) — not the same field as the hostname.
    pub origin: Option<String>,
    /// Label (e.g. `Debian`).
    pub label: Option<String>,
    /// Component (e.g. `main`).
    pub component: Option<String>,
    /// Architecture of the index (e.g. `amd64`).
    pub arch: Option<String>,
    /// Local index file path.
    pub filename: String,
    /// Index type string (e.g. `Debian Package Index`).
    pub index_type: String,
}

/// The mathematical value of a [`RepoIndex`].
pub struct RepoIndexView {
    pub id: usize,
    pub uri: Seq<char>,
    pub site: Option<Seq<char>>,
    pub archive: Option<Seq<char>>,
    pub codename: Option<Seq<char>>,
    pub origin: Option<Seq<char>>,
    pub label: Option<Seq<char>>,
    pub component: Option<Seq<char>>,
    pub arch: Option<Seq<char>>,
    pub filename: Seq<char>,
    pub index_type: Seq<char>,
}

impl View for RepoIndex {
    type V = RepoIndexView;

    open spec fn view(&self) -> RepoIndexView {
        RepoIndexView {
            id: self.id,
            uri: self.uri@,
            site: opt_view(self.site),
            archive: opt_view(self.archive),
            codename: opt_view(self.codename),
            origin: opt_view(self.origin),
            label: opt_view(self.label),
            component: opt_view(self.component),
            arch: opt_view(self.arch),
            filename: self.filename@,
            index_type: self.index_type@,
        }
    }
}

impl Clone for RepoIndex {
    fn clone(&self) -> (r: Self)
        ensures
            r@ == self@,
    {
        RepoIndex {
            id: self.id,
            uri: self.uri.clone(),
            site: clone_opt(&self.site),
            archive: clone_opt(&self.archive),
            codename: clone_opt(&self.codename),
            origin: clone_opt(&self.origin),
            label: clone_opt(&self.label),
            component: clone_opt(&self.component),
            arch: clone_opt(&self.arch),
            filename: self.filename.clone(),
            index_type: self.index_type.clone(),
        }
    }
}

/// The views of a sequence of package indexes.
pub open spec fn index_views(s: Seq<RepoIndex>) -> Seq<RepoIndexView> {
    s.map_values(|x: RepoIndex| x@)
}

/// A copy of a list of package indexes.
pub fn clone_indexes(v: &Vec<RepoIndex>) -> (r: Vec<RepoIndex>)
    ensures
        index_views(r@) == index_views(v@),
{
    let mut r: Vec<RepoIndex> = Vec::new();
    for i in 0..v.len()
        invariant
            index_views(r@) == index_views(v@.take(i as int)),
    {
        r.push(v[i].clone());
        assert(index_views(v@.take(i + 1)) =~= index_views(v@.take(i as int)).push(v@[i as int]@));
    }
    assert(v@.take(v.len() as int) =~= v@);
    r
}

/// The optional metadata fields of a package index.
#[derive(Clone, Copy, Debug, PartialEq, Eq)]
pub enum IndexField {
    Archive,
    Codename,
    Origin,
    Label,
    Component,
    Arch,
}

/// The value of one optional metadata field.
pub open spec fn field_of(x: RepoIndexView, f: IndexField) -> Option<Seq<char>> {
    match f {
        IndexField::Archive => x.archive,
        IndexField::Codename => x.codename,
        IndexField::Origin => x.origin,
        IndexField::Label => x.label,
        IndexField::Component => x.component,
        IndexField::Arch => x.arch,
    }
}

/// The values of one field over a sequence of indexes.
pub open spec fn fields(s: Seq<RepoIndexView>, f: IndexField) -> Seq<Option<Seq<char>>> {
    s.map_values(|x: RepoIndexView| field_of(x, f))
}

/// The present values of a sequence, each once, in order of first appearance.
pub open spec fn distinct_some(s: Seq<Option<Seq<char>>>) -> Seq<Seq<char>>
    decreases s.len(),
{
    if s.len() == 0 {
        seq![]
    } else {
        let prev = distinct_some(s.drop_last());
        match s.last() {
            Some(v) => if prev.contains(v) {
                prev
            } else {
                prev.push(v)
            },
            None => prev,
        }
    }
}

/// Reads one optional metadata field.
pub fn get_field(x: &RepoIndex, f: IndexField) -> (r: &Option<String>)
    ensures
        opt_view(*r) == field_of(x@, f),
{
    match f {
        IndexField::Archive => &x.archive,
        IndexField::Codename => &x.codename,
        IndexField::Origin => &x.origin,
        IndexField::Label => &x.label,
        IndexField::Component => &x.component,
        IndexField::Arch => &x.arch,
    }
}

/// Whether a list of strings holds a given string.
pub fn contains_string(v: &Vec<String>, s: &String) -> (r: bool)
    ensures
        r == views(v@).contains(s@),
{
    for i in 0..v.len()
        invariant
            forall|k: int| 0 <= k < i ==> v@[k]@ != s@,
    {
        if str_eq(&v[i], s) {
            assert(views(v@)[i as int] == s@);
            return true;
        }
    }
    assert(!views(v@).contains(s@)) by {
        if views(v@).contains(s@) {
            let k = choose|k: int| 0 <= k < views(v@).len() && views(v@)[k] == s@;
            assert(v@[k]@ == s@);
        }
    }
    false
}

/// Distinct present values of one field over the given indexes, in order.
pub fn distinct(indexes: &[RepoIndex], f: IndexField) -> (r: Vec<String>)
    ensures
        views(r@) == distinct_some(fields(index_views(indexes@), f)),
{
    let ghost all = fields(index_views(indexes@), f);
    let mut out: Vec<String> = Vec::new();
    for i in 0..indexes.len()
        invariant
            all == fields(index_views(indexes@), f),
            all.len() == indexes@.len(),
            views(out@) == distinct_some(all.take(i as int)),
    {
        assert(all.take(i + 1).drop_last() =~= all.take(i as int));
        let v = get_field(&indexes[i], f);
        if let Some(s) = v {
            if !contains_string(&out, s) {
                out.push(s.clone());
                assert(views(out@) =~= distinct_some(all.take(i as int)).push(s@));
            }
        }
    }
    assert(all.take(indexes.len() as int) =~= all);
    out
}

/// The separator between a URI's scheme and the rest.
pub open spec fn scheme_sep() -> Seq<char> {
    seq![':', '/', '/']
}

/// A URI with its scheme and host lower-cased (the path keeps its case),
/// surrounding whitespace and every trailing slash dropped.
pub open spec fn normalize_uri_spec(u: Seq<char>) -> Seq<char> {
    let t = trim(u);
    let lowered = match split_once(t, scheme_sep()) {
        Some(parts) => lower(parts.0) + scheme_sep() + match split_once(parts.1, seq!['/']) {
            Some(hp) => lower(hp.0) + seq!['/'] + hp.1,
            None => lower(parts.1),
        },
        None => t,
    };
    strip_trailing(lowered, '/')
}

/// A URI-ish string without its scheme (`http://`, `file://`, ...) and
/// without trailing slashes.
pub open spec fn strip_scheme_spec(u: Seq<char>) -> Seq<char> {
    strip_trailing(
        match split_once(u, scheme_sep()) {
            Some(parts) => parts.1,
            None => u,
        },
        '/',
    )
}

fn scheme_sep_chars() -> (r: Vec<char>)
    ensures
        r@ == scheme_sep(),
{
    let r = vec![':', '/', '/'];
    assert(r@ =~= scheme_sep());
    r
}

/// [`normalize_uri`] on characters.
pub fn normalize_chars(uri: &Vec<char>) -> (r: Vec<char>)
    ensures
        r@ == normalize_uri_spec(uri@),
{
    let t = trim_chars(uri);
    let sep = scheme_sep_chars();
    let slash = vec!['/'];
    assert(slash@ =~= seq!['/']);
    let lowered = match split_once_chars(&t, &sep) {
        Some((scheme, rest)) => {
            let mut out = lower_chars(&scheme);
            push_all(&mut out, &sep);
            match split_once_chars(&rest, &slash) {
                Some((host, path)) => {
                    let lh = lower_chars(&host);
                    push_all(&mut out, &lh);
                    push_all(&mut out, &slash);
                    push_all(&mut out, &path);
                    assert(out@ =~= lower(scheme@) + scheme_sep() + (lower(host@) + seq!['/']
                        + path@));
                },
                None => {
                    let lr = lower_chars(&rest);
                    push_all(&mut out, &lr);
                    assert(out@ =~= lower(scheme@) + scheme_sep() + lower(rest@));
                },
            }
            out
        },
        None => t,
    };
    strip_trailing_chars(&lowered, '/')
}

/// Lower-case the scheme and host part of a URI, drop a trailing slash.
///
/// URI paths stay case-sensitive; only scheme and authority are normalized.
pub fn normalize_uri(uri: &str) -> (r: String)
    ensures
        r@ == normalize_uri_spec(uri@),
{
    let v = chars_of(uri);
    let n = normalize_chars(&v);
    string_of(&n)
}

/// [`strip_scheme`] on characters.
pub fn strip_scheme_chars(uri: &Vec<char>) -> (r: Vec<char>)
    ensures
        r@ == strip_scheme_spec(uri@),
{
    let sep = scheme_sep_chars();
    match split_once_chars(uri, &sep) {
        Some((_, rest)) => strip_trailing_chars(&rest, '/'),
        None => strip_trailing_chars(uri, '/'),
    }
}

/// Drop the scheme (`http://`, `file://`, ...) from a URI-ish string.
pub fn strip_scheme(uri: &str) -> (r: String)
    ensures
        r@ == strip_scheme_spec(uri@),
{
    let v = chars_of(uri);
    let s = strip_scheme_chars(&v);
    string_of(&s)
}

// ---------------------------------------------------------------------------
// Repositories
// ---------------------------------------------------------------------------
/// All indexes of one repository (one source URI), grouped together.
///
/// One repository typically serves several suites, components and
/// architectures; each combination is a separate [`RepoIndex`].
#[derive(Debug)]
pub struct Repository {
    /// Base URI of the repository (representative, verbatim from APT).
    pub uri: String,
    /// Hostname of the repository, if the source URI carries one.
    pub site: Option<String>,
    /// The indexes (suite/component/architecture combinations) of this
    /// repository, sorted by their index file name.
    pub indexes: Vec<RepoIndex>,
}

/// The mathematical value of a [`Repository`].
pub struct RepositoryView {
    pub uri: Seq<char>,
    pub site: Option<Seq<char>>,
    pub indexes: Seq<RepoIndexView>,
}

impl View for Repository {
    type V = RepositoryView;

    open spec fn view(&self) -> RepositoryView {
        RepositoryView {
            uri: self.uri@,
            site: opt_view(self.site),
            indexes: index_views(self.indexes@),
        }
    }
}

impl Clone for Repository {
    fn clone(&self) -> (r: Self)
        ensures
            r@ == self@,
    {
        Repository {
            uri: self.uri.clone(),
            site: clone_opt(&self.site),
            indexes: clone_indexes(&self.indexes),
        }
    }
}

/// The views of a sequence of repositories.
pub open spec fn repo_views(s: Seq<Repository>) -> Seq<RepositoryView> {
    s.map_values(|r: Repository| r@)
}

impl Repository {
    /// Distinct archives (suites) served by this repository.
    pub fn archives(&self) -> (r: Vec<String>)
        ensures
            views(r@) == distinct_some(fields(self@.indexes, IndexField::Archive)),
    {
        distinct(&self.indexes, IndexField::Archive)
    }

    /// Distinct codenames served by this repository.
    pub fn codenames(&self) -> (r: Vec<String>)
        ensures
            views(r@) == distinct_some(fields(self@.indexes, IndexField::Codename)),
    {
        distinct(&self.indexes, IndexField::Codename)
    }

    /// Distinct components served by this repository.
    pub fn components(&self) -> (r: Vec<String>)
        ensures
            views(r@) == distinct_some(fields(self@.indexes, IndexField::Component)),
    {
        distinct(&self.indexes, IndexField::Component)
    }

    /// Distinct index architectures served by this repository.
    pub fn archs(&self) -> (r: Vec<String>)
        ensures
            views(r@) == distinct_some(fields(self@.indexes, IndexField::Arch)),
    {
        distinct(&self.indexes, IndexField::Arch)
    }

    /// Distinct origins, if published in the Release file.
    pub fn origins(&self) -> (r: Vec<String>)
        ensures
            views(r@) == distinct_some(fields(self@.indexes, IndexField::Origin)),
    {
        distinct(&self.indexes, IndexField::Origin)
    }

    /// Distinct labels, if published in the Release file.
    pub fn labels(&self) -> (r: Vec<String>)
        ensures
            views(r@) == distinct_some(fields(self@.indexes, IndexField::Label)),
    {
        distinct(&self.indexes, IndexField::Label)
    }
}

// ---------------------------------------------------------------------------
// Grouping indexes into repositories
// ---------------------------------------------------------------------------
/// The repository key of an index: its normalized base URI.
pub open spec fn uri_key(x: RepoIndexView) -> Seq<char> {
    normalize_uri_spec(x.uri)
}

/// The indexes with the given repository key, in order.
pub open spec fn with_key(s: Seq<RepoIndexView>, k: Seq<char>) -> Seq<RepoIndexView> {
    s.filter(|x: RepoIndexView| uri_key(x) == k)
}

/// The indexes with the given file name, in order.
pub open spec fn with_filename(s: Seq<RepoIndexView>, f: Seq<char>) -> Seq<RepoIndexView> {
    s.filter(|x: RepoIndexView| x.filename == f)
}

/// Indexes in non-decreasing order of their file names.
pub open spec fn sorted_by_filename(s: Seq<RepoIndexView>) -> bool {
    forall|i: int, j: int| 0 <= i < j < s.len() ==> !lex_lt(s[j].filename, s[i].filename)
}

/// `out` is the stable sort of `inp` by file name: sorted, and indexes with
/// equal file names keep their relative order.
pub open spec fn stable_sorted_from(out: Seq<RepoIndexView>, inp: Seq<RepoIndexView>) -> bool {
    &&& sorted_by_filename(out)
    &&& forall|f: Seq<char>| #[trigger] with_filename(out, f) == with_filename(inp, f)
}

/// The sites of a sequence of indexes.
pub open spec fn sites(s: Seq<RepoIndexView>) -> Seq<Option<Seq<char>>> {
    s.map_values(|x: RepoIndexView| x.site)
}

/// The first present value of a sequence.
pub open spec fn first_some(s: Seq<Option<Seq<char>>>) -> Option<Seq<char>>
    decreases s.len(),
{
    if s.len() == 0 {
        None
    } else if s[0] is Some {
        s[0]
    } else {
        first_some(s.drop_first())
    }
}

/// `r` is the repository that the indexes of `list` with its key form: its
/// URI is the first such index's, its site the first present site, and its
/// indexes are those indexes, stably sorted by file name.
pub open spec fn repo_of_group(r: RepositoryView, list: Seq<RepoIndexView>) -> bool {
    let g = with_key(list, normalize_uri_spec(r.uri));
    &&& g.len() > 0
    &&& r.uri == g[0].uri
    &&& r.site == first_some(sites(g))
    &&& stable_sorted_from(r.indexes, g)
}

/// `repos` groups the indexes of `list` by normalized base URI: one
/// repository per key, sorted by URI.
pub open spec fn is_catalog_of(repos: Seq<RepositoryView>, list: Seq<RepoIndexView>) -> bool {
    &&& forall|i: int, j: int| 0 <= i < j < repos.len() ==> lex_lt(repos[i].uri, repos[j].uri)
    &&& forall|i: int| 0 <= i < repos.len() ==> repo_of_group(#[trigger] repos[i], list)
    &&& forall|j: int| 0 <= j < list.len() ==> has_repo_for(repos, #[trigger] list[j])
}

/// Some repository of `repos` has the key of `x`.
pub open spec fn has_repo_for(repos: Seq<RepositoryView>, x: RepoIndexView) -> bool {
    exists|i: int| 0 <= i < repos.len() && normalize_uri_spec(repos[i].uri) == uri_key(x)
}

/// Filtering for a value that no element has gives nothing.
proof fn lemma_no_filename(s: Seq<RepoIndexView>, f: Seq<char>)
    requires
        forall|i: int| 0 <= i < s.len() ==> s[i].filename != f,
    ensures
        with_filename(s, f) == Seq::<RepoIndexView>::empty(),
    decreases s.len(),
{
    reveal(Seq::filter);
    if s.len() > 0 {
        lemma_no_filename(s.drop_last(), f);
    }
}

/// `first_some` of an extended sequence.
pub proof fn lemma_first_some_push(s: Seq<Option<Seq<char>>>, v: Option<Seq<char>>)
    ensures
        first_some(s.push(v)) == if first_some(s) is Some {
            first_some(s)
        } else {
            v
        },
    decreases s.len(),
{
    if s.len() > 0 {
        assert(s.push(v).drop_first() =~= s.drop_first().push(v));
        lemma_first_some_push(s.drop_first(), v);
    } else {
        assert(s.push(v).drop_first() =~= s);
    }
}

/// Inserting after every index with a smaller or equal file name keeps a
/// stable sort.
proof fn lemma_insert_stable(old: Seq<RepoIndexView>, x: RepoIndexView, pos: int)
    requires
        0 <= pos <= old.len(),
        sorted_by_filename(old),
        forall|i: int| 0 <= i < pos ==> !lex_lt(x.filename, #[trigger] old[i].filename),
        forall|i: int| pos <= i < old.len() ==> lex_lt(x.filename, #[trigger] old[i].filename),
    ensures
        sorted_by_filename(old.insert(pos, x)),
        forall|f: Seq<char>|
            #[trigger] with_filename(old.insert(pos, x), f) == with_filename(old.push(x), f),
{
    let new = old.insert(pos, x);
    let a = old.take(pos);
    let b = old.skip(pos);
    assert(new =~= a + seq![x] + b);
    assert(old.push(x) =~= a + b + seq![x]);
    assert forall|i: int, j: int| 0 <= i < j < new.len() implies !lex_lt(
        new[j].filename,
        new[i].filename,
    ) by {
        if i < pos && j == pos {
        } else if i == pos && j > pos {
            lemma_lex_total(x.filename, new[j].filename);
        } else if i < pos && j > pos {
            assert(new[j] == old[j - 1]);
        } else if i > pos {
            assert(new[i] == old[i - 1]);
            assert(new[j] == old[j - 1]);
        }
    }
    assert forall|f: Seq<char>| #[trigger]
        with_filename(new, f) == with_filename(old.push(x), f) by {
        let p = |y: RepoIndexView| y.filename == f;
        Seq::filter_distributes_over_add(a + seq![x], b, p);
        Seq::filter_distributes_over_add(a, seq![x], p);
        Seq::filter_distributes_over_add(a + b, seq![x], p);
        Seq::filter_distributes_over_add(a, b, p);
        if f == x.filename {
            assert forall|i: int| 0 <= i < b.len() implies b[i].filename != f by {
                lemma_lex_irreflexive(x.filename);
            }
            lemma_no_filename(b, f);
        }
        assert(seq![x] =~= Seq::<RepoIndexView>::empty().push(x));
        Seq::<RepoIndexView>::empty().lemma_filter_push(x, p);
        assert(Seq::<RepoIndexView>::empty().filter(p) =~= Seq::<RepoIndexView>::empty()) by {
            reveal(Seq::filter);
        }
    }
}

/// Inserts `x` after every index whose file name is smaller or equal.
fn insert_by_filename(v: &mut Vec<RepoIndex>, x: RepoIndex)
    requires
        sorted_by_filename(index_views(old(v)@)),
    ensures
        sorted_by_filename(index_views(final(v)@)),
        forall|f: Seq<char>| #[trigger]
            with_filename(index_views(final(v)@), f) == with_filename(
                index_views(old(v)@).push(x@),
                f,
            ),
{
    let ghost old_v = index_views(v@);
    let xf = chars_of(x.filename.as_str());
    let mut pos: usize = 0;
    while pos < v.len() && !lex_less(&xf, &chars_of(v[pos].filename.as_str()))
        invariant
            pos <= v.len(),
            old_v == index_views(v@),
            xf@ == x@.filename,
            forall|i: int| 0 <= i < pos ==> !lex_lt(x@.filename, #[trigger] old_v[i].filename),
        decreases v.len() - pos,
    {
        pos += 1;
    }
    proof {
        assert forall|i: int| pos <= i < old_v.len() implies lex_lt(
            x@.filename,
            #[trigger] old_v[i].filename,
        ) by {
            if i > pos {
                lemma_lex_total(old_v[pos as int].filename, old_v[i].filename);
                if old_v[pos as int].filename != old_v[i].filename {
                    assert(!lex_lt(old_v[i].filename, old_v[pos as int].filename));
                    lemma_lex_transitive(
                        x@.filename,
                        old_v[pos as int].filename,
                        old_v[i].filename,
                    );
                }
            }
        }
        lemma_insert_stable(old_v, x@, pos as int);
    }
    let ghost xv = x@;
    v.insert(pos, x);
    assert(index_views(v@) =~= old_v.insert(pos as int, xv));
}

/// `with_key` of an extended sequence.
proof fn lemma_with_key_push(s: Seq<RepoIndexView>, x: RepoIndexView, k: Seq<char>)
    ensures
        with_key(s.push(x), k) == if uri_key(x) == k {
            with_key(s, k).push(x)
        } else {
            with_key(s, k)
        },
{
    s.lemma_filter_push(x, |y: RepoIndexView| uri_key(y) == k);
}

/// `with_filename` of an extended sequence.
proof fn lemma_with_filename_push(s: Seq<RepoIndexView>, x: RepoIndexView, f: Seq<char>)
    ensures
        with_filename(s.push(x), f) == if x.filename == f {
            with_filename(s, f).push(x)
        } else {
            with_filename(s, f)
        },
{
    s.lemma_filter_push(x, |y: RepoIndexView| y.filename == f);
}

/// Filtering for a key that no element has gives nothing.
proof fn lemma_no_key(s: Seq<RepoIndexView>, k: Seq<char>)
    requires
        forall|i: int| 0 <= i < s.len() ==> uri_key(#[trigger] s[i]) != k,
    ensures
        with_key(s, k) == Seq::<RepoIndexView>::empty(),
    decreases s.len(),
{
    reveal(Seq::filter);
    if s.len() > 0 {
        lemma_no_key(s.drop_last(), k);
    }
}

/// A repository keeps matching its group when an index of another
/// repository is added.
proof fn lemma_group_unchanged(r: RepositoryView, l: Seq<RepoIndexView>, x: RepoIndexView)
    requires
        repo_of_group(r, l),
        uri_key(x) != normalize_uri_spec(r.uri),
    ensures
        repo_of_group(r, l.push(x)),
{
    lemma_with_key_push(l, x, normalize_uri_spec(r.uri));
}

/// Adding an index to the repository of its key.
proof fn lemma_group_extend(
    old_r: RepositoryView,
    new_r: RepositoryView,
    l: Seq<RepoIndexView>,
    x: RepoIndexView,
)
    requires
        repo_of_group(old_r, l),
        uri_key(x) == normalize_uri_spec(old_r.uri),
        new_r.uri == old_r.uri,
        new_r.site == if old_r.site is Some {
            old_r.site
        } else {
            x.site
        },
        sorted_by_filename(new_r.indexes),
        forall|f: Seq<char>| #[trigger]
            with_filename(new_r.indexes, f) == with_filename(old_r.indexes.push(x), f),
    ensures
        repo_of_group(new_r, l.push(x)),
{
    let k = normalize_uri_spec(old_r.uri);
    let g = with_key(l, k);
    lemma_with_key_push(l, x, k);
    assert(sites(g.push(x)) =~= sites(g).push(x.site));
    lemma_first_some_push(sites(g), x.site);
    assert forall|f: Seq<char>| #[trigger]
        with_filename(new_r.indexes, f) == with_filename(g.push(x), f) by {
        lemma_with_filename_push(old_r.indexes, x, f);
        lemma_with_filename_push(g, x, f);
        assert(with_filename(old_r.indexes, f) == with_filename(g, f));
    }
}

/// The first index of a new key forms a new repository.
proof fn lemma_group_new(r: RepositoryView, l: Seq<RepoIndexView>, x: RepoIndexView)
    requires
        forall|i: int| 0 <= i < l.len() ==> uri_key(#[trigger] l[i]) != uri_key(x),
        r.uri == x.uri,
        r.site == x.site,
        r.indexes == seq![x],
    ensures
        repo_of_group(r, l.push(x)),
{
    let k = uri_key(x);
    lemma_no_key(l, k);
    lemma_with_key_push(l, x, k);
    assert(Seq::<RepoIndexView>::empty().push(x) =~= seq![x]);
    let g = with_key(l.push(x), k);
    assert(g == seq![x]);
    assert(sites(g) =~= seq![x.site]);
    assert(seq![x.site].drop_first() =~= Seq::<Option<Seq<char>>>::empty());
    reveal_with_fuel(first_some, 2);
    assert(first_some(sites(g)) == x.site);
}

/// Whether `pat` occurs in `s`.
pub fn find_key_exec(s: &Vec<char>, pat: &Vec<char>) -> (r: bool)
    ensures
        r == (find(s@, pat@) is Some),
{
    crate::text::find_chars(s, pat).is_some()
}

/// The position of a key in a list of keys.
fn find_key(keys: &Vec<Vec<char>>, k: &Vec<char>) -> (r: Option<usize>)
    ensures
        match r {
            Some(p) => p < keys.len() && keys@[p as int]@ == k@,
            None => forall|p: int| 0 <= p < keys.len() ==> keys@[p]@ != k@,
        },
{
    for p in 0..keys.len()
        invariant
            forall|q: int| 0 <= q < p ==> keys@[q]@ != k@,
    {
        if eq_chars(&keys[p], k) {
            return Some(p);
        }
    }
    None
}

/// Groups package indexes, given in order, into repositories by normalized
/// base URI (see [`is_catalog_of`]).
pub fn group_indexes(list: &Vec<RepoIndex>) -> (r: Vec<Repository>)
    ensures
        is_catalog_of(repo_views(r@), index_views(list@)),
{
    let ghost full = index_views(list@);
    let mut repos: Vec<Repository> = Vec::new();
    let mut keys: Vec<Vec<char>> = Vec::new();
    let mut i: usize = 0;
    while i < list.len()
        invariant
            i <= list.len(),
            full == index_views(list@),
            full.len() == list.len(),
            repos.len() == keys.len(),
            forall|p: int|
                0 <= p < keys.len() ==> #[trigger] keys@[p]@ == normalize_uri_spec(repos@[p]@.uri),
            forall|p: int, q: int| 0 <= p < q < keys.len() ==> keys@[p]@ != keys@[q]@,
            forall|p: int, q: int|
                0 <= p < q < repos.len() ==> lex_lt(repos@[p]@.uri, repos@[q]@.uri),
            forall|p: int|
                0 <= p < repos.len() ==> repo_of_group(#[trigger] repos@[p]@, full.take(i as int)),
            forall|j: int|
                0 <= j < i ==> exists|p: int|
                    #![trigger keys@[p]]
                    0 <= p < keys.len() && keys@[p]@ == uri_key(#[trigger] full[j]),
        decreases list.len() - i,
    {
        let ghost li = full.take(i as int);
        let ghost xv = full[i as int];
        assert(full.take(i + 1) =~= li.push(xv));
        let x = &list[i];
        let k = normalize_chars(&chars_of(x.uri.as_str()));
        assert(k@ == uri_key(xv));
        match find_key(&keys, &k) {
            Some(p) => {
                let ghost old_repos = repos@;
                let mut idxs = clone_indexes(&repos[p].indexes);
                insert_by_filename(&mut idxs, x.clone());
                let site = if repos[p].site.is_some() {
                    clone_opt(&repos[p].site)
                } else {
                    clone_opt(&x.site)
                };
                let new_r = Repository { uri: repos[p].uri.clone(), site, indexes: idxs };
                proof {
                    lemma_group_extend(old_repos[p as int]@, new_r@, li, xv);
                    assert forall|q: int| 0 <= q < repos.len() && q != p implies repo_of_group(
                        #[trigger] old_repos[q]@,
                        li.push(xv),
                    ) by {
                        assert(keys@[q]@ == normalize_uri_spec(old_repos[q]@.uri));
                        if q < p {
                            assert(keys@[q]@ != keys@[p as int]@);
                        } else {
                            assert(keys@[p as int]@ != keys@[q]@);
                        }
                        lemma_group_unchanged(old_repos[q]@, li, xv);
                    }
                }
                repos.set(p, new_r);
                proof {
                    assert forall|j: int| 0 <= j < i + 1 implies exists|q: int|
                        #![trigger keys@[q]]
                        0 <= q < keys.len() && keys@[q]@ == uri_key(#[trigger] full[j]) by {
                        if j == i {
                            assert(keys@[p as int]@ == uri_key(full[j]));
                        } else {
                            let q = choose|q: int|
                                #![trigger keys@[q]]
                                0 <= q < keys.len() && keys@[q]@ == uri_key(full[j]);
                            assert(keys@[q]@ == uri_key(full[j]));
                        }
                    }
                    assert forall|q: int| 0 <= q < repos.len() implies repo_of_group(
                        #[trigger] repos@[q]@,
                        li.push(xv),
                    ) by {
                        if q != p {
                            assert(repos@[q] == old_repos[q]);
                        }
                    }
                }
            },
            None => {
                let ghost old_repos = repos@;
                let ghost old_keys = keys@;
                let xu = chars_of(x.uri.as_str());
                let mut pos: usize = 0;
                while pos < repos.len() && !lex_less(&xu, &chars_of(repos[pos].uri.as_str()))
                    invariant
                        pos <= repos.len(),
                        repos@ == old_repos,
                        xu@ == xv.uri,
                        forall|q: int| 0 <= q < pos ==> !lex_lt(xv.uri, old_repos[q]@.uri),
                    decreases repos.len() - pos,
                {
                    pos += 1;
                }
                let new_r = Repository {
                    uri: x.uri.clone(),
                    site: clone_opt(&x.site),
                    indexes: vec![x.clone()],
                };
                proof {
                    assert forall|j: int| 0 <= j < li.len() implies uri_key(#[trigger] li[j])
                        != uri_key(xv) by {
                        assert(li[j] == full[j]);
                        let q = choose|q: int|
                            #![trigger keys@[q]]
                            0 <= q < keys.len() && keys@[q]@ == uri_key(full[j]);
                        assert(keys@[q]@ != k@);
                    }
                    assert(new_r@.indexes =~= seq![xv]);
                    lemma_group_new(new_r@, li, xv);
                    assert forall|q: int| 0 <= q < old_repos.len() implies repo_of_group(
                        #[trigger] old_repos[q]@,
                        li.push(xv),
                    ) by {
                        assert(keys@[q]@ != k@);
                        lemma_group_unchanged(old_repos[q]@, li, xv);
                    }
                    assert forall|q: int| 0 <= q < old_repos.len() implies #[trigger] old_repos[q]@.uri
                        != xv.uri by {
                        assert(keys@[q]@ != k@);
                    }
                    assert forall|q: int| 0 <= q < pos implies lex_lt(
                        #[trigger] old_repos[q]@.uri,
                        xv.uri,
                    ) by {
                        lemma_lex_total(old_repos[q]@.uri, xv.uri);
                    }
                    assert forall|q: int| pos <= q < old_repos.len() implies lex_lt(
                        xv.uri,
                        #[trigger] old_repos[q]@.uri,
                    ) by {
                        if q > pos {
                            lemma_lex_transitive(
                                xv.uri,
                                old_repos[pos as int]@.uri,
                                old_repos[q]@.uri,
                            );
                        }
                    }
                }
                repos.insert(pos, new_r);
                keys.insert(pos, k);
                proof {
                    assert forall|p: int, q: int| 0 <= p < q < repos.len() implies lex_lt(
                        repos@[p]@.uri,
                        repos@[q]@.uri,
                    ) by {
                        if p < pos && q == pos {
                        } else if p == pos && q > pos {
                            assert(repos@[q] == old_repos[q - 1]);
                        } else if p < pos && q > pos {
                            assert(repos@[q] == old_repos[q - 1]);
                        } else if p > pos {
                            assert(repos@[p] == old_repos[p - 1]);
                            assert(repos@[q] == old_repos[q - 1]);
                        }
                    }
                    assert forall|p: int, q: int| 0 <= p < q < keys.len() implies keys@[p]@
                        != keys@[q]@ by {
                        if p < pos && q == pos {
                        } else if p == pos && q > pos {
                            assert(keys@[q] == old_keys[q - 1]);
                        } else if p < pos && q > pos {
                            assert(keys@[q] == old_keys[q - 1]);
                        } else if p > pos {
                            assert(keys@[p] == old_keys[p - 1]);
                            assert(keys@[q] == old_keys[q - 1]);
                        }
                    }
                    assert forall|p: int|
                        0 <= p < keys.len() implies #[trigger] keys@[p]@ == normalize_uri_spec(
                        repos@[p]@.uri,
                    ) by {
                        if p > pos {
                            assert(keys@[p] == old_keys[p - 1]);
                            assert(repos@[p] == old_repos[p - 1]);
                        }
                    }
                    assert forall|p: int| 0 <= p < repos.len() implies repo_of_group(
                        #[trigger] repos@[p]@,
                        li.push(xv),
                    ) by {
                        if p > pos {
                            assert(repos@[p] == old_repos[p - 1]);
                        }
                    }
                    assert forall|j: int| 0 <= j < i + 1 implies exists|q: int|
                        #![trigger keys@[q]]
                        0 <= q < keys.len() && keys@[q]@ == uri_key(#[trigger] full[j]) by {
                        if j == i {
                            assert(keys@[pos as int]@ == uri_key(full[j]));
                        } else {
                            let q = choose|q: int|
                                #![trigger old_keys[q]]
                                0 <= q < old_keys.len() && old_keys[q]@ == uri_key(full[j]);
                            if q < pos {
                                assert(keys@[q] == old_keys[q]);
                            } else {
                                assert(keys@[q + 1] == old_keys[q]);
                            }
                        }
                    }
                }
            },
        }
        i += 1;
    }
    proof {
        assert(full.take(list.len() as int) =~= full);
        let rv = repo_views(repos@);
        assert forall|q: int| 0 <= q < rv.len() implies repo_of_group(#[trigger] rv[q], full) by {
            assert(rv[q] == repos@[q]@);
        }
        assert forall|p: int, q: int| 0 <= p < q < rv.len() implies lex_lt(
            rv[p].uri,
            rv[q].uri,
        ) by {
            assert(rv[p] == repos@[p]@);
            assert(rv[q] == repos@[q]@);
        }
        assert forall|j: int| 0 <= j < full.len() implies has_repo_for(rv, #[trigger] full[j]) by {
            let q = choose|q: int|
                #![trigger keys@[q]]
                0 <= q < keys.len() && keys@[q]@ == uri_key(full[j]);
            assert(rv[q] == repos@[q]@);
        }
        assert(full == index_views(list@));
        assert(is_catalog_of(rv, full));
    }
    repos
}

// ---------------------------------------------------------------------------
// The catalog
// ---------------------------------------------------------------------------
/// `s` lists the views of the values of `m` in increasing key order.
pub open spec fn values_in_key_order(m: Map<usize, RepoIndex>, s: Seq<RepoIndexView>) -> bool {
    exists|ks: Seq<usize>|
        {
            &&& forall|i: int, j: int| 0 <= i < j < ks.len() ==> ks[i] < ks[j]
            &&& ks.to_set() == m.dom()
            &&& s == ks.map_values(|k: usize| m[k]@)
        }
}

/// In-memory catalog of all repositories seen in the APT cache.
#[derive(Debug)]
pub struct RepoCatalog {
    repositories: Vec<Repository>,
}

/// Repositories in strictly increasing order of their URIs.
pub open spec fn uris_increasing(repos: Seq<RepositoryView>) -> bool {
    forall|i: int, j: int| 0 <= i < j < repos.len() ==> lex_lt(repos[i].uri, repos[j].uri)
}

impl RepoCatalog {
    /// The repositories of the catalog, as values.
    pub closed spec fn repos(&self) -> Seq<RepositoryView> {
        repo_views(self.repositories@)
    }

    /// The catalog keeps its repositories sorted by distinct URIs.
    #[verifier::type_invariant]
    spec fn sorted_by_uri(&self) -> bool {
        uris_increasing(repo_views(self.repositories@))
    }
}

impl View for RepoCatalog {
    type V = Seq<RepositoryView>;

    open spec fn view(&self) -> Seq<RepositoryView> {
        self.repos()
    }
}

impl Default for RepoCatalog {
    fn default() -> (r: Self)
        ensures
            r@ == Seq::<RepositoryView>::empty(),
    {
        let r = RepoCatalog { repositories: Vec::new() };
        assert(r@ =~= Seq::<RepositoryView>::empty());
        r
    }
}

impl RepoCatalog {
    /// Group the raw package indexes into repositories (by base URI).
    ///
    /// The indexes are taken in increasing key order; see [`is_catalog_of`]
    /// for what the grouping is.
    pub fn from_indexes(indexes: &BTreeMap<usize, RepoIndex>) -> (r: RepoCatalog)
        ensures
            exists|s: Seq<RepoIndexView>|
                values_in_key_order(indexes@, s) && is_catalog_of(r@, s),
    {
        let mut list: Vec<RepoIndex> = Vec::new();
        let values = indexes.values();
        let ghost start = values;
        for idx in it: values
            invariant
                list.len() == it.index(),
                it.seq() == vstd::std_specs::iter::IteratorSpec::remaining(&start),
                forall|j: int| 0 <= j < it.index() ==> #[trigger] list@[j]@ == it.seq()[j]@,
        {
            list.push(idx.clone());
        }
        proof {
            let s = index_views(list@);
            let ks = choose|ks: Seq<usize>|
                {
                    &&& vstd::std_specs::btree::increasing_seq(ks)
                    &&& ks.to_set() == indexes@.dom()
                    &&& ks.no_duplicates()
                    &&& vstd::std_specs::iter::IteratorSpec::remaining(&start) == ks.map(|i: int, k: usize| &indexes@[k])
                };
            assert forall|i: int, j: int| 0 <= i < j < ks.len() implies ks[i] < ks[j] by {
                assert(vstd::std_specs::cmp::OrdSpec::cmp_spec(&ks[i], &ks[j]) is Less);
            }
            assert(s =~= ks.map_values(|k: usize| indexes@[k]@));
            assert(values_in_key_order(indexes@, s));
        }
        let repositories = group_indexes(&list);
        RepoCatalog { repositories }
    }
}

/// The URIs of a sequence of repositories.
pub open spec fn repo_uris(s: Seq<RepositoryView>) -> Seq<Seq<char>> {
    s.map_values(|r: RepositoryView| r.uri)
}

/// The indexes of all repositories, repository by repository.
pub open spec fn flatten_indexes(rs: Seq<RepositoryView>) -> Seq<RepoIndexView>
    decreases rs.len(),
{
    if rs.len() == 0 {
        seq![]
    } else {
        flatten_indexes(rs.drop_last()) + rs.last().indexes
    }
}

/// The first index with the given id.
pub open spec fn lookup_id(s: Seq<RepoIndexView>, id: usize) -> Option<RepoIndexView>
    decreases s.len(),
{
    if s.len() == 0 {
        None
    } else if s[0].id == id {
        Some(s[0])
    } else {
        lookup_id(s.drop_first(), id)
    }
}

/// `lookup_id` over a concatenation.
pub proof fn lemma_lookup_id_add(a: Seq<RepoIndexView>, b: Seq<RepoIndexView>, id: usize)
    ensures
        lookup_id(a + b, id) == if lookup_id(a, id) is Some {
            lookup_id(a, id)
        } else {
            lookup_id(b, id)
        },
    decreases a.len(),
{
    if a.len() == 0 {
        assert(a + b =~= b);
    } else {
        assert((a + b).drop_first() =~= a.drop_first() + b);
        lemma_lookup_id_add(a.drop_first(), b, id);
    }
}

impl RepoCatalog {
    /// The repositories of the catalog, sorted by URI.
    pub fn repositories(&self) -> (r: &[Repository])
        ensures
            repo_views(r@) == self@,
            uris_increasing(self@),
    {
        proof {
            use_type_invariant(self);
        }
        self.repositories.as_slice()
    }

    /// `true` when the cache exposed no downloadable package index at all.
    pub fn is_empty(&self) -> (r: bool)
        ensures
            r == (self@.len() == 0),
    {
        self.repositories.len() == 0
    }

    /// URIs of all known repositories (sorted).
    pub fn known_uris(&self) -> (r: Vec<String>)
        ensures
            views(r@) == repo_uris(self@),
    {
        let mut r: Vec<String> = Vec::new();
        for i in 0..self.repositories.len()
            invariant
                views(r@) == repo_uris(repo_views(self.repositories@).take(i as int)),
        {
            r.push(self.repositories[i].uri.clone());
            assert(repo_uris(repo_views(self.repositories@).take(i + 1)) =~= repo_uris(
                repo_views(self.repositories@).take(i as int),
            ).push(self.repositories@[i as int].uri@));
        }
        assert(repo_views(self.repositories@).take(self.repositories.len() as int) =~= repo_views(
            self.repositories@,
        ));
        r
    }

    /// Look up a single index by its in-cache id (the first one, repository
    /// by repository).
    pub fn index_by_id(&self, id: usize) -> (r: Option<&RepoIndex>)
        ensures
            match r {
                Some(x) => lookup_id(flatten_indexes(self@), id) == Some(x@),
                None => lookup_id(flatten_indexes(self@), id) is None,
            },
    {
        let ghost rs = repo_views(self.repositories@);
        for p in 0..self.repositories.len()
            invariant
                rs == repo_views(self.repositories@),
                lookup_id(flatten_indexes(rs.take(p as int)), id) is None,
        {
            let idxs = &self.repositories[p].indexes;
            let ghost before = flatten_indexes(rs.take(p as int));
            for j in 0..idxs.len()
                invariant
                    idxs == &self.repositories@[p as int].indexes,
                    rs == repo_views(self.repositories@),
                    p < self.repositories.len(),
                    before == flatten_indexes(rs.take(p as int)),
                    lookup_id(before, id) is None,
                    lookup_id(index_views(idxs@).take(j as int), id) is None,
            {
                if idxs[j].id == id {
                    proof {
                        let mine = index_views(idxs@);
                        assert(mine =~= mine.take(j as int) + mine.skip(j as int));
                        assert(mine.skip(j as int)[0] == idxs@[j as int]@);
                        lemma_lookup_id_add(mine.take(j as int), mine.skip(j as int), id);
                        lemma_lookup_id_add(before, mine, id);
                        assert(rs.take(p + 1).drop_last() =~= rs.take(p as int));
                        let rest = rs.skip(p + 1);
                        lemma_flatten_add(rs.take(p + 1), rest);
                        assert(rs =~= rs.take(p + 1) + rest);
                        lemma_lookup_id_add(flatten_indexes(rs.take(p + 1)), flatten_indexes(rest), id);
                    }
                    return Some(&idxs[j]);
                }
                proof {
                    let mine = index_views(idxs@);
                    assert(mine[j as int] == idxs@[j as int]@);
                    reveal_with_fuel(lookup_id, 2);
                    assert(mine.take(j + 1) =~= mine.take(j as int) + seq![mine[j as int]]);
                    lemma_lookup_id_add(mine.take(j as int), seq![mine[j as int]], id);
                    assert(seq![mine[j as int]].drop_first() =~= Seq::<RepoIndexView>::empty());
                }
            }
            proof {
                let mine = index_views(idxs@);
                assert(mine.take(idxs.len() as int) =~= mine);
                assert(rs.take(p + 1).drop_last() =~= rs.take(p as int));
                lemma_lookup_id_add(before, mine, id);
            }
        }
        assert(rs.take(self.repositories.len() as int) =~= rs);
        None
    }

    /// Resolve a user-facing repository selector against the catalog.
    ///
    /// Supported forms:
    ///
    /// * a repository URI (`https://deb.debian.org/debian-security`) —
    ///   matched against the repository base URI, ignoring a trailing slash;
    ///   scheme and host compare case-insensitively;
    /// * a hostname (`security.debian.org`) — matched against the site of the
    ///   repository; ambiguous when several distinct URIs share the host;
    /// * a hostname with a path (`deb.debian.org/debian-security`) —
    ///   matched against the URI without its scheme.
    ///
    /// [`Ok`] means the selector matched exactly one repository,
    /// [`AptListsError::AmbiguousRepoSelector`] that it matched several
    /// distinct repository URIs, and [`AptListsError::RepoNotFound`] that
    /// nothing matched at all.
    pub fn resolve(&self, selector: &str) -> (r: Result<ResolvedRepo, AptListsError>)
        ensures
            resolve_result(self@, selector@, r),
    {
        selector::resolve(self, selector)
    }
}

/// `flatten_indexes` over a concatenation.
pub proof fn lemma_flatten_add(a: Seq<RepositoryView>, b: Seq<RepositoryView>)
    ensures
        flatten_indexes(a + b) == flatten_indexes(a) + flatten_indexes(b),
    decreases b.len(),
{
    if b.len() == 0 {
        assert(a + b =~= a);
        assert(flatten_indexes(a) + flatten_indexes(b) =~= flatten_indexes(a));
    } else {
        assert((a + b).drop_last() =~= a + b.drop_last());
        lemma_flatten_add(a, b.drop_last());
        assert(flatten_indexes(a) + flatten_indexes(b) =~= flatten_indexes(a) + flatten_indexes(
            b.drop_last(),
        ) + b.last().indexes);
    }
}

} // verus!
