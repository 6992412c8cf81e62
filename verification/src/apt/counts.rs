//! Which package names each repository suite provides.
use std::collections::BTreeMap;

use vstd::prelude::*;

use crate::apt::{package_views, ScannedPackage, ScannedPackageView, ScannedVersionView};
use crate::repository::{normalize_chars, normalize_uri_spec, uri_key, RepoIndex};
use crate::text::{chars_of, clone_opt, eq_chars, opt_view, str_eq, string_of, views};

verus! {

broadcast use {vstd::laws_cmp::group_laws_cmp, vstd::std_specs::btree::group_btree_axioms};

/// One package name provided by one suite of one repository.
#[derive(Debug)]
pub struct SuiteName {
    /// The repository key: the normalized base URI.
    pub repo_key: String,
    /// The suite (archive), if the index has one.
    pub archive: Option<String>,
    /// The package name.
    pub name: String,
}

/// A repository key, a suite and a package name.
pub type SuiteNameView = (Seq<char>, Option<Seq<char>>, Seq<char>);

impl View for SuiteName {
    type V = SuiteNameView;

    open spec fn view(&self) -> SuiteNameView {
        (self.repo_key@, opt_view(self.archive), self.name@)
    }
}

/// The package names of every repository suite, as found in the scan.
#[derive(Debug)]
pub struct PackageCounts {
    entries: Vec<SuiteName>,
}

/// The entries that the ids of one version contribute.
pub open spec fn id_entries(name: Seq<char>, ids: Seq<usize>, m: Map<usize, RepoIndex>) -> Seq<
    SuiteNameView,
>
    decreases ids.len(),
{
    if ids.len() == 0 {
        seq![]
    } else {
        let prev = id_entries(name, ids.drop_last(), m);
        if m.dom().contains(ids.last()) {
            prev.push((uri_key(m[ids.last()]@), m[ids.last()]@.archive, name))
        } else {
            prev
        }
    }
}

/// The entries that the versions of one package contribute.
pub open spec fn version_entries(
    name: Seq<char>,
    vs: Seq<ScannedVersionView>,
    m: Map<usize, RepoIndex>,
) -> Seq<SuiteNameView>
    decreases vs.len(),
{
    if vs.len() == 0 {
        seq![]
    } else {
        version_entries(name, vs.drop_last(), m) + id_entries(name, vs.last().index_ids, m)
    }
}

/// For every package, version and index id, in order: the key and suite of
/// the index, and the package name.
pub open spec fn count_entries(pkgs: Seq<ScannedPackageView>, m: Map<usize, RepoIndex>) -> Seq<
    SuiteNameView,
>
    decreases pkgs.len(),
{
    if pkgs.len() == 0 {
        seq![]
    } else {
        count_entries(pkgs.drop_last(), m) + version_entries(
            pkgs.last().name,
            pkgs.last().versions,
            m,
        )
    }
}

/// The names that the entries record for a repository key and a suite.
pub open spec fn counted_names(
    entries: Seq<SuiteNameView>,
    key: Seq<char>,
    suite: Option<Seq<char>>,
) -> Set<Seq<char>> {
    Set::new(|n: Seq<char>| entries.contains((key, suite, n)))
}

/// The entries record the name `n` for the key and suite.
pub open spec fn has_count_entry(
    entries: Seq<SuiteNameView>,
    key: Seq<char>,
    suite: Option<Seq<char>>,
    n: Seq<char>,
) -> bool {
    entries.contains((key, suite, n))
}

impl PackageCounts {
    /// The recorded entries.
    pub closed spec fn entries(self) -> Seq<SuiteNameView> {
        self.entries@.map_values(|e: SuiteName| e@)
    }

    /// The counts hold exactly the entries of the given scan.
    pub open spec fn counts_for(self, pkgs: Seq<ScannedPackageView>, m: Map<usize, RepoIndex>) -> bool {
        self.entries() == count_entries(pkgs, m)
    }

    /// Records, for every package version and every index id providing it,
    /// the index's repository key and suite with the package name.
    pub fn compute(packages: &Vec<ScannedPackage>, indexes: &BTreeMap<usize, RepoIndex>) -> (r:
        Self)
        ensures
            r.counts_for(package_views(packages@), indexes@),
    {
        let ghost pv = package_views(packages@);
        let ghost m = indexes@;
        let mut entries: Vec<SuiteName> = Vec::new();
        for i in 0..packages.len()
            invariant
                pv == package_views(packages@),
                m == indexes@,
                entries@.map_values(|e: SuiteName| e@) == count_entries(pv.take(i as int), m),
        {
            let p = &packages[i];
            let ghost name = p.name@;
            let ghost vs = p@.versions;
            let ghost base = count_entries(pv.take(i as int), m);
            for j in 0..p.versions.len()
                invariant
                    vs == p@.versions,
                    name == p.name@,
                    m == indexes@,
                    entries@.map_values(|e: SuiteName| e@) == base + version_entries(
                        name,
                        vs.take(j as int),
                        m,
                    ),
            {
                let v = &p.versions[j];
                let ghost ids = v.index_ids@;
                let ghost base2 = base + version_entries(name, vs.take(j as int), m);
                assert(vs[j as int] == v@);
                for k in 0..v.index_ids.len()
                    invariant
                        ids == v.index_ids@,
                        name == p.name@,
                        m == indexes@,
                        entries@.map_values(|e: SuiteName| e@) == base2 + id_entries(
                            name,
                            ids.take(k as int),
                            m,
                        ),
                {
                    let ghost before = entries@;
                    let id = v.index_ids[k];
                    assert(ids.take(k + 1).drop_last() =~= ids.take(k as int));
                    match indexes.get(&id) {
                        Some(ix) => {
                            let e = SuiteName {
                                repo_key: string_of(&normalize_chars(&chars_of(ix.uri.as_str()))),
                                archive: clone_opt(&ix.archive),
                                name: p.name.clone(),
                            };
                            entries.push(e);
                            assert(entries@.map_values(|e: SuiteName| e@) =~= before.map_values(
                                |e: SuiteName| e@,
                            ).push(e@));
                        },
                        None => {},
                    }
                }
                assert(ids.take(v.index_ids.len() as int) =~= ids);
                assert(vs.take(j + 1).drop_last() =~= vs.take(j as int));
            }
            assert(vs.take(p.versions.len() as int) =~= vs);
            assert(pv.take(i + 1).drop_last() =~= pv.take(i as int));
        }
        assert(pv.take(packages.len() as int) =~= pv);
        PackageCounts { entries }
    }
}

/// Number of distinct package names that the suite `suite` of the
/// repository with base URI `uri` provides (a name listed in several
/// architecture indexes of one suite counts once); `None` stands for the
/// indexes without suite metadata.
pub fn suite_package_count(counts: &PackageCounts, uri: &str, suite: Option<&str>) -> (r: usize)
    ensures
        r == counted_names(
            counts.entries(),
            normalize_uri_spec(uri@),
            match suite {
                Some(s) => Some(s@),
                None => None,
            },
        ).len(),
{
    let key = normalize_chars(&chars_of(uri));
    let ghost su: Option<Seq<char>> = match suite {
        Some(s) => Some(s@),
        None => None,
    };
    let ghost es = counts.entries();
    let mut names: Vec<String> = Vec::new();
    for i in 0..counts.entries.len()
        invariant
            es == counts.entries(),
            key@ == normalize_uri_spec(uri@),
            su == match suite {
                Some(s) => Some(s@),
                None => None,
            },
            views(names@).no_duplicates(),
            forall|n: Seq<char>| #[trigger]
                views(names@).contains(n) <==> es.take(i as int).contains((key@, su, n)),
    {
        let e = &counts.entries[i];
        let ghost before = names@;
        assert(es[i as int] == e@);
        assert(es.take(i + 1) =~= es.take(i as int).push(e@));
        let same_suite = match (&e.archive, suite) {
            (Some(a), Some(s)) => eq_chars(&chars_of(a.as_str()), &chars_of(s)),
            (None, None) => true,
            _ => false,
        };
        assert(same_suite == (opt_view(e.archive) == su));
        let same_key = eq_chars(&chars_of(e.repo_key.as_str()), &key);
        if same_key && same_suite {
            if !crate::repository::contains_string(&names, &e.name) {
                names.push(e.name.clone());
                assert(views(names@) =~= views(before).push(e.name@));
            }
        }
        let ghost added = same_key && same_suite && !views(before).contains(e.name@);
        assert(views(names@) == if added {
            views(before).push(e.name@)
        } else {
            views(before)
        });
        assert(e@ == (e.repo_key@, opt_view(e.archive), e.name@));
        assert(same_key == (e.repo_key@ == key@));
        assert forall|n: Seq<char>| #[trigger]
            views(names@).contains(n) <==> es.take(i + 1).contains((key@, su, n)) by {
            let t = (key@, su, n);
            assert(es.take(i + 1).contains(t) <==> (es.take(i as int).contains(t) || e@ == t)) by {
                if es.take(i + 1).contains(t) {
                    let q = choose|q: int|
                        #![trigger es.take(i + 1)[q]]
                        0 <= q < i + 1 && es.take(i + 1)[q] == t;
                    if q < i {
                        assert(es.take(i as int)[q] == t);
                    }
                }
                if es.take(i as int).contains(t) {
                    let q = choose|q: int|
                        #![trigger es.take(i as int)[q]]
                        0 <= q < i && es.take(i as int)[q] == t;
                    assert(es.take(i + 1)[q] == t);
                }
                if e@ == t {
                    assert(es.take(i + 1)[i as int] == t);
                }
            }
            if views(before).contains(n) {
                let q = choose|q: int|
                    #![trigger views(before)[q]]
                    0 <= q < views(before).len() && views(before)[q] == n;
                assert(views(names@)[q] == n);
            }
            if views(names@).contains(n) {
                let q = choose|q: int|
                    #![trigger views(names@)[q]]
                    0 <= q < views(names@).len() && views(names@)[q] == n;
                if q < views(before).len() {
                    assert(views(before)[q] == n);
                    assert(views(before).contains(n));
                } else {
                    assert(n == e.name@);
                    assert(e@ == t);
                }
            }
            assert(views(before).contains(n) <==> es.take(i as int).contains(t));
            assert(views(names@).contains(n) <==> (views(before).contains(n) || (added && n
                == e.name@))) by {
                if added && n == e.name@ {
                    assert(views(names@)[views(before).len() as int] == n);
                }
            }
            assert((e@ == t) <==> (same_key && same_suite && n == e.name@));
        }
    }
    proof {
        assert(es.take(counts.entries.len() as int) =~= es);
        views(names@).unique_seq_to_set();
        assert(views(names@).to_set() =~= counted_names(es, key@, su));
    }
    names.len()
}

} // verus!
