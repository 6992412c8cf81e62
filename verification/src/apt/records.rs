//! Building a [`CacheScan`] from the records read out of the APT cache.
use std::collections::BTreeMap;

use vstd::prelude::*;

use crate::apt::{
    package_views, version_views, CacheScan, PackageCounts, ScannedPackage, ScannedPackageView,
    ScannedVersion, ScannedVersionView,
};
use crate::repository::{lemma_lookup_id_add, lookup_id, RepoIndex, RepoIndexView};

verus! {

broadcast use {vstd::laws_cmp::group_laws_cmp, vstd::std_specs::btree::group_btree_axioms};

/// One `VersionFile` of a version: the package file it points to, and
/// whether that package file can be downloaded from a repository (the dpkg
/// status database, for one, cannot).
#[derive(Debug)]
pub struct VersionFileRecord {
    /// `PackageFile::is_downloadable()`.
    pub downloadable: bool,
    /// The metadata of the package file.
    pub index: RepoIndex,
}

/// One version of a package, as read from the cache.
#[derive(Debug)]
pub struct VersionRecord {
    /// Version string.
    pub version: String,
    /// Architecture of the version.
    pub arch: String,
    /// Whether this version is the installed one.
    pub installed: bool,
    /// The version's `VersionFile`s, in cache order.
    pub files: Vec<VersionFileRecord>,
}

/// One package record, as read from the cache.
#[derive(Debug)]
pub struct PackageRecord {
    /// Package name.
    pub name: String,
    /// Architecture of the package record.
    pub arch: String,
    /// Whether the package is marked auto-installed.
    pub auto_installed: bool,
    /// The versions, in cache order.
    pub versions: Vec<VersionRecord>,
}

/// The mathematical value of a [`VersionFileRecord`].
pub struct VersionFileRecordView {
    pub downloadable: bool,
    pub index: RepoIndexView,
}

/// The mathematical value of a [`VersionRecord`].
pub struct VersionRecordView {
    pub version: Seq<char>,
    pub arch: Seq<char>,
    pub installed: bool,
    pub files: Seq<VersionFileRecordView>,
}

/// The mathematical value of a [`PackageRecord`].
pub struct PackageRecordView {
    pub name: Seq<char>,
    pub arch: Seq<char>,
    pub auto_installed: bool,
    pub versions: Seq<VersionRecordView>,
}

impl View for VersionFileRecord {
    type V = VersionFileRecordView;

    open spec fn view(&self) -> VersionFileRecordView {
        VersionFileRecordView { downloadable: self.downloadable, index: self.index@ }
    }
}

impl View for VersionRecord {
    type V = VersionRecordView;

    open spec fn view(&self) -> VersionRecordView {
        VersionRecordView {
            version: self.version@,
            arch: self.arch@,
            installed: self.installed,
            files: self.files@.map_values(|f: VersionFileRecord| f@),
        }
    }
}

impl View for PackageRecord {
    type V = PackageRecordView;

    open spec fn view(&self) -> PackageRecordView {
        PackageRecordView {
            name: self.name@,
            arch: self.arch@,
            auto_installed: self.auto_installed,
            versions: self.versions@.map_values(|v: VersionRecord| v@),
        }
    }
}

/// The views of a sequence of package records.
pub open spec fn record_views(s: Seq<PackageRecord>) -> Seq<PackageRecordView> {
    s.map_values(|p: PackageRecord| p@)
}

/// The package indexes of the downloadable files, in order.
pub open spec fn dl_files(files: Seq<VersionFileRecordView>) -> Seq<RepoIndexView>
    decreases files.len(),
{
    if files.len() == 0 {
        seq![]
    } else if files.last().downloadable {
        dl_files(files.drop_last()).push(files.last().index)
    } else {
        dl_files(files.drop_last())
    }
}

/// The package indexes of the downloadable files of every version, in order.
pub open spec fn dl_version_indexes(vs: Seq<VersionRecordView>) -> Seq<RepoIndexView>
    decreases vs.len(),
{
    if vs.len() == 0 {
        seq![]
    } else {
        dl_version_indexes(vs.drop_last()) + dl_files(vs.last().files)
    }
}

/// The package indexes of the downloadable files of every version of every
/// package, in cache order.
pub open spec fn dl_indexes(ps: Seq<PackageRecordView>) -> Seq<RepoIndexView>
    decreases ps.len(),
{
    if ps.len() == 0 {
        seq![]
    } else {
        dl_indexes(ps.drop_last()) + dl_version_indexes(ps.last().versions)
    }
}

/// Strictly increasing ids.
pub open spec fn increasing(s: Seq<usize>) -> bool {
    forall|i: int, j: int| 0 <= i < j < s.len() ==> s[i] < s[j]
}

/// `sv` is the scanned form of `rv`: the same version, architecture and
/// installed flag, and the ids of its downloadable files, each once,
/// increasing.
pub open spec fn version_from(sv: ScannedVersionView, rv: VersionRecordView) -> bool {
    &&& sv.version == rv.version
    &&& sv.arch == rv.arch
    &&& sv.installed == rv.installed
    &&& increasing(sv.index_ids)
    &&& forall|id: usize| #[trigger]
        sv.index_ids.contains(id) <==> lookup_id(dl_files(rv.files), id) is Some
}

/// `sp` is the scanned form of `rp`.
pub open spec fn package_from(sp: ScannedPackageView, rp: PackageRecordView) -> bool {
    &&& sp.name == rp.name
    &&& sp.arch == rp.arch
    &&& sp.auto_installed == rp.auto_installed
    &&& sp.versions.len() == rp.versions.len()
    &&& forall|i: int|
        0 <= i < sp.versions.len() ==> version_from(#[trigger] sp.versions[i], rp.versions[i])
}

/// The package records that have at least one version.
pub open spec fn with_versions(ps: Seq<PackageRecordView>) -> Seq<PackageRecordView> {
    ps.filter(|p: PackageRecordView| p.versions.len() > 0)
}

/// `m` maps the id of every index of `s` to the first index of `s` with
/// that id, and holds nothing else.
pub open spec fn first_by_id(m: Map<usize, RepoIndex>, s: Seq<RepoIndexView>) -> bool {
    &&& forall|id: usize| #[trigger] m.dom().contains(id) <==> lookup_id(s, id) is Some
    &&& forall|id: usize| #[trigger] m.dom().contains(id) ==> Some(m[id]@) == lookup_id(s, id)
}

/// Adding the indexes of `b` after those of `a`.
proof fn lemma_first_by_id_add(
    m0: Map<usize, RepoIndex>,
    m1: Map<usize, RepoIndex>,
    a: Seq<RepoIndexView>,
    b: Seq<RepoIndexView>,
)
    requires
        first_by_id(m0, a),
        forall|id: usize| #[trigger]
            m1.dom().contains(id) <==> m0.dom().contains(id) || lookup_id(b, id) is Some,
        forall|id: usize| #[trigger] m0.dom().contains(id) ==> m1[id] == m0[id],
        forall|id: usize|
            !m0.dom().contains(id) && #[trigger] m1.dom().contains(id) ==> Some(m1[id]@)
                == lookup_id(b, id),
    ensures
        first_by_id(m1, a + b),
{
    assert forall|id: usize| #[trigger] m1.dom().contains(id) <==> lookup_id(a + b, id) is Some by {
        lemma_lookup_id_add(a, b, id);
    }
    assert forall|id: usize| #[trigger] m1.dom().contains(id) implies Some(m1[id]@) == lookup_id(
        a + b,
        id,
    ) by {
        lemma_lookup_id_add(a, b, id);
    }
}

/// Inserts `id` into increasing `ids` unless it is there.
fn insert_id(ids: &mut Vec<usize>, id: usize)
    requires
        increasing(old(ids)@),
    ensures
        increasing(final(ids)@),
        forall|x: usize| #[trigger] final(ids)@.contains(x) <==> old(ids)@.contains(x) || x == id,
{
    let ghost old_ids = ids@;
    let mut pos: usize = 0;
    while pos < ids.len() && ids[pos] < id
        invariant
            pos <= ids.len(),
            ids@ == old_ids,
            forall|k: int| 0 <= k < pos ==> ids@[k] < id,
        decreases ids.len() - pos,
    {
        pos += 1;
    }
    if pos < ids.len() && ids[pos] == id {
        return;
    }
    ids.insert(pos, id);
    assert forall|x: usize| #[trigger] ids@.contains(x) <==> old_ids.contains(x) || x == id by {
        if old_ids.contains(x) {
            let k = choose|k: int| 0 <= k < old_ids.len() && old_ids[k] == x;
            if k < pos {
                assert(ids@[k] == x);
            } else {
                assert(ids@[k + 1] == x);
            }
        }
        if x == id {
            assert(ids@[pos as int] == id);
        }
        if ids@.contains(x) {
            let k = choose|k: int| 0 <= k < ids@.len() && ids@[k] == x;
            if k < pos {
                assert(old_ids[k] == x);
            } else if k > pos {
                assert(old_ids[k - 1] == x);
            }
        }
    }
}

/// Scans one version: its downloadable index ids, and every index not yet
/// known added to `indexes`.
fn scan_version(rv: &VersionRecord, indexes: &mut BTreeMap<usize, RepoIndex>) -> (r:
    ScannedVersion)
    ensures
        version_from(r@, rv@),
        forall|id: usize| #[trigger]
            final(indexes)@.dom().contains(id) <==> old(indexes)@.dom().contains(id) || lookup_id(
                dl_files(rv@.files),
                id,
            ) is Some,
        forall|id: usize| #[trigger]
            old(indexes)@.dom().contains(id) ==> final(indexes)@[id] == old(indexes)@[id],
        forall|id: usize|
            !old(indexes)@.dom().contains(id) && #[trigger] final(indexes)@.dom().contains(id)
                ==> Some(final(indexes)@[id]@) == lookup_id(dl_files(rv@.files), id),
{
    let ghost files = rv@.files;
    let ghost m0 = indexes@;
    let mut ids: Vec<usize> = Vec::new();
    for k in 0..rv.files.len()
        invariant
            files == rv@.files,
            increasing(ids@),
            forall|id: usize| #[trigger]
                ids@.contains(id) <==> lookup_id(dl_files(files.take(k as int)), id) is Some,
            forall|id: usize| #[trigger]
                indexes@.dom().contains(id) <==> m0.dom().contains(id) || lookup_id(
                    dl_files(files.take(k as int)),
                    id,
                ) is Some,
            forall|id: usize| #[trigger] m0.dom().contains(id) ==> indexes@[id] == m0[id],
            forall|id: usize|
                !m0.dom().contains(id) && #[trigger] indexes@.dom().contains(id) ==> Some(
                    indexes@[id]@,
                ) == lookup_id(dl_files(files.take(k as int)), id),
    {
        let ghost before = dl_files(files.take(k as int));
        let f = &rv.files[k];
        assert(files[k as int] == f@);
        assert(files.take(k + 1).drop_last() =~= files.take(k as int));
        if f.downloadable {
            let id = f.index.id;
            assert(dl_files(files.take(k + 1)) == before.push(f.index@));
            proof {
                assert(before.push(f.index@) =~= before + seq![f.index@]);
                assert forall|x: usize| #[trigger] lookup_id(before.push(f.index@), x) == if lookup_id(
                    before,
                    x,
                ) is Some {
                    lookup_id(before, x)
                } else if x == id {
                    Some(f.index@)
                } else {
                    None::<RepoIndexView>
                } by {
                    lemma_lookup_id_add(before, seq![f.index@], x);
                    reveal_with_fuel(lookup_id, 2);
                    assert(seq![f.index@].drop_first() =~= Seq::<RepoIndexView>::empty());
                }
            }
            if !indexes.contains_key(&id) {
                indexes.insert(id, f.index.clone());
            }
            insert_id(&mut ids, id);
        } else {
            assert(dl_files(files.take(k + 1)) == before);
        }
    }
    assert(files.take(rv.files.len() as int) =~= files);
    ScannedVersion {
        version: rv.version.clone(),
        arch: rv.arch.clone(),
        installed: rv.installed,
        index_ids: ids,
    }
}

impl CacheScan {
    /// Builds the scan from the records of one pass over the cache:
    ///
    /// 1. the downloadable package indexes, each under its id (the first
    ///    record of an id wins),
    /// 2. every package record with at least one version, with the ids of the
    ///    downloadable indexes providing each version,
    /// 3. the package names each repository suite provides.
    pub fn from_records(records: &Vec<PackageRecord>) -> (r: CacheScan)
        ensures
            package_views(r.packages@).len() == with_versions(record_views(records@)).len(),
            forall|i: int|
                0 <= i < r.packages@.len() ==> package_from(
                    #[trigger] package_views(r.packages@)[i],
                    with_versions(record_views(records@))[i],
                ),
            first_by_id(r.indexes@, dl_indexes(record_views(records@))),
            r.package_counts.counts_for(package_views(r.packages@), r.indexes@),
    {
        let ghost rv = record_views(records@);
        let ghost pred = |p: PackageRecordView| p.versions.len() > 0;
        let mut indexes: BTreeMap<usize, RepoIndex> = BTreeMap::new();
        let mut packages: Vec<ScannedPackage> = Vec::new();
        for i in 0..records.len()
            invariant
                rv == record_views(records@),
                pred == (|p: PackageRecordView| p.versions.len() > 0),
                package_views(packages@).len() == rv.take(i as int).filter(pred).len(),
                forall|q: int|
                    0 <= q < packages@.len() ==> package_from(
                        #[trigger] package_views(packages@)[q],
                        rv.take(i as int).filter(pred)[q],
                    ),
                first_by_id(indexes@, dl_indexes(rv.take(i as int))),
        {
            let p = &records[i];
            let ghost pv = p@;
            let ghost vs = pv.versions;
            let ghost base = dl_indexes(rv.take(i as int));
            assert(rv[i as int] == pv);
            let mut versions: Vec<ScannedVersion> = Vec::new();
            for j in 0..p.versions.len()
                invariant
                    vs == p@.versions,
                    base == dl_indexes(rv.take(i as int)),
                    versions@.len() == j,
                    forall|q: int|
                        0 <= q < j ==> version_from(#[trigger] version_views(versions@)[q], vs[q]),
                    first_by_id(indexes@, base + dl_version_indexes(vs.take(j as int))),
            {
                let ghost m0 = indexes@;
                let ghost a = base + dl_version_indexes(vs.take(j as int));
                assert(vs[j as int] == p.versions@[j as int]@);
                let sv = scan_version(&p.versions[j], &mut indexes);
                proof {
                    lemma_first_by_id_add(m0, indexes@, a, dl_files(vs[j as int].files));
                    assert(vs.take(j + 1).drop_last() =~= vs.take(j as int));
                    assert(a + dl_files(vs[j as int].files) =~= base + dl_version_indexes(
                        vs.take(j + 1),
                    ));
                }
                let ghost old_vv = version_views(versions@);
                versions.push(sv);
                assert(version_views(versions@)[j as int] == sv@);
                assert forall|q: int| 0 <= q < j + 1 implies version_from(
                    #[trigger] version_views(versions@)[q],
                    vs[q],
                ) by {
                    if q < j {
                        assert(version_views(versions@)[q] == old_vv[q]);
                    }
                }
            }
            proof {
                assert(vs.take(p.versions.len() as int) =~= vs);
                assert(rv.take(i + 1).drop_last() =~= rv.take(i as int));
                assert(rv.take(i + 1) =~= rv.take(i as int).push(pv));
                rv.take(i as int).lemma_filter_push(pv, pred);
            }
            if p.versions.len() > 0 {
                let ghost before = packages@;
                let sp = ScannedPackage {
                    name: p.name.clone(),
                    arch: p.arch.clone(),
                    auto_installed: p.auto_installed,
                    versions,
                };
                assert(package_from(sp@, pv)) by {
                    assert forall|q: int| 0 <= q < sp@.versions.len() implies version_from(
                        #[trigger] sp@.versions[q],
                        pv.versions[q],
                    ) by {
                        assert(sp@.versions[q] == version_views(sp.versions@)[q]);
                    }
                }
                packages.push(sp);
                assert forall|q: int| 0 <= q < packages@.len() implies package_from(
                    #[trigger] package_views(packages@)[q],
                    rv.take(i + 1).filter(pred)[q],
                ) by {
                    if q < before.len() {
                        assert(package_views(packages@)[q] == package_views(before)[q]);
                    } else {
                        assert(package_views(packages@)[q] == sp@);
                    }
                }
            }
        }
        assert(rv.take(records.len() as int) =~= rv);
        let package_counts = PackageCounts::compute(&packages, &indexes);
        CacheScan { indexes, packages, package_counts }
    }
}

} // verus!
