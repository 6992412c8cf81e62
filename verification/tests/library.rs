use std::collections::BTreeMap;

use apt_lists::apt::{CacheScan, PackageCounts, ScannedPackage, ScannedVersion};
use apt_lists::cli::{Args, Mode};
use apt_lists::error::AptListsError;
use apt_lists::output::human;
use apt_lists::output::json::RepoRef;
use apt_lists::query::{self, InstalledFilter, RepoFilter, VersionRow};
use apt_lists::repository::{normalize_uri, strip_scheme, RepoCatalog, RepoIndex, Repository};
use apt_lists::text::decimal_string;

fn index(id: usize, uri: &str, archive: Option<&str>, arch: Option<&str>, filename: &str) -> RepoIndex {
    RepoIndex {
        id,
        uri: uri.to_string(),
        site: None,
        archive: archive.map(str::to_string),
        codename: None,
        origin: None,
        label: None,
        component: Some("main".to_string()),
        arch: arch.map(str::to_string),
        filename: filename.to_string(),
        index_type: "Debian Package Index".to_string(),
    }
}

fn row(name: &str, version: &str, installed: bool, repositories: Vec<RepoIndex>) -> VersionRow {
    VersionRow {
        name: name.to_string(),
        version: version.to_string(),
        arch: "amd64".to_string(),
        installed,
        auto_installed: false,
        repositories,
    }
}

#[test]
fn normalize_uri_lowers_scheme_and_host_only() {
    assert_eq!(
        normalize_uri("HTTPS://Deb.Debian.ORG/Debian-Security/"),
        "https://deb.debian.org/Debian-Security"
    );
    assert_eq!(normalize_uri("  http://Host//  "), "http://host");
    assert_eq!(normalize_uri("Host/Path/"), "Host/Path");
    assert_eq!(normalize_uri("file:///srv/Repo"), "file:///srv/Repo");
}

#[test]
fn strip_scheme_drops_scheme_and_trailing_slashes() {
    assert_eq!(strip_scheme("https://deb.debian.org/debian/"), "deb.debian.org/debian");
    assert_eq!(strip_scheme("deb.debian.org/debian//"), "deb.debian.org/debian");
    assert_eq!(strip_scheme("file:///srv/repo"), "/srv/repo");
}

#[test]
fn decimal_string_writes_digits() {
    assert_eq!(decimal_string(0), "0");
    assert_eq!(decimal_string(7), "7");
    assert_eq!(decimal_string(1204), "1204");
}

#[test]
fn table_pads_all_but_the_last_column() {
    let headers: [&str; 2] = ["A", "BB"];
    let rows = vec![
        vec!["x".to_string(), "y".to_string()],
        vec!["long".to_string(), "z".to_string()],
    ];
    assert_eq!(
        human::table(Some(&headers[..]), &rows),
        "A     BB\nx     y\nlong  z\n"
    );
    assert_eq!(human::table(None, &rows), "x     y\nlong  z\n");
    assert_eq!(human::table(None, &[]), "");
}

#[test]
fn repo_column_joins_distinct_uris() {
    assert_eq!(human::repo_column(&[]), "-");
    let a = index(1, "https://a.example/", None, None, "a1");
    let a2 = index(2, "https://a.example/", None, None, "a2");
    let b = index(3, "https://b.example/x/", None, None, "b");
    assert_eq!(
        human::repo_column(&[a, a2, b]),
        "https://a.example/,https://b.example/x/"
    );
}

#[test]
fn human_tables_without_headers() {
    let r = index(1, "https://a.example/", None, None, "a1");
    let rows = vec![row("foo", "1.0", true, vec![r]), row("bar", "2", false, vec![])];
    assert_eq!(
        human::installed(&rows, true),
        "foo  1.0  amd64  https://a.example/\nbar  2    amd64  -\n"
    );
    assert_eq!(
        human::package_versions(&rows, false),
        "PACKAGE  VERSION  ARCH   REPOSITORY\n\
         foo      1.0      amd64  https://a.example/  [installed]\n\
         bar      2        amd64  -\n"
    );
}

#[test]
fn repository_distinct_fields_keep_first_appearance_order() {
    let repo = Repository {
        uri: "https://r.example/".to_string(),
        site: Some("r.example".to_string()),
        indexes: vec![
            index(1, "https://r.example/", Some("b"), Some("amd64"), "1"),
            index(2, "https://r.example/", Some("a"), Some("i386"), "2"),
            index(3, "https://r.example/", Some("b"), Some("i386"), "3"),
            index(4, "https://r.example/", None, None, "4"),
        ],
    };
    assert_eq!(repo.archives(), vec!["b", "a"]);
    assert_eq!(repo.archs(), vec!["amd64", "i386"]);
    assert_eq!(repo.components(), vec!["main"]);
    assert!(repo.codenames().is_empty());
    assert!(repo.origins().is_empty());
    assert!(repo.labels().is_empty());
}

#[test]
fn repos_table_for_a_flat_repository_uses_dashes() {
    let mut indexes = BTreeMap::new();
    indexes.insert(7, index(7, "file:///srv/flat/", None, None, "flat"));
    let catalog = RepoCatalog::from_indexes(&indexes);
    let packages: Vec<ScannedPackage> = vec![];
    let package_counts = PackageCounts::compute(&packages, &indexes);
    let scan = CacheScan {
        indexes,
        packages,
        package_counts,
    };
    assert_eq!(
        human::repos(&catalog, &scan.package_counts, true),
        "file:///srv/flat/  -  main  -  0\n"
    );
}

#[test]
fn catalog_orders_repositories_and_indexes() {
    let mut indexes = BTreeMap::new();
    indexes.insert(1, index(1, "https://z.example/", Some("s"), Some("amd64"), "z-b"));
    indexes.insert(2, index(2, "https://a.example/", Some("s"), Some("amd64"), "a"));
    indexes.insert(3, index(3, "https://z.example", Some("s"), Some("i386"), "z-a"));
    let catalog = RepoCatalog::from_indexes(&indexes);
    assert_eq!(catalog.known_uris(), vec!["https://a.example/", "https://z.example/"]);
    let repos = catalog.repositories();
    let ids: Vec<usize> = repos[1].indexes.iter().map(|i| i.id).collect();
    assert_eq!(ids, vec![3, 1]);
    assert_eq!(catalog.index_by_id(3).map(|i| i.filename.as_str()), Some("z-a"));
    assert!(catalog.index_by_id(9).is_none());
    assert!(!catalog.is_empty());
    assert!(RepoCatalog::default().is_empty());
}

#[test]
fn mode_precedence() {
    let mut args = Args::default();
    assert_eq!(args.mode(), Mode::All);
    args.packages = vec!["foo".to_string()];
    assert_eq!(args.mode(), Mode::Packages);
    args.manual_installed = true;
    assert_eq!(args.mode(), Mode::Installed);
    assert!(args.manual_only());
    args.manual_installed = false;
    args.installed = true;
    assert_eq!(args.mode(), Mode::Installed);
    assert!(!args.manual_only());
    args.repos = true;
    assert_eq!(args.mode(), Mode::Repos);
    args.all = true;
    assert_eq!(args.mode(), Mode::Repos);
}

#[test]
fn error_messages() {
    assert_eq!(
        AptListsError::CacheInit("boom".to_string()).message(),
        "failed to initialize the APT cache: boom"
    );
    assert_eq!(
        AptListsError::NoPackageIndexes.message(),
        "no APT package indexes are available; run `apt update` first \
         (this tool never downloads package lists by itself)"
    );
    assert_eq!(
        AptListsError::RepoNotFound {
            selector: "x".to_string(),
            known: vec![]
        }
        .message(),
        "repository 'x' was not found in the APT cache"
    );
    assert_eq!(
        AptListsError::RepoNotFound {
            selector: "x".to_string(),
            known: vec!["https://a/".to_string(), "https://b/".to_string()]
        }
        .message(),
        "repository 'x' was not found in the APT cache\n\
         repositories known to the cache:\n  https://a/\n  https://b/\n"
    );
    assert_eq!(
        AptListsError::AmbiguousRepoSelector {
            selector: "h".to_string(),
            candidates: vec!["https://h/a/".to_string(), "https://h/b/".to_string()]
        }
        .message(),
        "repository selector 'h' is ambiguous; it matches multiple repository URIs:\n  \
         https://h/a/\n  https://h/b/\npass the full repository URI to disambiguate"
    );
    assert_eq!(
        AptListsError::PackageNotFound("nope".to_string()).message(),
        "package 'nope' was not found in the APT cache"
    );
    let io = std::io::Error::new(std::io::ErrorKind::BrokenPipe, "pipe closed");
    let msg = AptListsError::from(io).message();
    assert_eq!(msg, "failed to write to stdout: pipe closed");
}

fn scanned(name: &str, arch: &str, auto: bool, versions: Vec<ScannedVersion>) -> ScannedPackage {
    ScannedPackage {
        name: name.to_string(),
        arch: arch.to_string(),
        auto_installed: auto,
        versions,
    }
}

fn ver(v: &str, arch: &str, installed: bool, ids: Vec<usize>) -> ScannedVersion {
    ScannedVersion {
        version: v.to_string(),
        arch: arch.to_string(),
        installed,
        index_ids: ids,
    }
}

fn small_scan() -> (CacheScan, RepoCatalog) {
    let mut indexes = BTreeMap::new();
    indexes.insert(1, index(1, "https://a.example/", Some("s"), Some("amd64"), "a"));
    indexes.insert(2, index(2, "https://b.example/", Some("s"), Some("amd64"), "b"));
    let catalog = RepoCatalog::from_indexes(&indexes);
    let packages = vec![
        scanned("p", "amd64", false, vec![ver("2", "amd64", false, vec![2]), ver("1", "amd64", true, vec![1, 2])]),
        scanned("q", "amd64", true, vec![ver("1", "all", true, vec![1])]),
        scanned("q", "i386", false, vec![ver("1", "i386", false, vec![])]),
    ];
    let package_counts = PackageCounts::compute(&packages, &indexes);
    let scan = CacheScan {
        indexes,
        packages,
        package_counts,
    };
    (scan, catalog)
}

#[test]
fn installed_version_is_the_first_installed() {
    let (scan, _catalog) = small_scan();
    assert_eq!(scan.packages[0].installed_version().map(|v| v.version.as_str()), Some("1"));
    assert!(scan.packages[2].installed_version().is_none());
    let pairs: Vec<(&str, &str)> = scan
        .installed_versions()
        .iter()
        .map(|(p, v)| (p.name.as_str(), v.version.as_str()))
        .collect();
    assert_eq!(pairs, vec![("p", "1"), ("q", "1")]);
}

#[test]
fn packages_by_name_honours_the_architecture() {
    let (scan, _catalog) = small_scan();
    assert_eq!(scan.packages_by_name("q").len(), 2);
    let only = scan.packages_by_name("q:i386");
    assert_eq!(only.len(), 1);
    assert_eq!(only[0].arch, "i386");
    assert_eq!(scan.packages_by_name("q:all").len(), 1);
    assert!(scan.packages_by_name("q:arm64").is_empty());
    assert!(scan.packages_by_name("r").is_empty());
}

#[test]
fn manual_rows_are_the_installed_rows_without_auto() {
    let (scan, catalog) = small_scan();
    let all = query::installed(&scan, &catalog, RepoFilter::All, InstalledFilter::default());
    let manual = query::installed(&scan, &catalog, RepoFilter::All, InstalledFilter { manual_only: true });
    let all_manual: Vec<&str> = all.iter().filter(|r| !r.auto_installed).map(|r| r.name.as_str()).collect();
    let manual_names: Vec<&str> = manual.iter().map(|r| r.name.as_str()).collect();
    assert_eq!(manual_names, all_manual);
    assert!(all.iter().all(|r| r.installed));
}

#[test]
fn repo_filter_keeps_exactly_the_provided_versions() {
    let (scan, catalog) = small_scan();
    let sel = catalog.resolve("https://b.example").unwrap();
    assert_eq!(sel.index_ids, vec![2]);
    assert!(sel.contains(2) && !sel.contains(1));
    let rows = query::all_versions(&scan, &catalog, RepoFilter::Selected(&sel));
    let keys: Vec<(&str, &str)> = rows.iter().map(|r| (r.name.as_str(), r.version.as_str())).collect();
    assert_eq!(keys, vec![("p", "2"), ("p", "1")]);
    assert!(rows.iter().all(|r| r.repositories.len() == 1 && r.repositories[0].id == 2));
    let unfiltered = query::all_versions(&scan, &catalog, RepoFilter::All);
    assert_eq!(unfiltered.len(), 4);
    assert_eq!(unfiltered[1].repositories.len(), 2);
    assert!(unfiltered[3].repositories.is_empty());
}

#[test]
fn json_rows_follow_the_rows() {
    let r = index(1, "https://a.example/", Some("s"), Some("amd64"), "a");
    let reference = RepoRef::from_index(&r);
    assert_eq!(reference.uri, "https://a.example/");
    assert_eq!(reference.architecture.as_deref(), Some("amd64"));
    assert_eq!(reference.index_filename, "a");
    let rows = vec![row("foo", "1.0", true, vec![r])];
    let doc = apt_lists::output::json::versions(&rows);
    assert_eq!(doc.packages[0].name, "foo");
    assert_eq!(doc.packages[0].repositories.as_ref().unwrap().len(), 1);
}

#[test]
fn trailing_slash_does_not_change_normalization() {
    for u in [
        "https://deb.debian.org/debian",
        "HTTPS://Deb.Debian.ORG",
        "deb.debian.org/Debian",
        "",
        "file:///srv/repo",
        "http:/",
    ] {
        assert_eq!(normalize_uri(&format!("{u}/")), normalize_uri(u), "{u}");
    }
    // Where the slash completes a scheme separator, the text before it is
    // lower-cased; where whitespace follows text, the slash keeps it.
    assert_ne!(normalize_uri("HTTP:/"), normalize_uri("HTTP://"));
    assert_ne!(normalize_uri("host "), normalize_uri("host /"));
}

#[test]
fn every_index_belongs_to_exactly_one_repository() {
    let mut indexes = BTreeMap::new();
    indexes.insert(1, index(1, "https://z.example/", Some("s"), Some("amd64"), "z-b"));
    indexes.insert(2, index(2, "https://a.example/", Some("s"), Some("amd64"), "a"));
    indexes.insert(3, index(3, "HTTPS://Z.example", Some("t"), Some("i386"), "z-a"));
    indexes.insert(4, index(4, "https://z.example/Path", Some("s"), Some("i386"), "z-c"));
    let catalog = RepoCatalog::from_indexes(&indexes);
    for id in indexes.keys() {
        let holders = catalog
            .repositories()
            .iter()
            .filter(|r| r.indexes.iter().any(|i| i.id == *id))
            .count();
        assert_eq!(holders, 1, "index {id}");
    }
    assert_eq!(catalog.repositories().len(), 3);
    let keys: Vec<String> = catalog
        .repositories()
        .iter()
        .map(|r| normalize_uri(&r.uri))
        .collect();
    assert_eq!(
        keys,
        vec!["https://a.example", "https://z.example", "https://z.example/Path"]
    );
}

#[test]
fn suite_counts_count_distinct_names() {
    let mut indexes = BTreeMap::new();
    indexes.insert(1, index(1, "https://a.example/", Some("s"), Some("amd64"), "a1"));
    indexes.insert(2, index(2, "https://a.example/", Some("s"), Some("i386"), "a2"));
    indexes.insert(3, index(3, "https://a.example/", Some("t"), Some("amd64"), "a3"));
    let packages = vec![
        scanned("x", "amd64", false, vec![ver("1", "all", false, vec![1, 2])]),
        scanned("x", "i386", false, vec![ver("1", "i386", false, vec![2])]),
        scanned("y", "amd64", false, vec![ver("1", "amd64", false, vec![1, 3]), ver("0", "amd64", false, vec![3])]),
    ];
    let counts = PackageCounts::compute(&packages, &indexes);
    assert_eq!(apt_lists::apt::suite_package_count(&counts, "https://a.example", Some("s")), 2);
    assert_eq!(apt_lists::apt::suite_package_count(&counts, "HTTPS://A.example/", Some("t")), 1);
    assert_eq!(apt_lists::apt::suite_package_count(&counts, "https://a.example/", Some("u")), 0);
    assert_eq!(apt_lists::apt::suite_package_count(&counts, "https://a.example/", None), 0);
    assert_eq!(apt_lists::apt::suite_package_count(&counts, "https://b.example/", Some("s")), 0);
}

#[test]
fn installed_repo_filter_keeps_exactly_provided_versions() {
    let (scan, catalog) = small_scan();
    let sel = catalog.resolve("a.example").unwrap();
    let rows = query::installed(&scan, &catalog, RepoFilter::Selected(&sel), InstalledFilter::default());
    let keys: Vec<(&str, &str, bool)> = rows
        .iter()
        .map(|r| (r.name.as_str(), r.version.as_str(), r.auto_installed))
        .collect();
    assert_eq!(keys, vec![("p", "1", false), ("q", "1", true)]);
    let sel = catalog.resolve("https://b.example/").unwrap();
    let rows = query::installed(&scan, &catalog, RepoFilter::Selected(&sel), InstalledFilter { manual_only: true });
    assert_eq!(rows.len(), 1);
    assert_eq!(rows[0].repositories.len(), 1);
    assert_eq!(rows[0].repositories[0].id, 2);
}

#[test]
fn normalization_is_idempotent_and_ignores_scheme_and_host_case() {
    for u in [
        "https://deb.debian.org/debian/",
        "HTTPS://Deb.Debian.ORG/Debian-Security//",
        "http://host",
        "http://",
        "a/://x",
        "Host/Path/",
    ] {
        let n = normalize_uri(u);
        assert_eq!(normalize_uri(&n), n, "{u}");
    }
    assert_eq!(
        normalize_uri("hTTpS://DEB.debian.org/Debian"),
        normalize_uri("https://deb.debian.org/Debian")
    );
    // The path keeps its case.
    assert_ne!(
        normalize_uri("https://deb.debian.org/Debian"),
        normalize_uri("https://deb.debian.org/debian")
    );
}

#[test]
fn index_lookup_agrees_with_the_indexes() {
    let mut indexes = BTreeMap::new();
    indexes.insert(4, index(4, "https://z.example/", Some("s"), Some("amd64"), "z4"));
    indexes.insert(2, index(2, "https://a.example/", Some("s"), Some("amd64"), "a2"));
    indexes.insert(7, index(7, "HTTPS://Z.example", Some("t"), Some("i386"), "z7"));
    let catalog = RepoCatalog::from_indexes(&indexes);
    for id in 0..10usize {
        assert_eq!(
            catalog.index_by_id(id).map(|i| (i.id, i.filename.clone())),
            indexes.get(&id).map(|i| (i.id, i.filename.clone())),
            "id {id}"
        );
    }
    let total: usize = catalog.repositories().iter().map(|r| r.indexes.len()).sum();
    assert_eq!(total, indexes.len());
    for r in catalog.repositories() {
        assert!(r.indexes.iter().any(|i| i.uri == r.uri));
    }
}

#[test]
fn selected_rows_list_the_selected_providers() {
    let (scan, catalog) = small_scan();
    let sel = catalog.resolve("https://b.example").unwrap();
    let rows = query::installed(&scan, &catalog, RepoFilter::Selected(&sel), InstalledFilter::default());
    assert_eq!(rows.len(), 1);
    assert_eq!(rows[0].name, "p");
    let ids: Vec<usize> = rows[0].repositories.iter().map(|i| i.id).collect();
    assert_eq!(ids, vec![2]);
    assert!(rows.iter().all(|r| !r.repositories.is_empty()));
}
