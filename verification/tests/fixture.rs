//! Scenario tests over an in-memory model of one APT cache.
//!
//! The cache holds four repositories (all official Debian URIs):
//!
//! ```text
//! https://deb.debian.org/debian            trixie           (main archive)
//! https://ftp.us.debian.org/debian         trixie           (official mirror, same suite!)
//! https://deb.debian.org/debian-updates    trixie-updates
//! https://deb.debian.org/debian-security   trixie-security
//! ```
//!
//! ```text
//! deb.debian.org/debian      amd64: foo 2.0-1, libbaz 3.1-2, shared 5.0(all),
//!                                   debonly 1.0(all), secman 1.0(all)
//!                           i386:  foo 2.0-1
//! ftp.us.debian.org/debian   amd64: foo 2.0-1, libbaz 3.1-2, shared 5.0(all)
//! deb.debian.org/debian-updates   amd64: foo 2.0-1+deb13u1, updonly 3.0(all)
//! deb.debian.org/debian-security  amd64: libbaz 3.1-2+deb13u1, seconly 2.0(all)
//!
//! installed (dpkg status):          auto-installed:
//!   foo 2.0-1 amd64                   shared
//!   foo 2.0-1 i386                    debonly
//!   shared 5.0 all
//!   debonly 1.0 all
//!   libbaz 3.1-2+deb13u1 amd64       <- the security update, NOT 3.1-2
//!   secman 1.0 all
//!   seconly 2.0 all
//!   localonly 4.2 all                <- provided by nobody (status only)
//!   foreign 3.0 all                  <- config-files state, not installed
//! ```

use apt_lists::apt::{CacheScan, PackageRecord, VersionFileRecord, VersionRecord};
use apt_lists::error::AptListsError;
use apt_lists::output::json;
use apt_lists::query::{self, InstalledFilter, RepoFilter, VersionRow};
use apt_lists::repository::{RepoCatalog, RepoIndex};

const DEBIAN: &str = "https://deb.debian.org/debian";
const MIRROR: &str = "https://ftp.us.debian.org/debian";
const UPDATES: &str = "https://deb.debian.org/debian-updates";
const SECURITY: &str = "https://deb.debian.org/debian-security";

const STATUS: usize = 0;
const DEBIAN_AMD64: usize = 1;
const DEBIAN_I386: usize = 2;
const MIRROR_AMD64: usize = 3;
const UPDATES_AMD64: usize = 4;
const SECURITY_AMD64: usize = 5;

fn index(id: usize) -> RepoIndex {
    let (uri, site, suite, origin, arch) = match id {
        DEBIAN_AMD64 => (DEBIAN, "deb.debian.org", "trixie", "Debian", "amd64"),
        DEBIAN_I386 => (DEBIAN, "deb.debian.org", "trixie", "Debian", "i386"),
        MIRROR_AMD64 => (MIRROR, "ftp.us.debian.org", "trixie", "Debian", "amd64"),
        UPDATES_AMD64 => (UPDATES, "deb.debian.org", "trixie-updates", "Debian", "amd64"),
        SECURITY_AMD64 => (
            SECURITY,
            "deb.debian.org",
            "trixie-security",
            "Debian Security",
            "amd64",
        ),
        _ => {
            return RepoIndex {
                id,
                uri: String::new(),
                site: None,
                archive: None,
                codename: None,
                origin: None,
                label: None,
                component: None,
                arch: None,
                filename: "/var/lib/dpkg/status".to_string(),
                index_type: "Debian dpkg status file".to_string(),
            };
        }
    };
    let prefix = uri.split_once("://").unwrap().1.replace('/', "_");
    RepoIndex {
        id,
        uri: format!("{uri}/"),
        site: Some(site.to_string()),
        archive: Some(suite.to_string()),
        codename: Some("trixie".to_string()),
        origin: Some(origin.to_string()),
        label: Some(origin.to_string()),
        component: Some("main".to_string()),
        arch: Some(arch.to_string()),
        filename: format!("/var/lib/apt/lists/{prefix}_dists_{suite}_main_binary-{arch}_Packages"),
        index_type: "Debian Package Index".to_string(),
    }
}

fn version(v: &str, arch: &str, installed: bool, ids: &[usize]) -> VersionRecord {
    VersionRecord {
        version: v.to_string(),
        arch: arch.to_string(),
        installed,
        files: ids
            .iter()
            .map(|&id| VersionFileRecord {
                downloadable: id != STATUS,
                index: index(id),
            })
            .collect(),
    }
}

fn package(name: &str, arch: &str, auto: bool, versions: Vec<VersionRecord>) -> PackageRecord {
    PackageRecord {
        name: name.to_string(),
        arch: arch.to_string(),
        auto_installed: auto,
        versions,
    }
}

fn records() -> Vec<PackageRecord> {
    vec![
        package(
            "debonly",
            "amd64",
            true,
            vec![version("1.0", "all", true, &[DEBIAN_AMD64, STATUS])],
        ),
        package(
            "foo",
            "amd64",
            false,
            vec![
                version("2.0-1+deb13u1", "amd64", false, &[UPDATES_AMD64]),
                version("2.0-1", "amd64", true, &[DEBIAN_AMD64, MIRROR_AMD64, STATUS]),
            ],
        ),
        package(
            "foo",
            "i386",
            false,
            vec![version("2.0-1", "i386", true, &[DEBIAN_I386, STATUS])],
        ),
        package(
            "foreign",
            "amd64",
            false,
            vec![version("3.0", "all", false, &[STATUS])],
        ),
        package("ghost", "amd64", false, vec![]),
        package(
            "libbaz",
            "amd64",
            false,
            vec![
                version("3.1-2+deb13u1", "amd64", true, &[SECURITY_AMD64, STATUS]),
                version("3.1-2", "amd64", false, &[DEBIAN_AMD64, MIRROR_AMD64]),
            ],
        ),
        package(
            "localonly",
            "amd64",
            false,
            vec![version("4.2", "all", true, &[STATUS])],
        ),
        package(
            "secman",
            "amd64",
            false,
            vec![version("1.0", "all", true, &[DEBIAN_AMD64, STATUS])],
        ),
        package(
            "seconly",
            "amd64",
            false,
            vec![version("2.0", "all", true, &[SECURITY_AMD64, STATUS])],
        ),
        package(
            "shared",
            "amd64",
            true,
            vec![version("5.0", "all", true, &[DEBIAN_AMD64, MIRROR_AMD64, STATUS])],
        ),
        package(
            "updonly",
            "amd64",
            false,
            vec![version("3.0", "all", false, &[UPDATES_AMD64])],
        ),
    ]
}

fn scan() -> (CacheScan, RepoCatalog) {
    let scan = CacheScan::from_records(&records());
    let catalog = RepoCatalog::from_indexes(&scan.indexes);
    (scan, catalog)
}

fn filter_none() -> RepoFilter<'static> {
    RepoFilter::All
}

fn installed_all() -> InstalledFilter {
    InstalledFilter::default()
}

#[test]
fn repositories_are_listed_and_distinct() {
    let (_scan, catalog) = scan();
    let slash = |uri: &str| format!("{uri}/");
    let uris = catalog.known_uris();
    assert_eq!(
        uris,
        vec![
            slash(SECURITY),
            slash(UPDATES),
            slash(DEBIAN),
            slash(MIRROR),
        ]
    );

    // deb.debian.org/debian and ftp.us.debian.org/debian share suite,
    // codename and component — they must still be distinct repositories.
    let debian = catalog.resolve(DEBIAN).unwrap();
    let mirror = catalog.resolve(MIRROR).unwrap();
    assert_ne!(debian.repository.uri, mirror.repository.uri);
    assert_eq!(debian.repository.archives(), mirror.repository.archives());
    assert_eq!(debian.repository.site.as_deref(), Some("deb.debian.org"));
    assert_eq!(mirror.repository.site.as_deref(), Some("ftp.us.debian.org"));

    // The security pocket carries its own origin.
    assert_eq!(
        catalog.resolve(SECURITY).unwrap().repository.origins(),
        vec!["Debian Security"]
    );
}

#[test]
fn installed_versions_match_exact_repositories() {
    let (scan, catalog) = scan();

    let rows = query::installed(&scan, &catalog, filter_none(), installed_all());
    let find = |name: &str, version: &str, arch: &str| {
        rows.iter()
            .find(|r| r.name == name && r.version == version && r.arch == arch)
            .unwrap_or_else(|| panic!("row {name} {version} {arch} missing"))
    };
    let uris = |r: &VersionRow| -> Vec<String> {
        r.repositories.iter().map(|i| i.uri.clone()).collect()
    };
    let deb = format!("{DEBIAN}/");
    let mirror = format!("{MIRROR}/");
    let security = format!("{SECURITY}/");

    assert_eq!(
        uris(find("foo", "2.0-1", "amd64")),
        vec![deb.clone(), mirror.clone()]
    );
    assert_eq!(uris(find("foo", "2.0-1", "i386")), vec![deb.clone()]);
    assert_eq!(
        uris(find("shared", "5.0", "all")),
        vec![deb.clone(), mirror.clone()]
    );
    assert_eq!(
        uris(find("libbaz", "3.1-2+deb13u1", "amd64")),
        vec![security.clone()]
    );
    assert!(find("localonly", "4.2", "all").repositories.is_empty());
    assert!(rows.iter().all(|r| r.name != "foreign"));
}

#[test]
fn candidate_version_is_never_used_for_installed_queries() {
    let (scan, catalog) = scan();

    let sel = catalog.resolve(UPDATES).unwrap();
    let rows = query::installed(&scan, &catalog, RepoFilter::Selected(&sel), installed_all());
    assert!(rows.is_empty());

    let sel = catalog.resolve(SECURITY).unwrap();
    let rows = query::installed(&scan, &catalog, RepoFilter::Selected(&sel), installed_all());
    assert_eq!(rows.len(), 2);
    assert!(rows
        .iter()
        .any(|r| r.name == "libbaz" && r.version == "3.1-2+deb13u1" && r.arch == "amd64"));
    assert!(rows.iter().any(|r| r.name == "seconly" && r.arch == "all"));

    let sel = catalog.resolve(DEBIAN).unwrap();
    let rows = query::installed(&scan, &catalog, RepoFilter::Selected(&sel), installed_all());
    assert_eq!(rows.len(), 5);
    assert!(rows
        .iter()
        .any(|r| r.name == "foo" && r.arch == "amd64" && r.version == "2.0-1"));
    assert!(rows.iter().all(|r| r.name != "libbaz"));
}

#[test]
fn repo_filtering_reports_multiplicity() {
    let (scan, catalog) = scan();

    let rows = query::installed(&scan, &catalog, filter_none(), installed_all());
    let foo = rows
        .iter()
        .find(|r| r.name == "foo" && r.arch == "amd64")
        .unwrap();
    assert_eq!(foo.repositories.len(), 2);

    for uri in [DEBIAN, MIRROR] {
        let sel = catalog.resolve(uri).unwrap();
        let rows = query::installed(&scan, &catalog, RepoFilter::Selected(&sel), installed_all());
        let foo = rows
            .iter()
            .find(|r| r.name == "foo" && r.arch == "amd64")
            .unwrap();
        assert_eq!(foo.repositories.len(), 1);
        assert_eq!(foo.repositories[0].uri, format!("{uri}/"));
    }
}

#[test]
fn manual_installed_filter() {
    let (scan, catalog) = scan();

    let manual = query::installed(
        &scan,
        &catalog,
        filter_none(),
        InstalledFilter { manual_only: true },
    );
    let manual_names: Vec<&str> = manual.iter().map(|r| r.name.as_str()).collect();
    assert_eq!(
        manual_names,
        vec!["foo", "foo", "libbaz", "localonly", "secman", "seconly"]
    );

    let all = query::installed(&scan, &catalog, filter_none(), installed_all());
    assert_eq!(all.len(), manual.len() + 2);
}

#[test]
fn existing_repo_without_installed_matches_is_empty_ok() {
    let (scan, catalog) = scan();

    let sel = catalog.resolve(UPDATES).unwrap();
    let rows = query::installed(&scan, &catalog, RepoFilter::Selected(&sel), installed_all());
    assert!(rows.is_empty());

    let updonly = query::package_versions(&scan, &catalog, "updonly", filter_none()).unwrap();
    assert_eq!(updonly.len(), 1);
    assert!(updonly.iter().all(|r| !r.installed));
    assert_eq!(updonly[0].repositories[0].uri, format!("{UPDATES}/"));
}

#[test]
fn package_queries_cover_all_architectures() {
    let (scan, catalog) = scan();

    let rows = query::package_versions(&scan, &catalog, "foo", filter_none()).unwrap();
    assert_eq!(rows.len(), 3);
    assert!(rows
        .iter()
        .any(|r| r.arch == "amd64" && r.version == "2.0-1" && r.installed));
    assert!(rows
        .iter()
        .any(|r| r.arch == "i386" && r.version == "2.0-1" && r.installed));
    assert!(rows
        .iter()
        .any(|r| r.arch == "amd64" && r.version == "2.0-1+deb13u1" && !r.installed));

    let rows = query::package_versions(&scan, &catalog, "foo:i386", filter_none()).unwrap();
    assert_eq!(rows.len(), 1);
    assert_eq!(rows[0].arch, "i386");

    let rows = query::package_versions(&scan, &catalog, "shared", filter_none()).unwrap();
    assert_eq!(rows.len(), 1);
    assert_eq!(rows[0].arch, "all");
    assert_eq!(rows[0].repositories.len(), 2);

    let err = query::package_versions(&scan, &catalog, "no-such-pkg", filter_none()).unwrap_err();
    assert!(matches!(err, AptListsError::PackageNotFound(_)));
}

#[test]
fn selector_resolution_edge_cases() {
    let (_scan, catalog) = scan();

    assert!(catalog.resolve(&format!("{SECURITY}/")).is_ok());

    let r = catalog.resolve("ftp.us.debian.org").unwrap();
    assert_eq!(r.repository.uri, format!("{MIRROR}/"));

    let err = catalog
        .resolve("https://nonexistent.invalid/apt")
        .unwrap_err();
    match &err {
        AptListsError::RepoNotFound { selector, known } => {
            assert_eq!(selector, "https://nonexistent.invalid/apt");
            assert_eq!(known.len(), 4);
        }
        other => panic!("unexpected error: {other:?}"),
    }

    let err = catalog.resolve("deb.debian.org").unwrap_err();
    match &err {
        AptListsError::AmbiguousRepoSelector {
            selector,
            candidates,
        } => {
            assert_eq!(selector, "deb.debian.org");
            assert_eq!(
                candidates,
                &vec![
                    format!("{SECURITY}/"),
                    format!("{UPDATES}/"),
                    format!("{DEBIAN}/"),
                ]
            );
        }
        other => panic!("unexpected error: {other:?}"),
    }

    assert_eq!(
        catalog
            .resolve("deb.debian.org/debian-security")
            .unwrap()
            .repository
            .uri,
        format!("{SECURITY}/")
    );
}

#[test]
fn json_output_shapes() {
    let (scan, catalog) = scan();

    // --installed --repo X --json
    let sel = catalog.resolve(SECURITY).unwrap();
    let rows = query::installed(&scan, &catalog, RepoFilter::Selected(&sel), installed_all());
    let doc = json::for_repo(&sel.repository, &rows);
    assert_eq!(doc.repository.uri, format!("{SECURITY}/"));
    assert_eq!(doc.repository.site.as_deref(), Some("deb.debian.org"));
    assert_eq!(doc.packages.len(), 2);
    for p in &doc.packages {
        assert!(
            p.repositories.is_none(),
            "repo filtered rows must not repeat repositories"
        );
        assert!(p.installed, "installed flag is always present");
    }

    // --installed --json (no repo filter): repositories inline.
    let rows = query::installed(&scan, &catalog, filter_none(), installed_all());
    let doc = json::versions(&rows);
    assert_eq!(doc.packages.len(), 8);
    let foo = doc
        .packages
        .iter()
        .find(|p| p.name == "foo" && p.architecture == "amd64")
        .unwrap();
    let repos = foo.repositories.as_ref().unwrap();
    assert_eq!(repos.len(), 2);
    assert_eq!(repos[0].index_type, "Debian Package Index");
    assert!(foo.installed);

    // --all --json: versions that are not installed carry installed: false.
    let rows = query::all_versions(&scan, &catalog, filter_none());
    let doc = json::versions(&rows);
    let updonly = doc.packages.iter().find(|p| p.name == "updonly").unwrap();
    assert!(!updonly.installed);
    assert_eq!(
        updonly.repositories.as_ref().unwrap()[0].uri,
        format!("{UPDATES}/")
    );

    // --repos --json
    let doc = json::repos(&catalog, &scan.package_counts);
    assert_eq!(doc.repositories.len(), 4);
    let security = doc
        .repositories
        .iter()
        .find(|r| r.uri == format!("{SECURITY}/"))
        .unwrap();
    assert_eq!(security.suites.len(), 1);
    assert_eq!(security.suites[0].archive, "trixie-security");
    assert_eq!(security.suites[0].architectures, vec!["amd64"]);
}

// ---------------------------------------------------------------------------
// One invocation, end to end (without the terminal)
// ---------------------------------------------------------------------------

use apt_lists::cli::Args;
use apt_lists::report::{run, Output, Report};

fn invoke(args: &Args) -> Report {
    let (scan, catalog) = scan();
    run(args, &scan, &catalog)
}

fn text_of(report: Report) -> String {
    assert!(!report.warn_no_indexes);
    match report.outcome {
        Ok(Output::Text(s)) => s,
        other => panic!("expected a table, got: {other:?}"),
    }
}

#[test]
fn run_installed_repo_table_is_exact() {
    let args = Args {
        installed: true,
        repo: Some(SECURITY.to_string()),
        ..Args::default()
    };
    assert_eq!(
        text_of(invoke(&args)),
        "PACKAGE  VERSION        ARCH   REPOSITORY\n\
         libbaz   3.1-2+deb13u1  amd64  https://deb.debian.org/debian-security/\n\
         seconly  2.0            all    https://deb.debian.org/debian-security/\n"
    );
}

#[test]
fn run_installed_table_lists_every_provider() {
    let args = Args {
        installed: true,
        ..Args::default()
    };
    assert_eq!(
        text_of(invoke(&args)),
        "PACKAGE    VERSION        ARCH   REPOSITORY\n\
         debonly    1.0            all    https://deb.debian.org/debian/\n\
         foo        2.0-1          amd64  https://deb.debian.org/debian/,https://ftp.us.debian.org/debian/\n\
         foo        2.0-1          i386   https://deb.debian.org/debian/\n\
         libbaz     3.1-2+deb13u1  amd64  https://deb.debian.org/debian-security/\n\
         localonly  4.2            all    -\n\
         secman     1.0            all    https://deb.debian.org/debian/\n\
         seconly    2.0            all    https://deb.debian.org/debian-security/\n\
         shared     5.0            all    https://deb.debian.org/debian/,https://ftp.us.debian.org/debian/\n"
    );
}

#[test]
fn run_package_query_marks_installed_version() {
    let args = Args {
        packages: vec!["foo".to_string()],
        no_headers: true,
        ..Args::default()
    };
    assert_eq!(
        text_of(invoke(&args)),
        "foo  2.0-1+deb13u1  amd64  https://deb.debian.org/debian-updates/\n\
         foo  2.0-1          amd64  https://deb.debian.org/debian/,https://ftp.us.debian.org/debian/  [installed]\n\
         foo  2.0-1          i386   https://deb.debian.org/debian/  [installed]\n"
    );
}

#[test]
fn run_repos_table_has_one_row_per_suite() {
    let args = Args {
        repos: true,
        ..Args::default()
    };
    assert_eq!(
        text_of(invoke(&args)),
        "REPOSITORY                               SUITE            COMPONENTS  ARCHS       PACKAGES\n\
         https://deb.debian.org/debian-security/  trixie-security  main        amd64       2\n\
         https://deb.debian.org/debian-updates/   trixie-updates   main        amd64       2\n\
         https://deb.debian.org/debian/           trixie           main        amd64,i386  5\n\
         https://ftp.us.debian.org/debian/        trixie           main        amd64       3\n"
    );
}

#[test]
fn run_manual_installed_with_repo() {
    let args = Args {
        manual_installed: true,
        repo: Some(DEBIAN.to_string()),
        no_headers: true,
        ..Args::default()
    };
    let text = text_of(invoke(&args));
    assert!(text.contains("foo") && text.contains("secman"), "{text}");
    assert!(!text.contains("debonly") && !text.contains("shared"), "{text}");
}

#[test]
fn run_unknown_repository_is_an_error() {
    let args = Args {
        installed: true,
        repo: Some("https://nonexistent.invalid/apt".to_string()),
        ..Args::default()
    };
    let report = invoke(&args);
    assert!(!report.warn_no_indexes);
    let err = report.outcome.unwrap_err();
    let msg = err.message();
    assert!(msg.contains("was not found"), "{msg}");
    assert!(msg.contains(DEBIAN), "{msg}");
}

#[test]
fn run_ambiguous_repository_is_an_error() {
    let args = Args {
        installed: true,
        repo: Some("deb.debian.org".to_string()),
        ..Args::default()
    };
    let msg = invoke(&args).outcome.unwrap_err().message();
    assert!(msg.contains("ambiguous"), "{msg}");
    assert!(msg.contains(SECURITY) && msg.contains(DEBIAN), "{msg}");
}

#[test]
fn run_unknown_package_is_an_error() {
    let args = Args {
        packages: vec!["foo".to_string(), "no-such-pkg".to_string(), "also-missing".to_string()],
        ..Args::default()
    };
    match invoke(&args).outcome {
        Err(AptListsError::PackageNotFound(name)) => assert_eq!(name, "no-such-pkg"),
        other => panic!("unexpected outcome: {other:?}"),
    }
}

#[test]
fn run_existing_repository_without_matches_prints_nothing() {
    let args = Args {
        installed: true,
        repo: Some(UPDATES.to_string()),
        ..Args::default()
    };
    let report = invoke(&args);
    assert!(!report.warn_no_indexes);
    assert!(matches!(report.outcome, Ok(Output::Nothing)));
}

#[test]
fn run_json_shapes_follow_the_filter() {
    let args = Args {
        packages: vec!["foo".to_string(), "shared".to_string()],
        json: true,
        ..Args::default()
    };
    match invoke(&args).outcome {
        Ok(Output::Packages(doc)) => {
            assert_eq!(doc.packages.len(), 4);
            assert!(doc.packages.iter().all(|p| p.repositories.is_some()));
        }
        other => panic!("unexpected outcome: {other:?}"),
    }

    let args = Args {
        all: true,
        repo: Some(UPDATES.to_string()),
        json: true,
        ..Args::default()
    };
    match invoke(&args).outcome {
        Ok(Output::RepoPackages(doc)) => {
            assert_eq!(doc.repository.uri, format!("{UPDATES}/"));
            let names: Vec<&str> = doc.packages.iter().map(|p| p.name.as_str()).collect();
            assert_eq!(names, vec!["foo", "updonly"]);
            assert!(doc.packages.iter().all(|p| p.repositories.is_none()));
        }
        other => panic!("unexpected outcome: {other:?}"),
    }

    let args = Args {
        repos: true,
        json: true,
        ..Args::default()
    };
    match invoke(&args).outcome {
        Ok(Output::Repositories(doc)) => {
            let counts: Vec<Option<usize>> = doc
                .repositories
                .iter()
                .map(|r| r.suites[0].packages)
                .collect();
            assert_eq!(counts, vec![Some(2), Some(2), Some(5), Some(3)]);
        }
        other => panic!("unexpected outcome: {other:?}"),
    }
}

#[test]
fn run_without_indexes_warns_or_fails() {
    let scan = CacheScan::from_records(&vec![package(
        "localonly",
        "amd64",
        false,
        vec![version("4.2", "all", true, &[STATUS])],
    )]);
    let catalog = RepoCatalog::from_indexes(&scan.indexes);
    assert!(catalog.is_empty());

    let report = run(&Args::default(), &scan, &catalog);
    assert!(report.warn_no_indexes);
    assert!(matches!(report.outcome, Ok(Output::Text(_))));

    let args = Args {
        repos: true,
        ..Args::default()
    };
    let report = run(&args, &scan, &catalog);
    assert!(!report.warn_no_indexes);
    assert!(matches!(report.outcome, Err(AptListsError::NoPackageIndexes)));

    let args = Args {
        repo: Some(DEBIAN.to_string()),
        ..Args::default()
    };
    let report = run(&args, &scan, &catalog);
    assert!(matches!(report.outcome, Err(AptListsError::NoPackageIndexes)));
}

#[test]
fn cli_repos_and_installed_and_repo_filtering() {
    // --repos lists every repository URI.
    let args = Args {
        repos: true,
        ..Args::default()
    };
    let stdout = text_of(invoke(&args));
    for uri in [DEBIAN, MIRROR, UPDATES, SECURITY] {
        assert!(stdout.contains(uri), "missing {uri} in:\n{stdout}");
    }
    assert!(stdout.contains("ftp.us.debian.org"));

    // --installed --repo <security>: exact-version semantics; the table shape
    // is uniform (the REPOSITORY column is present even with a filter).
    let args = Args {
        installed: true,
        repo: Some(SECURITY.to_string()),
        ..Args::default()
    };
    let stdout = text_of(invoke(&args));
    assert_eq!(
        stdout,
        "PACKAGE  VERSION        ARCH   REPOSITORY\n\
         libbaz   3.1-2+deb13u1  amd64  https://deb.debian.org/debian-security/\n\
         seconly  2.0            all    https://deb.debian.org/debian-security/\n"
    );
    assert!(
        !stdout.contains("foo"),
        "the security pocket does not provide the installed foo:\n{stdout}"
    );

    // Hostname selector for the mirror.
    let args = Args {
        installed: true,
        repo: Some("ftp.us.debian.org".to_string()),
        ..Args::default()
    };
    let stdout = text_of(invoke(&args));
    assert!(stdout.contains("foo") && stdout.contains("shared"), "{stdout}");
    assert!(!stdout.contains("libbaz") && !stdout.contains("seconly"), "{stdout}");

    // Package query shows all versions with repositories.
    let args = Args {
        packages: vec!["foo".to_string()],
        ..Args::default()
    };
    let stdout = text_of(invoke(&args));
    assert!(stdout.contains("2.0-1") && stdout.contains("2.0-1+deb13u1"));
    assert!(stdout.contains("i386"));
    assert!(stdout.contains("[installed]"));

    // Single-package JSON uses the packages envelope with the installed flag
    // and the repositories of every row.
    let args = Args {
        packages: vec!["foo".to_string()],
        json: true,
        ..Args::default()
    };
    match invoke(&args).outcome {
        Ok(Output::Packages(doc)) => {
            assert_eq!(doc.packages.len(), 3);
            assert!(doc.packages.iter().all(|p| p.repositories.is_some()));
        }
        other => panic!("packages envelope expected, got: {other:?}"),
    }

    // Every JSON mode answers with a document.
    for args in [
        Args { repos: true, json: true, ..Args::default() },
        Args { installed: true, json: true, ..Args::default() },
        Args { installed: true, repo: Some(SECURITY.to_string()), json: true, ..Args::default() },
        Args { packages: vec!["foo".to_string(), "shared".to_string()], json: true, ..Args::default() },
    ] {
        let report = invoke(&args);
        assert!(
            matches!(
                report.outcome,
                Ok(Output::Repositories(_)) | Ok(Output::Packages(_)) | Ok(Output::RepoPackages(_))
            ),
            "args: {args:?}"
        );
    }
}
