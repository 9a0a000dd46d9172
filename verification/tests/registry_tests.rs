use gcm::registry::{
    File, PackageVersion, Registry, RootEntryClass, FetchOp, branch_display_name,
    collect_zip_versions, dedup_versions, directory_children, display_package_name, fetch_error,
    limit_versions, needs_arch_level, process_versions, sort_versions, timestamp_micros,
};
use gcm::semver::parse_version;
use gcm::Error;

fn file(path: &str) -> File {
    File {
        path: path.to_string(),
        last_modified_micros: 0,
    }
}

fn pv(s: &str) -> PackageVersion {
    PackageVersion {
        last_modified_micros: 0,
        version: parse_version(s).unwrap(),
    }
}

fn texts(vs: &[PackageVersion]) -> Vec<String> {
    vs.iter().map(|p| p.version.to_version_string()).collect()
}

#[test]
fn timestamp_combines_epoch_and_micros() {
    assert_eq!(timestamp_micros(5, 250000), 5_250_000);
    assert_eq!(timestamp_micros(0, 42), 42);
    assert_eq!(timestamp_micros(-2, 5), -1_999_995);
}

#[test]
fn listing_urls() {
    let r = Registry::default();
    assert_eq!(r.root_listing_url(), "https://get.greycat.io/files/");
    assert_eq!(
        r.package_listing_url("core"),
        "https://get.greycat.io/files/core/"
    );
    assert_eq!(
        r.branch_listing_url("core", "stable"),
        "https://get.greycat.io/files/core/stable/"
    );
    assert_eq!(
        r.entry_url("apps/explorer/"),
        "https://get.greycat.io/files/apps/explorer/"
    );
}

#[test]
fn classifies_root_entries() {
    let r = Registry::default();
    assert_eq!(r.classify("core/"), RootEntryClass::Known);
    assert_eq!(r.classify("lang/"), RootEntryClass::Known);
    assert_eq!(r.classify("deps/"), RootEntryClass::Excluded);
    assert_eq!(r.classify("apps/"), RootEntryClass::Namespace);
    assert_eq!(r.classify("readme.txt"), RootEntryClass::Other);
}

#[test]
fn root_listing_with_namespace_expansion() {
    let r = Registry::default();
    let root = vec![file("core/"), file("lang/"), file("deps/"), file("apps/")];
    let targets = r.expansion_targets(&root);
    assert_eq!(targets, vec!["apps/".to_string()]);
    let expansions = vec![vec![file("apps/explorer/")]];
    let packages = r.list_packages(root, expansions);
    let paths: Vec<String> = packages.into_iter().map(|f| f.path).collect();
    assert_eq!(
        paths,
        vec![
            "apps/explorer/".to_string(),
            "core/".to_string(),
            "lang/".to_string()
        ]
    );
}

#[test]
fn directory_children_keeps_only_directories() {
    let entries = vec![file("stable/"), file("latest"), file("testing/")];
    assert_eq!(
        directory_children(&entries),
        vec!["stable/".to_string(), "testing/".to_string()]
    );
}

#[test]
fn collects_zip_versions_and_skips_junk() {
    let entries = vec![
        file("core/stable/1.4/1.4.1.zip"),
        file("core/stable/1.4/readme.txt"),
        file("core/stable/1.4/not-a-version.zip"),
        file("core/stable/1.4/1.4.0.zip"),
    ];
    let mut versions = Vec::new();
    collect_zip_versions(&entries, &mut versions);
    assert_eq!(texts(&versions), vec!["1.4.1", "1.4.0"]);
}

#[test]
fn collect_takes_last_path_segment() {
    let entries = vec![file("2.0.5.zip")];
    let mut versions = Vec::new();
    collect_zip_versions(&entries, &mut versions);
    assert_eq!(texts(&versions), vec!["2.0.5"]);
}

#[test]
fn sort_is_ascending_by_precedence() {
    let sorted = sort_versions(vec![pv("1.4.2"), pv("1.4.0"), pv("1.4.2-rc1"), pv("1.4.1")]);
    assert_eq!(texts(&sorted), vec!["1.4.0", "1.4.1", "1.4.2-rc1", "1.4.2"]);
}

#[test]
fn dedup_removes_adjacent_duplicates() {
    let deduped = dedup_versions(vec![pv("1.4.0"), pv("1.4.0"), pv("1.4.1"), pv("1.4.1")]);
    assert_eq!(texts(&deduped), vec!["1.4.0", "1.4.1"]);
}

#[test]
fn dedup_twice_equals_dedup_once() {
    let make = || vec![pv("1.4.0"), pv("1.4.0"), pv("1.4.1"), pv("1.4.1"), pv("1.4.2")];
    let once = dedup_versions(make());
    let twice = dedup_versions(dedup_versions(make()));
    assert_eq!(texts(&once), texts(&twice));
    assert_eq!(texts(&once), vec!["1.4.0", "1.4.1", "1.4.2"]);
}

#[test]
fn build_metadata_duplicates_are_removed() {
    // The sort breaks precedence ties by build identifiers, so equal
    // versions are adjacent and every full duplicate is removed.
    let result = process_versions(vec![pv("1.0.0+b"), pv("1.0.0+a"), pv("1.0.0+b")], None);
    assert_eq!(texts(&result), vec!["1.0.0+a", "1.0.0+b"]);
}

#[test]
fn limit_keeps_the_highest_still_ascending() {
    let limited = limit_versions(vec![pv("1.4.0"), pv("1.4.1"), pv("1.4.2")], Some(2));
    assert_eq!(texts(&limited), vec!["1.4.1", "1.4.2"]);
}

#[test]
fn limit_at_least_length_changes_nothing() {
    let limited = limit_versions(vec![pv("1.4.0"), pv("1.4.1")], Some(5));
    assert_eq!(texts(&limited), vec!["1.4.0", "1.4.1"]);
    let unlimited = limit_versions(vec![pv("1.4.0"), pv("1.4.1")], None);
    assert_eq!(texts(&unlimited), vec!["1.4.0", "1.4.1"]);
}

#[test]
fn core_versions_deduped_across_architectures_and_limited() {
    // The `core` package nests one architecture level: the same archives
    // appear under every architecture directory.
    let arch_dirs = ["core/stable/x64-linux/", "core/stable/arm64-apple/"];
    let mut versions = Vec::new();
    for dir in arch_dirs {
        let entries = vec![
            file(&format!("{dir}1.4.0.zip")),
            file(&format!("{dir}1.4.1.zip")),
            file(&format!("{dir}1.4.2.zip")),
        ];
        collect_zip_versions(&entries, &mut versions);
    }
    assert_eq!(versions.len(), 6);
    let result = process_versions(versions, Some(2));
    assert_eq!(texts(&result), vec!["1.4.1", "1.4.2"]);
}

#[test]
fn core_needs_the_architecture_level() {
    assert!(needs_arch_level("core"));
    assert!(!needs_arch_level("lang"));
    assert!(!needs_arch_level("sdk/web"));
}

#[test]
fn display_names() {
    assert_eq!(display_package_name("core/"), "core");
    assert_eq!(display_package_name("apps/explorer/"), "apps/explorer");
    assert_eq!(display_package_name("plain"), "plain");
    assert_eq!(branch_display_name("core/stable/"), Some("stable".to_string()));
    assert_eq!(branch_display_name("stable/"), None);
    assert_eq!(branch_display_name(""), None);
}

#[test]
fn fetch_errors_follow_the_taxonomy() {
    assert_eq!(fetch_error(FetchOp::Root), Error::RegistryUnreachable);
    assert_eq!(fetch_error(FetchOp::Branches), Error::PackageNotFound);
    assert_eq!(fetch_error(FetchOp::Versions), Error::PackageNotFound);
    assert_eq!(fetch_error(FetchOp::Latest), Error::LatestNotFound);
    assert_eq!(fetch_error(FetchOp::Download), Error::DownloadFailed);
}
