use soar::error::SoarError;
use soar::checksum::{calculate_checksum, content_address, validate_checksum};
use soar::ledger::{InstalledPackage, InstalledPackages};
use soar::lifecycle::SystemModel;
use soar::package::Package;

const EMPTY_B3: &str = "af1349b9f5f9a1a6a0404dea36dcc9499bcb25c9adc112b7cc9a93cae41f3262";

fn row(repo: &str, id: &str, name: &str, size: u64, installed: bool) -> InstalledPackage {
    InstalledPackage {
        repo_name: repo.to_string(),
        pkg: name.to_string(),
        pkg_id: id.to_string(),
        pkg_name: name.to_string(),
        version: "1.0".to_string(),
        size,
        checksum: EMPTY_B3.to_string(),
        installed_path: format!("/pkgs/{}-{}", &EMPTY_B3[..8], name),
        bin_path: if installed { Some(format!("/bin/{}", name)) } else { None },
        installed_date: if installed { Some("2024-01-01 00:00:00".to_string()) } else { None },
        is_installed: installed,
        installed_with_family: false,
        icon_path: None,
        desktop_path: None,
        family: None,
    }
}

#[test]
fn blake3_digest_of_empty_input() {
    let digest = calculate_checksum(&Vec::new());
    assert_eq!(digest, EMPTY_B3);
    assert_eq!(digest.len(), 64);
}

#[test]
fn blake3_digest_depends_on_input() {
    let a = calculate_checksum(&b"hello".to_vec());
    let b = calculate_checksum(&b"world".to_vec());
    assert_ne!(a, b);
    assert_ne!(a, EMPTY_B3);
}

#[test]
fn checksum_validation() {
    assert!(validate_checksum(EMPTY_B3, &Vec::new()).is_ok());
    assert_eq!(
        validate_checksum("0000", &Vec::new()),
        Err(SoarError::ChecksumMismatch)
    );
}

#[test]
fn content_addressed_directory_name() {
    // the install directory is <packages>/<first8(blake3(binary))>-<full name>
    let mut p = pkg("hello");
    p.family = Some("apps".to_string());
    let dir = content_address("/data/packages", &p, &Vec::new());
    assert_eq!(dir, format!("/data/packages/{}-apps-hello", &EMPTY_B3[..8]));
}

fn pkg(name: &str) -> Package {
    Package {
        repo_name: "main".to_string(),
        pkg: name.to_string(),
        pkg_id: format!("id-{}", name),
        pkg_name: name.to_string(),
        description: String::new(),
        version: "1.0".to_string(),
        version_upstream: None,
        size: 0,
        ghcr_size: None,
        bsum: EMPTY_B3.to_string(),
        shasum: String::new(),
        download_url: String::new(),
        ghcr_blob: None,
        ghcr_pkg: None,
        pkg_type: "static".to_string(),
        pkg_webpage: None,
        icon: None,
        desktop: None,
        homepages: None,
        source_urls: None,
        licenses: None,
        maintainers: Vec::new(),
        notes: None,
        snapshots: None,
        build_id: None,
        build_date: None,
        build_action: None,
        build_log: None,
        build_script: None,
        rank: None,
        download_count_week: None,
        provides: None,
        family: None,
    }
}

#[test]
fn ledger_find_and_is_installed() {
    let mut l = InstalledPackages::new();
    l.register_package(row("main", "i1", "hello", 1, true));
    l.register_package(row("main", "i2", "other", 2, false));
    assert_eq!(l.find_package("main", "i1", "hello"), Some(0));
    assert_eq!(l.find_package("main", "i2", "other"), Some(1));
    assert_eq!(l.find_package("main", "i3", "none"), None);
    assert!(l.is_installed("main", "i1", "hello"));
    assert!(!l.is_installed("main", "i2", "other"));
    assert!(!l.is_installed("main", "i3", "none"));
}

#[test]
fn ledger_upsert_replaces_same_identity() {
    let mut l = InstalledPackages::new();
    l.register_package(row("main", "i1", "hello", 1, true));
    l.register_package(row("main", "i1", "hello", 9, true));
    assert_eq!(l.packages.len(), 1);
    assert_eq!(l.packages[0].size, 9);
}

#[test]
fn install_then_remove_restores_ledger() {
    // install followed by remove is the identity on the ledger
    let mut l = InstalledPackages::new();
    l.register_package(row("main", "keep", "keep", 5, true));
    let before: Vec<(String, String, String)> = l
        .packages
        .iter()
        .map(|r| (r.repo_name.clone(), r.pkg_id.clone(), r.pkg_name.clone()))
        .collect();
    l.stage_package(row("main", "new", "new", 1, false));
    l.record_package(
        "main",
        "new",
        "new",
        EMPTY_B3.to_string(),
        "/bin/new".to_string(),
        "2024-02-02 00:00:00".to_string(),
        false,
    );
    assert!(l.is_installed("main", "new", "new"));
    l.unregister_package("main", "new", "new");
    let after: Vec<(String, String, String)> = l
        .packages
        .iter()
        .map(|r| (r.repo_name.clone(), r.pkg_id.clone(), r.pkg_name.clone()))
        .collect();
    assert_eq!(before, after);
}

#[test]
fn reinstall_changes_only_the_timestamp() {
    // a second install with an identical catalog row is idempotent
    let mut l = InstalledPackages::new();
    l.stage_package(row("main", "i1", "hello", 1, false));
    l.record_package(
        "main",
        "i1",
        "hello",
        EMPTY_B3.to_string(),
        "/bin/hello".to_string(),
        "2024-01-01 00:00:00".to_string(),
        false,
    );
    let first = key_fields(&l.packages[0]);
    l.record_package(
        "main",
        "i1",
        "hello",
        EMPTY_B3.to_string(),
        "/bin/hello".to_string(),
        "2025-12-31 23:59:59".to_string(),
        false,
    );
    let second = key_fields(&l.packages[0]);
    assert_eq!(l.packages.len(), 1);
    assert_eq!(first.0, second.0);
    assert_ne!(first.1, second.1);
    assert_eq!(l.packages[0].installed_date, Some("2025-12-31 23:59:59".to_string()));
}

fn key_fields(r: &InstalledPackage) -> ((String, String, String, String, u64, bool), Option<String>) {
    (
        (
            r.repo_name.clone(),
            r.pkg_id.clone(),
            r.pkg_name.clone(),
            r.checksum.clone(),
            r.size,
            r.is_installed,
        ),
        r.installed_date.clone(),
    )
}

#[test]
fn accounting_splits_installed_and_broken() {
    // two active rows of 1 MiB and 3 MiB, one broken row of 2 MiB
    let mut l = InstalledPackages::new();
    l.register_package(row("main", "a", "a", 1024 * 1024, true));
    l.register_package(row("main", "b", "b", 3 * 1024 * 1024, true));
    l.register_package(row("main", "c", "c", 2 * 1024 * 1024, false));
    let acc = l.accounting();
    assert_eq!(acc.installed_count, 2);
    assert_eq!(acc.broken_count, 1);
    assert_eq!(soar::units::format_bytes(acc.installed_size), "4.00 MiB");
    assert_eq!(soar::units::format_bytes(acc.broken_size), "2.00 MiB");
    let total = acc.installed_size + acc.broken_size;
    assert_eq!(soar::units::format_bytes(total), "6.00 MiB");
    assert_eq!(acc.installed_count + acc.broken_count, 3);
}

#[test]
fn lifecycle_commit_backs_the_row() {
    let mut m = SystemModel::new();
    m.begin_install("/pkgs/aaaa-hello".to_string());
    m.install_commit(
        row_staged("main", "i1", "hello", "/pkgs/aaaa-hello"),
        EMPTY_B3.to_string(),
        "/bin/hello".to_string(),
        "2024-01-01 00:00:00".to_string(),
        false,
    );
    assert_eq!(m.ledger.packages.len(), 1);
    assert!(m.ledger.packages[0].is_installed);
    assert!(m.dirs.iter().any(|d| d == "/pkgs/aaaa-hello"));
    assert!(m.files.iter().any(|f| f == "/pkgs/aaaa-hello/hello"));
    assert!(m.links.iter().any(|(p, t)| p == "/bin/hello" && t == "/pkgs/aaaa-hello/hello"));
}

fn row_staged(repo: &str, id: &str, name: &str, dir: &str) -> InstalledPackage {
    InstalledPackage {
        repo_name: repo.to_string(),
        pkg: name.to_string(),
        pkg_id: id.to_string(),
        pkg_name: name.to_string(),
        version: "1.0".to_string(),
        size: 1,
        checksum: String::new(),
        installed_path: dir.to_string(),
        bin_path: None,
        installed_date: None,
        is_installed: false,
        installed_with_family: false,
        icon_path: None,
        desktop_path: None,
        family: None,
    }
}

#[test]
fn commit_with_clock_records_a_timestamp() {
    let mut m = SystemModel::new();
    m.begin_install("/pkgs/bbbb-clocked".to_string());
    m.install_commit_now(
        row_staged("main", "i9", "clocked", "/pkgs/bbbb-clocked"),
        EMPTY_B3.to_string(),
        "/bin/clocked".to_string(),
        false,
    );
    assert!(m.ledger.packages[0].is_installed);
    let date = m.ledger.packages[0].installed_date.clone().expect("dated");
    // `YYYY-MM-DD HH:MM:SS`
    assert_eq!(date.len(), 19);
    assert_eq!(&date[4..5], "-");
    assert_eq!(&date[13..14], ":");
}

#[test]
fn failed_update_keeps_previous_install_directory() {
    // update rollback never deletes the previous version's directory
    let mut m = SystemModel::new();
    m.begin_install("/pkgs/v1-hello".to_string());
    m.install_commit(
        row_staged("main", "i1", "hello", "/pkgs/v1-hello"),
        EMPTY_B3.to_string(),
        "/bin/hello".to_string(),
        "2024-01-01 00:00:00".to_string(),
        false,
    );
    // the update's download directory for the new version
    m.begin_install("/pkgs/v2-hello".to_string());
    // the download or digest check failed: clean up the partial directory
    m.install_fail("main", "i2", "hello-new", "/pkgs/v2-hello");
    assert!(m.dirs.iter().any(|d| d == "/pkgs/v1-hello"));
    assert!(!m.dirs.iter().any(|d| d == "/pkgs/v2-hello"));
    assert!(m.ledger.packages[0].is_installed);
}

#[test]
fn use_package_repoints_the_launcher() {
    let mut m = SystemModel::new();
    m.begin_install("/pkgs/aaaa-hello".to_string());
    m.install_commit(
        row_staged("main", "i1", "hello", "/pkgs/aaaa-hello"),
        EMPTY_B3.to_string(),
        "/bin/hello".to_string(),
        "2024-01-01 00:00:00".to_string(),
        false,
    );
    assert!(m.use_package("main", "i1", "hello").is_ok());
    assert!(m.links.iter().any(|(p, t)| p == "/bin/hello" && t == "/pkgs/aaaa-hello/hello"));
    assert!(m.use_package("main", "nope", "nope").is_err());
}

#[test]
fn remove_package_clears_everything() {
    let mut m = SystemModel::new();
    m.begin_install("/pkgs/aaaa-hello".to_string());
    m.install_commit(
        row_staged("main", "i1", "hello", "/pkgs/aaaa-hello"),
        EMPTY_B3.to_string(),
        "/bin/hello".to_string(),
        "2024-01-01 00:00:00".to_string(),
        false,
    );
    m.remove_package("main", "i1", "hello");
    assert_eq!(m.ledger.packages.len(), 0);
    assert!(!m.dirs.iter().any(|d| d == "/pkgs/aaaa-hello"));
    assert!(!m.files.iter().any(|f| f == "/pkgs/aaaa-hello/hello"));
    assert!(!m.links.iter().any(|(p, _)| p == "/bin/hello"));
}
