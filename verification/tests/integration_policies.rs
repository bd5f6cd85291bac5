use soar::args::{check_portable_flags, splice_stdin_args};
use soar::bundle::{find_squashfs_offset, icon_extension, is_bundle, is_png};
use soar::config::{finalize_config, Config, RegistryLoader, Repository};
use soar::desktop::{
    create_default_desktop_entry, find_nearest_supported_dimension, rewrite_desktop_content,
};
use soar::error::SoarError;
use soar::links::{ensure_link_action, remove_broken_symlinks, remove_link_action};
use soar::links::{LinkAction, LinkState, RemoveAction, ScanEntry};
use soar::integrate::plan_integration;
use soar::package::{has_no_desktop_integration, Package};
use soar::portable::{setup_portable_dir, PortableAction};

#[test]
fn stdin_argument_splice() {
    // argv ["soar", "install", "-"] with stdin "a b\nc"
    let args = vec!["soar".to_string(), "install".to_string(), "-".to_string()];
    let out = splice_stdin_args(args, "a b\nc");
    assert_eq!(out, vec!["soar", "install", "a", "b", "c"]);
}

#[test]
fn stdin_splice_drops_later_dashes() {
    let args = vec!["x".to_string(), "-".to_string(), "y".to_string(), "-".to_string()];
    let out = splice_stdin_args(args, "t1 t2");
    assert_eq!(out, vec!["x", "t1", "t2", "y"]);
}

#[test]
fn portable_flags_conflict() {
    let some = Some("/p".to_string());
    let q = Some("/q".to_string());
    assert_eq!(check_portable_flags(&some, &q, &None), Err(SoarError::Config));
    assert_eq!(check_portable_flags(&some, &None, &q), Err(SoarError::Config));
    assert!(check_portable_flags(&some, &None, &None).is_ok());
    assert!(check_portable_flags(&None, &q, &q).is_ok());
}

#[test]
fn portable_plan_shapes() {
    // empty knob: a fresh sibling directory
    let plan = setup_portable_dir("/pkgs/a/bin", "hello", None, Some(String::new()), None);
    assert_eq!(plan.len(), 1);
    match &plan[0] {
        PortableAction::CreateDir(d) => assert_eq!(d, "/pkgs/a/bin.home"),
        _ => panic!("expected a directory creation"),
    }
    // a path: directory under it, symlinked next to the binary
    let plan2 = setup_portable_dir("/pkgs/a/bin", "hello", Some("/data".to_string()), None, None);
    assert_eq!(plan2.len(), 4);
    match &plan2[0] {
        PortableAction::CreateDir(d) => assert_eq!(d, "/data/hello.home"),
        _ => panic!("expected a directory creation"),
    }
    match &plan2[1] {
        PortableAction::LinkDir { target, link } => {
            assert_eq!(target, "/data/hello.home");
            assert_eq!(link, "/pkgs/a/bin.home");
        },
        _ => panic!("expected a symlink"),
    }
    match &plan2[3] {
        PortableAction::LinkDir { target, link } => {
            assert_eq!(target, "/data/hello.config");
            assert_eq!(link, "/pkgs/a/bin.config");
        },
        _ => panic!("expected a symlink"),
    }
}

#[test]
fn container_variant_wires_config_only() {
    // the home knob has no effect for a container-style image
    let plan = soar::portable::setup_portable_dir_container(
        "/pkgs/a/bin",
        "hello",
        Some("/data".to_string()),
    );
    assert_eq!(plan.len(), 2);
    match &plan[0] {
        PortableAction::CreateDir(d) => assert_eq!(d, "/data/hello.config"),
        _ => panic!("expected a directory creation"),
    }
    match &plan[1] {
        PortableAction::LinkDir { target, link } => {
            assert_eq!(target, "/data/hello.config");
            assert_eq!(link, "/pkgs/a/bin.config");
        },
        _ => panic!("expected a symlink"),
    }
    let none = soar::portable::setup_portable_dir_container("/pkgs/a/bin", "hello", None);
    assert_eq!(none.len(), 0);
}

fn state(exists: bool, symlink: bool, managed: Option<&str>, target: Option<&str>) -> LinkState {
    LinkState {
        exists,
        is_symlink: symlink,
        managed_by: managed.map(|m| m.to_string()),
        target: target.map(|t| t.to_string()),
    }
}

#[test]
fn link_policy_creates_with_marker() {
    match ensure_link_action(&state(false, false, None, None), "/pkgs") {
        LinkAction::Create(m) => assert_eq!(m, "soar"),
        _ => panic!("expected a creation"),
    }
}

#[test]
fn link_policy_replaces_owned() {
    match ensure_link_action(&state(true, true, Some("soar"), None), "/pkgs") {
        LinkAction::ReplaceThenCreate(m) => assert_eq!(m, "soar"),
        _ => panic!("expected a replacement"),
    }
    match ensure_link_action(&state(true, true, None, Some("/pkgs/x/bin")), "/pkgs") {
        LinkAction::ReplaceThenCreate(_) => {},
        _ => panic!("expected a replacement"),
    }
}

#[test]
fn link_policy_refuses_foreign_entries() {
    // a pre-existing regular file without the marker is never touched
    assert!(matches!(
        ensure_link_action(&state(true, false, None, None), "/pkgs"),
        LinkAction::RefuseNotOurs
    ));
    assert!(matches!(
        ensure_link_action(&state(true, true, Some("other"), Some("/elsewhere")), "/pkgs"),
        LinkAction::RefuseNotOurs
    ));
    assert!(matches!(
        remove_link_action(&state(true, false, None, None), "/pkgs"),
        RemoveAction::RefuseNotOurs
    ));
    assert!(matches!(
        remove_link_action(&state(false, false, None, None), "/pkgs"),
        RemoveAction::Skip
    ));
    assert!(matches!(
        remove_link_action(&state(true, true, Some("soar"), None), "/pkgs"),
        RemoveAction::Remove
    ));
}

#[test]
fn broken_symlink_cleanup_plan() {
    let entries = vec![
        ScanEntry { path: "/data/applications/a-soar.desktop".to_string(), is_file: false, is_dir: false },
        ScanEntry { path: "/data/applications/keep.desktop".to_string(), is_file: true, is_dir: false },
        ScanEntry { path: "/data/applications/other.desktop".to_string(), is_file: false, is_dir: false },
    ];
    let doomed = remove_broken_symlinks(entries, Some(&"-soar".to_string()));
    assert_eq!(doomed, vec!["/data/applications/a-soar.desktop"]);
    let all = vec![
        ScanEntry { path: "/bin/x".to_string(), is_file: false, is_dir: false },
        ScanEntry { path: "/bin/y".to_string(), is_file: true, is_dir: false },
    ];
    let doomed2 = remove_broken_symlinks(all, None);
    assert_eq!(doomed2, vec!["/bin/x"]);
}

#[test]
fn icon_dimension_selection() {
    // a 99 x 99 icon normalizes to 96 x 96
    assert_eq!(find_nearest_supported_dimension(99, 99), (96, 96));
    assert_eq!(find_nearest_supported_dimension(128, 128), (128, 128));
    assert_eq!(find_nearest_supported_dimension(1000, 1000), (512, 512));
    // an exact tie goes to the smaller dimension
    assert_eq!(find_nearest_supported_dimension(20, 20), (16, 16));
}

#[test]
fn icon_placement_rules() {
    // an SVG is never resized and lands under the canonical directory
    assert_eq!(soar::desktop::icon_placement(true, 37, 41), ((128, 128), false));
    // a raster icon goes to the nearest dimension, resized when it differs
    assert_eq!(soar::desktop::icon_placement(false, 99, 99), ((96, 96), true));
    assert_eq!(soar::desktop::icon_placement(false, 128, 128), ((128, 128), false));
}

#[test]
fn integration_symlink_paths() {
    // a 99 x 99 PNG icon lands under the 96 x 96 hicolor directory
    let (w, h) = find_nearest_supported_dimension(99, 99);
    let icon = soar::desktop::icon_link_path("/home/u/.local/share", w, h, "hello", "png");
    assert_eq!(icon, "/home/u/.local/share/icons/hicolor/96x96/apps/hello-soar.png");
    let desktop = soar::desktop::desktop_link_path("/home/u/.local/share", "hello");
    assert_eq!(desktop, "/home/u/.local/share/applications/hello-soar.desktop");
}

fn bundle_res(
    icon: Option<(&str, Vec<u8>)>,
    desktop: Option<(&str, Vec<u8>)>,
) -> soar::bundle::BundleResources {
    soar::bundle::BundleResources {
        icon: icon.map(|(n, c)| (n.to_string(), c)),
        desktop: desktop.map(|(n, c)| (n.to_string(), c)),
        appstream: None,
    }
}

#[test]
fn remote_resources_are_preferred() {
    let png = vec![0x89, 0x50, 0x4e, 0x47, 0x0d, 0x0a, 0x1a, 0x0a, 1];
    let bundle = bundle_res(Some(("hello.svg", b"<svg/>".to_vec())), Some(("hello.desktop", Vec::new())));
    let icon_url = "https://example.invalid/i.png".to_string();
    let desktop_url = "https://example.invalid/d.desktop".to_string();
    let plan = plan_integration("hello", Some(&icon_url), Some(&desktop_url), &bundle, Some(&png));
    assert!(plan.icon_remote);
    assert_eq!(plan.icon_name, Some("hello.png".to_string()));
    assert!(plan.desktop_remote);
    assert_eq!(plan.desktop_name, "hello.desktop");
    assert_eq!(plan.synthesized_desktop, None);
}

#[test]
fn bundle_resources_used_without_urls() {
    let bundle = bundle_res(Some(("hello.svg", b"<svg/>".to_vec())), Some(("hello.desktop", Vec::new())));
    let plan = plan_integration("hello", None, None, &bundle, None);
    assert!(!plan.icon_remote);
    assert_eq!(plan.icon_name, Some("hello.svg".to_string()));
    assert!(!plan.desktop_remote);
    assert_eq!(plan.synthesized_desktop, None);
}

#[test]
fn missing_desktop_entry_is_synthesized() {
    let bundle = bundle_res(None, None);
    let plan = plan_integration("hello", None, None, &bundle, None);
    assert_eq!(plan.icon_name, None);
    assert_eq!(
        plan.synthesized_desktop,
        Some(
            "[Desktop Entry]\nType=Application\nName=hello\nIcon=hello\nExec=hello\nCategories=Utility;\n"
                .to_string()
        )
    );
}

#[test]
fn failed_remote_icon_fetch_integrates_no_icon() {
    let bundle = bundle_res(Some(("hello.png", Vec::new())), None);
    let icon_url = "https://example.invalid/i".to_string();
    let plan = plan_integration("hello", Some(&icon_url), None, &bundle, None);
    assert!(plan.icon_remote);
    assert_eq!(plan.icon_name, None);
}

#[test]
fn desktop_rewrite() {
    let content = "# comment\nIcon=hello\nExec=hello\nTryExec=hello\nName=Hello\n";
    let out = rewrite_desktop_content(content, "hello", "/root/bin");
    assert_eq!(
        out,
        "Icon=hello-soar\nExec=/root/bin/hello\nTryExec=/root/bin/hello\nName=Hello\n"
    );
}

#[test]
fn desktop_rewrite_preserves_order_and_other_lines() {
    let content = "Name=A\nIcon=a\nComment=stay";
    let out = rewrite_desktop_content(content, "a", "/b");
    assert_eq!(out, "Name=A\nIcon=a-soar\nComment=stay");
}

#[test]
fn default_desktop_entry_content() {
    let e = create_default_desktop_entry("hello", "Utility");
    assert_eq!(
        e,
        "[Desktop Entry]\nType=Application\nName=hello\nIcon=hello\nExec=hello\nCategories=Utility;\n"
    );
}

#[test]
fn bundle_signature_recognition() {
    let mut data = vec![
        0x7f, 0x45, 0x4c, 0x46, 0x02, 0x01, 0x01, 0x00, 0x41, 0x49, 0x02, 0x00, 0x00, 0x00,
        0x00, 0x00,
    ];
    data.extend_from_slice(b"payload");
    assert!(is_bundle(&data));
    let other = vec![0u8; 20];
    assert!(!is_bundle(&other));
    assert!(!is_bundle(&vec![0x7f, 0x45]));
}

#[test]
fn png_classification() {
    let png = vec![0x89, 0x50, 0x4e, 0x47, 0x0d, 0x0a, 0x1a, 0x0a, 1, 2, 3];
    assert!(is_png(&png));
    assert_eq!(icon_extension(&png), "png");
    let svg = b"<svg></svg>".to_vec();
    assert!(!is_png(&svg));
    assert_eq!(icon_extension(&svg), "svg");
}

#[test]
fn squashfs_offset_scan_is_stride_aligned() {
    let mut data = vec![0u8; 8];
    data.extend_from_slice(b"hsqs");
    data.extend_from_slice(&[0u8; 4]);
    assert_eq!(find_squashfs_offset(&data), Some(8));
    // the magic off the 4-byte stride is not seen
    let mut off_stride = vec![0u8; 6];
    off_stride.extend_from_slice(b"hsqs");
    off_stride.extend_from_slice(&[0u8; 6]);
    assert_eq!(find_squashfs_offset(&off_stride), None);
    assert_eq!(find_squashfs_offset(&vec![0u8; 3]), None);
}

#[test]
fn desktop_integration_opt_out() {
    assert!(has_no_desktop_integration("static", None));
    assert!(has_no_desktop_integration("dynamic", None));
    let notes = vec!["NO_DESKTOP_INTEGRATION".to_string()];
    assert!(has_no_desktop_integration("appimage", Some(&notes)));
    let other = vec!["something".to_string()];
    assert!(!has_no_desktop_integration("appimage", Some(&other)));
    assert!(!has_no_desktop_integration("appimage", None));
}

#[test]
fn full_name_and_install_dir() {
    let p = Package {
        repo_name: "r".to_string(),
        pkg: "hello".to_string(),
        pkg_id: "i".to_string(),
        pkg_name: "hello".to_string(),
        description: String::new(),
        version: "1".to_string(),
        version_upstream: None,
        size: 0,
        ghcr_size: None,
        bsum: String::new(),
        shasum: String::new(),
        download_url: String::new(),
        ghcr_blob: None,
        ghcr_pkg: None,
        pkg_type: String::new(),
        pkg_webpage: None,
        icon: None,
        desktop: None,
        homepages: None,
        source_urls: None,
        licenses: None,
        maintainers: Vec::new(),
        notes: None,
        snapshots: None,
        build_id: None,
        build_date: None,
        build_action: None,
        build_log: None,
        build_script: None,
        rank: None,
        download_count_week: None,
        provides: None,
        family: Some("apps".to_string()),
    };
    assert_eq!(p.full_name('-'), "apps-hello");
    assert_eq!(p.get_install_dir("/pkgs", "0123456789abcdef"), "/pkgs/01234567-apps-hello");
    assert_eq!(
        p.get_install_path("/pkgs", "0123456789abcdef"),
        "/pkgs/01234567-apps-hello/hello"
    );
}

fn repo(name: &str) -> Repository {
    Repository {
        name: name.to_string(),
        url: format!("https://example.invalid/{}", name),
        metadata: None,
        sources: Vec::new(),
    }
}

#[test]
fn config_merging_and_duplicates() {
    let base = Config {
        soar_root: "/root-from-file".to_string(),
        soar_bin: None,
        soar_cache: Some("/cache-from-file".to_string()),
        repositories: vec![repo("a"), repo("b")],
        parallel: Some(true),
        parallel_limit: Some(4),
        search_limit: Some(20),
    };
    let c = finalize_config(base, Some("/env-root".to_string()), None, None).unwrap();
    assert_eq!(c.soar_root, "/env-root");
    assert_eq!(c.soar_bin, Some("/env-root/bin".to_string()));
    assert_eq!(c.soar_cache, Some("/cache-from-file".to_string()));
    assert_eq!(c.get_db_path(), "/env-root/db");
    assert_eq!(c.get_packages_path(), "/env-root/packages");
}

#[test]
fn duplicate_repositories_are_fatal() {
    let base = Config {
        soar_root: "/r".to_string(),
        soar_bin: None,
        soar_cache: None,
        repositories: vec![repo("a"), repo("b"), repo("a")],
        parallel: None,
        parallel_limit: None,
        search_limit: None,
    };
    assert!(matches!(
        finalize_config(base, None, None, None),
        Err(SoarError::Config)
    ));
}

#[test]
fn registry_refetch_decision() {
    let loader = RegistryLoader::new();
    let remote = Some(b"abc".to_vec());
    assert!(!loader.needs_refetch(&remote, &b"abc".to_vec()));
    assert!(loader.needs_refetch(&remote, &b"old".to_vec()));
    assert!(!loader.needs_refetch(&None, &b"old".to_vec()));
    let r = repo("pkgforge");
    assert_eq!(r.get_path("/root/repositories"), "/root/repositories/pkgforge");
}

#[test]
fn error_messages_name_the_failure() {
    assert_eq!(SoarError::NotOurs.message(), "entry is not managed by soar");
    assert_eq!(SoarError::ChecksumMismatch.message(), "checksum mismatch");
    assert_eq!(SoarError::NotFound.message(), "package not found");
    assert_eq!(SoarError::BadBundle.message(), "malformed bundle");
    assert_eq!(SoarError::Ambiguous.message(), "query matched multiple packages");
    assert_eq!(SoarError::Config.message(), "invalid configuration");
    assert_eq!(SoarError::IOFailed.message(), "input/output failure");
    assert_eq!(SoarError::LedgerCorrupt.message(), "install ledger is corrupt");
}
