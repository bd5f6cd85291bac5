use backhand::{FilesystemWriter, NodeHeader};
use soar::bundle::{
    bundle_appstream_name, bundle_desktop_name, bundle_icon_name, find_squashfs_offset,
    is_bundle, select_bundle_entries, BundleEntry, BundleEntryKind,
};
use soar::error::SoarError;

const BUNDLE_SIG: [u8; 16] = [
    0x7f, 0x45, 0x4c, 0x46, 0x02, 0x01, 0x01, 0x00, 0x41, 0x49, 0x02, 0x00, 0x00, 0x00, 0x00,
    0x00,
];

const PNG_SIG: [u8; 8] = [0x89, 0x50, 0x4e, 0x47, 0x0d, 0x0a, 0x1a, 0x0a];

/// Builds a bundle: the loader signature followed by a squashfs image
/// holding the given top-level files and symlinks.
fn build_bundle(files: &[(&str, Vec<u8>)], symlinks: &[(&str, &str)]) -> Vec<u8> {
    let mut fs = FilesystemWriter::default();
    let header = NodeHeader::default();
    for (path, content) in files {
        fs.push_file(std::io::Cursor::new(content.clone()), path, header).unwrap();
    }
    for (path, target) in symlinks {
        fs.push_symlink(target, path, header).unwrap();
    }
    let mut image = std::io::Cursor::new(Vec::new());
    fs.write(&mut image).unwrap();
    let mut bundle = BUNDLE_SIG.to_vec();
    bundle.extend_from_slice(image.get_ref());
    bundle
}

/// Decodes the image's entry table with the decoder crate, as the shell
/// does, and converts it to the library's entries.
fn decode_entries(bundle: &Vec<u8>) -> (u64, Vec<BundleEntry>) {
    assert!(is_bundle(bundle));
    let off = find_squashfs_offset(bundle).expect("image magic found");
    let reader = std::io::BufReader::new(std::io::Cursor::new(&bundle[..]));
    let fs = squishy::SquashFS::new(reader, Some(off)).expect("image parses");
    let entries = fs
        .entries()
        .map(|e| BundleEntry {
            path: e.path.to_string_lossy().into_owned(),
            kind: match e.kind {
                squishy::EntryKind::File(_) => BundleEntryKind::File,
                squishy::EntryKind::Directory => BundleEntryKind::Directory,
                squishy::EntryKind::Symlink(t) => {
                    BundleEntryKind::Symlink(t.to_string_lossy().into_owned())
                }
                squishy::EntryKind::Unknown => BundleEntryKind::Other,
            },
        })
        .collect();
    (off, entries)
}

fn read_file(bundle: &Vec<u8>, off: u64, path: &str) -> Vec<u8> {
    let reader = std::io::BufReader::new(std::io::Cursor::new(&bundle[..]));
    let fs = squishy::SquashFS::new(reader, Some(off)).expect("image parses");
    fs.read_file(path).expect("file readable")
}

#[test]
fn bundle_resources_round_trip() {
    let mut icon = PNG_SIG.to_vec();
    icon.extend_from_slice(&[0u8; 16]);
    let desktop = b"[Desktop Entry]\nIcon=hello\nExec=hello\n".to_vec();
    let appstream = b"<component/>".to_vec();
    let bundle = build_bundle(
        &[
            ("/.DirIcon", icon.clone()),
            ("/hello.desktop", desktop.clone()),
            ("/hello.appdata.xml", appstream.clone()),
        ],
        &[],
    );
    let (off, entries) = decode_entries(&bundle);
    let sel = select_bundle_entries(&entries).expect("everything resolves");
    let icon_idx = sel.icon.expect("icon found");
    let icon_content = read_file(&bundle, off, &entries[icon_idx].path);
    assert_eq!(bundle_icon_name("hello", &icon_content), "hello.png");
    assert_eq!(icon_content, icon);
    let desktop_idx = sel.desktop.expect("desktop found");
    assert_eq!(read_file(&bundle, off, &entries[desktop_idx].path), desktop);
    assert_eq!(bundle_desktop_name("hello"), "hello.desktop");
    let (app_sel, app_idx) = sel.appstream.expect("appstream found");
    assert_eq!(read_file(&bundle, off, &entries[app_idx].path), appstream);
    assert_eq!(bundle_appstream_name("hello", &entries[app_sel].path), "hello.appdata.xml");
}

#[test]
fn bundle_svg_icon_via_symlink() {
    let svg = b"<svg xmlns='x'/>".to_vec();
    let bundle = build_bundle(
        &[("/real-icon.svg", svg.clone())],
        &[("/.DirIcon", "real-icon.svg")],
    );
    let (off, entries) = decode_entries(&bundle);
    let sel = select_bundle_entries(&entries).expect("the symlink resolves");
    let icon_idx = sel.icon.expect("icon resolved through the symlink");
    let content = read_file(&bundle, off, &entries[icon_idx].path);
    assert_eq!(bundle_icon_name("pkg", &content), "pkg.svg");
    assert_eq!(content, svg);
    assert!(sel.desktop.is_none());
}

#[test]
fn bundle_symlink_cycle_is_a_bad_bundle() {
    let bundle = build_bundle(
        &[],
        &[("/.DirIcon", "loop-b"), ("/loop-b", ".DirIcon")],
    );
    let (_, entries) = decode_entries(&bundle);
    match select_bundle_entries(&entries) {
        Err(e) => assert_eq!(e, SoarError::BadBundle),
        Ok(_) => panic!("a cyclic symlink must be rejected"),
    }
}

#[test]
fn non_bundle_bytes_are_rejected() {
    // plain bytes carry no loader signature
    assert!(!is_bundle(&b"not a bundle".to_vec()));
    // the signature alone, without an embedded image, has no image magic
    assert!(is_bundle(&BUNDLE_SIG.to_vec()));
    assert_eq!(find_squashfs_offset(&BUNDLE_SIG.to_vec()), None);
}
