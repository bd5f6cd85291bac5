//! The bundle inspector: reading icons, desktop entries and appstream
//! metadata out of a single-file application bundle without unpacking it.
//!
//! A bundle is a self-extracting loader followed by a read-only
//! compressed filesystem image.  The signature and the image offset are
//! recognized here on the raw bytes.  The image itself is decoded by the
//! shell outside this library — the decoder crate can panic on crafted
//! images, so no trusted contract may admit its call — and every
//! decision over the decoded entry table is verified here.

use vstd::prelude::*;

use crate::error::SoarError;
use crate::units::ends_with;

verus! {

/// The 16-byte ELF + AppImage signature a bundle starts with.
pub open spec fn bundle_sig() -> Seq<u8> {
    seq![
        0x7fu8,
        0x45u8,
        0x4cu8,
        0x46u8,
        0x02u8,
        0x01u8,
        0x01u8,
        0x00u8,
        0x41u8,
        0x49u8,
        0x02u8,
        0x00u8,
        0x00u8,
        0x00u8,
        0x00u8,
        0x00u8,
    ]
}

/// The 8-byte PNG signature.
pub open spec fn png_sig() -> Seq<u8> {
    seq![0x89u8, 0x50u8, 0x4eu8, 0x47u8, 0x0du8, 0x0au8, 0x1au8, 0x0au8]
}

/// The little-endian squashfs v4.0 magic.
pub open spec fn sqfs_magic() -> Seq<u8> {
    seq![0x68u8, 0x73u8, 0x71u8, 0x73u8]
}

fn sig_byte(i: usize) -> (r: u8)
    requires
        i < 16,
    ensures
        r == bundle_sig()[i as int],
{
    if i == 0 {
        0x7f
    } else if i == 1 {
        0x45
    } else if i == 2 {
        0x4c
    } else if i == 3 {
        0x46
    } else if i == 4 {
        0x02
    } else if i == 5 {
        0x01
    } else if i == 6 {
        0x01
    } else if i == 7 {
        0x00
    } else if i == 8 {
        0x41
    } else if i == 9 {
        0x49
    } else if i == 10 {
        0x02
    } else {
        0x00
    }
}

fn png_byte(i: usize) -> (r: u8)
    requires
        i < 8,
    ensures
        r == png_sig()[i as int],
{
    if i == 0 {
        0x89
    } else if i == 1 {
        0x50
    } else if i == 2 {
        0x4e
    } else if i == 3 {
        0x47
    } else if i == 4 {
        0x0d
    } else if i == 5 {
        0x0a
    } else if i == 6 {
        0x1a
    } else {
        0x0a
    }
}

/// Whether the first bytes of `data` carry the bundle signature.
pub fn is_bundle(data: &Vec<u8>) -> (r: bool)
    ensures
        r == (data@.len() >= 16 && data@.subrange(0, 16) == bundle_sig()),
{
    if data.len() < 16 {
        return false;
    }
    let mut i: usize = 0;
    while i < 16
        invariant
            i <= 16 <= data@.len(),
            forall|j: int| 0 <= j < i ==> data@[j] == bundle_sig()[j],
        decreases 16 - i,
    {
        if data[i] != sig_byte(i) {
            proof {
                assert(data@.subrange(0, 16)[i as int] == data@[i as int]);
            }
            return false;
        }
        i += 1;
    }
    proof {
        assert(data@.subrange(0, 16) =~= bundle_sig());
    }
    true
}

/// Whether the first bytes of `data` carry the PNG signature.
pub fn is_png(data: &Vec<u8>) -> (r: bool)
    ensures
        r == (data@.len() >= 8 && data@.subrange(0, 8) == png_sig()),
{
    if data.len() < 8 {
        return false;
    }
    let mut i: usize = 0;
    while i < 8
        invariant
            i <= 8 <= data@.len(),
            forall|j: int| 0 <= j < i ==> data@[j] == png_sig()[j],
        decreases 8 - i,
    {
        if data[i] != png_byte(i) {
            proof {
                assert(data@.subrange(0, 8)[i as int] == data@[i as int]);
            }
            return false;
        }
        i += 1;
    }
    proof {
        assert(data@.subrange(0, 8) =~= png_sig());
    }
    true
}

/// The icon file extension for the given content: `png` for a PNG
/// payload, else `svg`.
pub open spec fn icon_ext_spec(content: Seq<u8>) -> Seq<char> {
    if content.len() >= 8 && content.subrange(0, 8) == png_sig() {
        "png"@
    } else {
        "svg"@
    }
}

/// Classifies an extracted icon by its magic bytes.
pub fn icon_extension(content: &Vec<u8>) -> (r: &'static str)
    ensures
        r@ == icon_ext_spec(content@),
{
    if is_png(content) {
        "png"
    } else {
        "svg"
    }
}

/// The squashfs image offset found by scanning `data` in 4-byte strides
/// from position `k`: the first stride holding the magic.
pub open spec fn sqfs_scan(data: Seq<u8>, k: int) -> Option<int>
    decreases data.len() - k,
{
    if k < 0 || k + 4 > data.len() {
        None
    } else if data.subrange(k, k + 4) == sqfs_magic() {
        Some(k)
    } else {
        sqfs_scan(data, k + 4)
    }
}

/// Locates the embedded filesystem image: the byte offset of the first
/// 4-byte stride holding the squashfs magic.
pub fn find_squashfs_offset(data: &Vec<u8>) -> (r: Option<u64>)
    ensures
        match r {
            Some(o) => sqfs_scan(data@, 0) == Some(o as int),
            None => sqfs_scan(data@, 0) is None,
        },
{
    let mut k: usize = 0;
    while k <= data.len() && data.len() - k >= 4
        invariant
            k <= data@.len() + 4,
            k % 4 == 0,
            sqfs_scan(data@, 0) == sqfs_scan(data@, k as int),
        decreases data@.len() - k,
    {
        if data[k] == 0x68 && data[k + 1] == 0x73 && data[k + 2] == 0x71 && data[k + 3]
            == 0x73 {
            proof {
                assert(data@.subrange(k as int, k + 4) =~= sqfs_magic());
            }
            return Some(k as u64);
        }
        proof {
            let sub = data@.subrange(k as int, k + 4);
            if sub == sqfs_magic() {
                assert(sub[0] == data@[k as int] && sub[1] == data@[k + 1] && sub[2] == data@[k
                    + 2] && sub[3] == data@[k + 3]);
            }
        }
        k += 4;
    }
    None
}

/// One entry of a bundle's embedded filesystem.
pub struct BundleEntry {
    /// The entry's absolute path inside the image.
    pub path: String,
    /// What the entry is.
    pub kind: BundleEntryKind,
}

/// The kind of a filesystem entry.
pub enum BundleEntryKind {
    File,
    Directory,
    Symlink(String),
    Other,
}

/// Whether a path is a top-level entry: absolute, with no further `/`.
pub open spec fn top_level(p: Seq<char>) -> bool {
    p.len() >= 1 && p[0] == '/' && forall|i: int| 1 <= i < p.len() ==> p[i] != '/'
}

/// Whether an entry is selected as the bundle's icon: a top-level
/// `.DirIcon`.
pub open spec fn is_icon_entry(e: &BundleEntry) -> bool {
    top_level(e.path@) && ends_with(e.path@, ".DirIcon"@)
}

/// Whether an entry is selected as the bundle's desktop file: a
/// top-level `.desktop` entry.
pub open spec fn is_desktop_entry(e: &BundleEntry) -> bool {
    top_level(e.path@) && ends_with(e.path@, ".desktop"@)
}

/// Whether an entry is appstream metadata: a top-level name holding
/// `appdata` or `metainfo`.
pub open spec fn is_appstream_entry(e: &BundleEntry) -> bool {
    top_level(e.path@) && (crate::links::has_substring(e.path@, "appdata"@)
        || crate::links::has_substring(e.path@, "metainfo"@))
}

/// The first index of an icon entry, or the length.
pub open spec fn first_icon(s: Seq<BundleEntry>) -> int
    decreases s.len(),
{
    if s.len() == 0 {
        0
    } else if is_icon_entry(&s[0]) {
        0
    } else {
        1 + first_icon(s.skip(1))
    }
}

/// The first index of a desktop entry, or the length.
pub open spec fn first_desktop(s: Seq<BundleEntry>) -> int
    decreases s.len(),
{
    if s.len() == 0 {
        0
    } else if is_desktop_entry(&s[0]) {
        0
    } else {
        1 + first_desktop(s.skip(1))
    }
}

/// The first index of an appstream entry, or the length.
pub open spec fn first_appstream(s: Seq<BundleEntry>) -> int
    decreases s.len(),
{
    if s.len() == 0 {
        0
    } else if is_appstream_entry(&s[0]) {
        0
    } else {
        1 + first_appstream(s.skip(1))
    }
}

/// The first index whose entry has path `p`, or the length.
pub open spec fn first_path(s: Seq<BundleEntry>, p: Seq<char>) -> int
    decreases s.len(),
{
    if s.len() == 0 {
        0
    } else if s[0].path@ == p {
        0
    } else {
        1 + first_path(s.skip(1), p)
    }
}

/// Whether `p` is among the visited targets.
pub open spec fn visited_has(v: Seq<String>, p: Seq<char>) -> bool {
    exists|i: int| 0 <= i < v.len() && (#[trigger] v[i])@ == p
}

/// Symlink resolution with a cycle guard: follows symlink targets by
/// path until a regular file is reached; a revisited target, a missing
/// target, a non-file endpoint or exhausted fuel is a bad bundle.
pub open spec fn resolve_spec(
    entries: Seq<BundleEntry>,
    idx: int,
    visited: Seq<String>,
    fuel: nat,
) -> Result<int, SoarError>
    decreases fuel,
{
    if idx < 0 || idx >= entries.len() {
        Err(SoarError::BadBundle)
    } else {
        match entries[idx].kind {
            BundleEntryKind::File => Ok(idx),
            BundleEntryKind::Symlink(t) => if fuel == 0 {
                Err(SoarError::BadBundle)
            } else if visited_has(visited, t@) {
                Err(SoarError::BadBundle)
            } else {
                let j = first_path(entries, t@);
                if j < entries.len() {
                    resolve_spec(entries, j, visited.push(t), (fuel - 1) as nat)
                } else {
                    Err(SoarError::BadBundle)
                }
            },
            _ => Err(SoarError::BadBundle),
        }
    }
}

proof fn lemma_first_path_at(s: Seq<BundleEntry>, p: Seq<char>, j: int)
    requires
        0 <= j <= s.len(),
        forall|m: int| 0 <= m < j ==> (#[trigger] s[m]).path@ != p,
        j == s.len() || s[j].path@ == p,
    ensures
        first_path(s, p) == j,
    decreases j,
{
    if s.len() > 0 {
        if j == 0 {
        } else {
            let t = s.skip(1);
            assert(forall|m: int| 0 <= m < t.len() ==> #[trigger] t[m] == s[m + 1]);
            lemma_first_path_at(t, p, j - 1);
        }
    }
}

fn find_path(entries: &Vec<BundleEntry>, p: &String) -> (r: usize)
    ensures
        r == first_path(entries@, p@),
        r <= entries@.len(),
        r < entries@.len() ==> entries@[r as int].path@ == p@,
{
    let mut i: usize = 0;
    while i < entries.len()
        invariant
            i <= entries@.len(),
            forall|m: int| 0 <= m < i ==> (#[trigger] entries@[m]).path@ != p@,
        decreases entries@.len() - i,
    {
        if entries[i].path.eq(p) {
            proof {
                lemma_first_path_at(entries@, p@, i as int);
            }
            return i;
        }
        i += 1;
    }
    proof {
        lemma_first_path_at(entries@, p@, entries@.len() as int);
    }
    entries.len()
}

fn resolve_exec(entries: &Vec<BundleEntry>, idx: usize, visited: Vec<String>, fuel: usize) -> (
    r: Result<usize, SoarError>)
    ensures
        match r {
            Ok(j) => j < entries@.len() && resolve_spec(entries@, idx as int, visited@,
            fuel as nat) == Ok::<int, SoarError>(j as int),
            Err(e) => e == SoarError::BadBundle && resolve_spec(
                entries@,
                idx as int,
                visited@,
                fuel as nat,
            ) == Err::<int, SoarError>(e),
        },
    decreases fuel,
{
    if idx >= entries.len() {
        return Err(SoarError::BadBundle);
    }
    match &entries[idx].kind {
        BundleEntryKind::File => Ok(idx),
        BundleEntryKind::Symlink(t) => {
            if fuel == 0 {
                return Err(SoarError::BadBundle);
            }
            let mut seen = false;
            let mut m: usize = 0;
            while m < visited.len()
                invariant
                    m <= visited@.len(),
                    seen ==> visited_has(visited@, t@),
                    !seen ==> forall|q: int| 0 <= q < m ==> (#[trigger] visited@[q])@ != t@,
                decreases visited@.len() - m,
            {
                if visited[m].eq(t) {
                    seen = true;
                    proof {
                        assert(visited_has(visited@, t@)) by {
                            assert((visited@[m as int])@ == t@);
                        }
                    }
                    m = visited.len();
                } else {
                    m += 1;
                }
            }
            if seen {
                return Err(SoarError::BadBundle);
            }
            let j = find_path(entries, t);
            if j < entries.len() {
                let mut visited = visited;
                visited.push(t.clone());
                resolve_exec(entries, j, visited, fuel - 1)
            } else {
                Err(SoarError::BadBundle)
            }
        },
        _ => Err(SoarError::BadBundle),
    }
}

/// The resources of a bundle as the shell assembled them, each with the
/// file name it takes in the install directory and its content.
pub struct BundleResources {
    /// `<pkg_name>.png` or `<pkg_name>.svg`, by the content's magic.
    pub icon: Option<(String, Vec<u8>)>,
    /// `<pkg_name>.desktop`.
    pub desktop: Option<(String, Vec<u8>)>,
    /// `<pkg_name>.appdata.xml` or `<pkg_name>.metainfo.xml`.
    pub appstream: Option<(String, Vec<u8>)>,
}

/// Whether the entry selected at `sel` — when one was selected at all —
/// resolves through its symlinks to a regular file.
pub open spec fn selected_resolves(entries: Seq<BundleEntry>, sel: int) -> bool {
    sel < entries.len() ==> resolve_spec(
        entries,
        sel,
        Seq::empty(),
        (entries.len() + 1) as nat,
    ) is Ok
}

/// The entries chosen out of a bundle's table, after symlink resolution.
pub struct BundleSelection {
    /// The resolved entry holding the icon's bytes.
    pub icon: Option<usize>,
    /// The resolved entry holding the desktop entry's bytes.
    pub desktop: Option<usize>,
    /// The selected appstream entry (whose name decides the output
    /// name) and the resolved entry holding its bytes.
    pub appstream: Option<(usize, usize)>,
}

/// Selects a bundle's icon, desktop entry and appstream metadata from
/// its filesystem table: the first top-level `.DirIcon`, `.desktop` and
/// appdata/metainfo entries, each followed through its symlinks with a
/// cycle guard.
///
/// Succeeds exactly when every selected entry resolves to a regular
/// file (and the table leaves room for the resolution fuel); a cycle, a
/// missing target or a non-file endpoint is a `BadBundle`.
pub fn select_bundle_entries(entries: &Vec<BundleEntry>) -> (r: Result<
    BundleSelection,
    SoarError,
>)
    ensures
        r matches Err(e) ==> e == SoarError::BadBundle,
        r is Ok <==> entries@.len() < usize::MAX && selected_resolves(
            entries@,
            first_icon(entries@),
        ) && selected_resolves(entries@, first_desktop(entries@)) && selected_resolves(
            entries@,
            first_appstream(entries@),
        ),
        r matches Ok(sel) ==> ({
            &&& (match sel.icon {
                Some(j) => first_icon(entries@) < entries@.len() && resolve_spec(
                    entries@,
                    first_icon(entries@),
                    Seq::empty(),
                    (entries@.len() + 1) as nat,
                ) == Ok::<int, SoarError>(j as int),
                None => first_icon(entries@) >= entries@.len(),
            })
            &&& (match sel.desktop {
                Some(j) => first_desktop(entries@) < entries@.len() && resolve_spec(
                    entries@,
                    first_desktop(entries@),
                    Seq::empty(),
                    (entries@.len() + 1) as nat,
                ) == Ok::<int, SoarError>(j as int),
                None => first_desktop(entries@) >= entries@.len(),
            })
            &&& (match sel.appstream {
                Some((sidx, j)) => sidx == first_appstream(entries@) && first_appstream(
                    entries@,
                ) < entries@.len() && resolve_spec(
                    entries@,
                    first_appstream(entries@),
                    Seq::empty(),
                    (entries@.len() + 1) as nat,
                ) == Ok::<int, SoarError>(j as int),
                None => first_appstream(entries@) >= entries@.len(),
            })
        }),
{
    if entries.len() == usize::MAX {
        // the resolution fuel could not be represented
        return Err(SoarError::BadBundle);
    }
    let icon_idx = find_entry(entries, 0);
    let desktop_idx = find_entry(entries, 1);
    let appstream_idx = find_entry(entries, 2);
    let icon: Option<usize> = if icon_idx < entries.len() {
        match resolve_exec(entries, icon_idx, Vec::new(), entries.len() + 1) {
            Ok(j) => Some(j),
            Err(e) => {
                return Err(e);
            },
        }
    } else {
        None
    };
    let desktop: Option<usize> = if desktop_idx < entries.len() {
        match resolve_exec(entries, desktop_idx, Vec::new(), entries.len() + 1) {
            Ok(j) => Some(j),
            Err(e) => {
                return Err(e);
            },
        }
    } else {
        None
    };
    let appstream: Option<(usize, usize)> = if appstream_idx < entries.len() {
        match resolve_exec(entries, appstream_idx, Vec::new(), entries.len() + 1) {
            Ok(j) => Some((appstream_idx, j)),
            Err(e) => {
                return Err(e);
            },
        }
    } else {
        None
    };
    Ok(BundleSelection { icon, desktop, appstream })
}

/// The icon's install-directory file name, by its content's magic:
/// `<pkg_name>.png` or `<pkg_name>.svg`.
pub fn bundle_icon_name(pkg_name: &str, content: &Vec<u8>) -> (r: String)
    ensures
        r@ == pkg_name@ + seq!['.'] + icon_ext_spec(content@),
{
    let ext = icon_extension(content);
    let mut n = String::from_str(pkg_name);
    n.push('.');
    n.append(ext);
    n
}

/// The desktop entry's install-directory file name: `<pkg_name>.desktop`.
pub fn bundle_desktop_name(pkg_name: &str) -> (r: String)
    ensures
        r@ == pkg_name@ + ".desktop"@,
{
    let mut n = String::from_str(pkg_name);
    n.append(".desktop");
    n
}

/// The appstream file's install-directory name, by the selected entry's
/// own name: `<pkg_name>.appdata.xml` or `<pkg_name>.metainfo.xml`.
pub fn bundle_appstream_name(pkg_name: &str, entry_path: &String) -> (r: String)
    ensures
        r@ == pkg_name@ + (if crate::links::has_substring(entry_path@, "appdata"@) {
            ".appdata.xml"@
        } else {
            ".metainfo.xml"@
        }),
{
    let mut n = String::from_str(pkg_name);
    if has_appdata(entry_path) {
        n.append(".appdata.xml");
    } else {
        n.append(".metainfo.xml");
    }
    n
}

fn has_appdata(p: &String) -> (r: bool)
    ensures
        r == crate::links::has_substring(p@, "appdata"@),
{
    crate::links::contains_sub(p.as_str(), "appdata")
}

/// Finds the first entry of the requested kind: 0 selects the icon, 1
/// the desktop entry, and any other value the appstream metadata.
fn find_entry(entries: &Vec<BundleEntry>, what: u8) -> (r: usize)
    ensures
        what == 0 ==> r == first_icon(entries@),
        what == 1 ==> r == first_desktop(entries@),
        !(what == 0 || what == 1) ==> r == first_appstream(entries@),
        r <= entries@.len(),
{
    let mut i: usize = 0;
    while i < entries.len()
        invariant
            i <= entries@.len(),
            what == 0 ==> forall|m: int| 0 <= m < i ==> !is_icon_entry(&#[trigger] entries@[m]),
            what == 1 ==> forall|m: int|
                0 <= m < i ==> !is_desktop_entry(&#[trigger] entries@[m]),
            !(what == 0 || what == 1) ==> forall|m: int|
                0 <= m < i ==> !is_appstream_entry(&#[trigger] entries@[m]),
        decreases entries@.len() - i,
    {
        let hit = if what == 0 {
            entry_is_icon(&entries[i])
        } else if what == 1 {
            entry_is_desktop(&entries[i])
        } else {
            entry_is_appstream(&entries[i])
        };
        if hit {
            proof {
                if what == 0 {
                    lemma_first_icon_at(entries@, i as int);
                } else if what == 1 {
                    lemma_first_desktop_at(entries@, i as int);
                } else {
                    lemma_first_appstream_at(entries@, i as int);
                }
            }
            return i;
        }
        i += 1;
    }
    proof {
        if what == 0 {
            lemma_first_icon_none(entries@);
        } else if what == 1 {
            lemma_first_desktop_none(entries@);
        } else {
            lemma_first_appstream_none(entries@);
        }
    }
    entries.len()
}

proof fn lemma_first_icon_at(s: Seq<BundleEntry>, j: int)
    requires
        0 <= j < s.len(),
        is_icon_entry(&s[j]),
        forall|m: int| 0 <= m < j ==> !is_icon_entry(&#[trigger] s[m]),
    ensures
        first_icon(s) == j,
    decreases j,
{
    if j > 0 {
        let t = s.skip(1);
        assert(forall|m: int| 0 <= m < t.len() ==> #[trigger] t[m] == s[m + 1]);
        lemma_first_icon_at(t, j - 1);
    }
}

proof fn lemma_first_icon_none(s: Seq<BundleEntry>)
    requires
        forall|m: int| 0 <= m < s.len() ==> !is_icon_entry(&#[trigger] s[m]),
    ensures
        first_icon(s) == s.len(),
    decreases s.len(),
{
    if s.len() > 0 {
        let t = s.skip(1);
        assert(forall|m: int| 0 <= m < t.len() ==> #[trigger] t[m] == s[m + 1]);
        lemma_first_icon_none(t);
    }
}

proof fn lemma_first_desktop_at(s: Seq<BundleEntry>, j: int)
    requires
        0 <= j < s.len(),
        is_desktop_entry(&s[j]),
        forall|m: int| 0 <= m < j ==> !is_desktop_entry(&#[trigger] s[m]),
    ensures
        first_desktop(s) == j,
    decreases j,
{
    if j > 0 {
        let t = s.skip(1);
        assert(forall|m: int| 0 <= m < t.len() ==> #[trigger] t[m] == s[m + 1]);
        lemma_first_desktop_at(t, j - 1);
    }
}

proof fn lemma_first_desktop_none(s: Seq<BundleEntry>)
    requires
        forall|m: int| 0 <= m < s.len() ==> !is_desktop_entry(&#[trigger] s[m]),
    ensures
        first_desktop(s) == s.len(),
    decreases s.len(),
{
    if s.len() > 0 {
        let t = s.skip(1);
        assert(forall|m: int| 0 <= m < t.len() ==> #[trigger] t[m] == s[m + 1]);
        lemma_first_desktop_none(t);
    }
}

proof fn lemma_first_appstream_at(s: Seq<BundleEntry>, j: int)
    requires
        0 <= j < s.len(),
        is_appstream_entry(&s[j]),
        forall|m: int| 0 <= m < j ==> !is_appstream_entry(&#[trigger] s[m]),
    ensures
        first_appstream(s) == j,
    decreases j,
{
    if j > 0 {
        let t = s.skip(1);
        assert(forall|m: int| 0 <= m < t.len() ==> #[trigger] t[m] == s[m + 1]);
        lemma_first_appstream_at(t, j - 1);
    }
}

proof fn lemma_first_appstream_none(s: Seq<BundleEntry>)
    requires
        forall|m: int| 0 <= m < s.len() ==> !is_appstream_entry(&#[trigger] s[m]),
    ensures
        first_appstream(s) == s.len(),
    decreases s.len(),
{
    if s.len() > 0 {
        let t = s.skip(1);
        assert(forall|m: int| 0 <= m < t.len() ==> #[trigger] t[m] == s[m + 1]);
        lemma_first_appstream_none(t);
    }
}

fn entry_is_icon(e: &BundleEntry) -> (r: bool)
    ensures
        r == is_icon_entry(e),
{
    top_level_exec(&e.path) && suffix_exec(&e.path, ".DirIcon")
}

fn entry_is_desktop(e: &BundleEntry) -> (r: bool)
    ensures
        r == is_desktop_entry(e),
{
    top_level_exec(&e.path) && suffix_exec(&e.path, ".desktop")
}

fn entry_is_appstream(e: &BundleEntry) -> (r: bool)
    ensures
        r == is_appstream_entry(e),
{
    top_level_exec(&e.path) && (crate::links::contains_sub(e.path.as_str(), "appdata")
        || crate::links::contains_sub(e.path.as_str(), "metainfo"))
}

fn top_level_exec(p: &String) -> (r: bool)
    ensures
        r == top_level(p@),
{
    let cs = crate::text::str_chars(p.as_str());
    if cs.len() == 0 {
        return false;
    }
    if cs[0] != '/' {
        return false;
    }
    let mut i: usize = 1;
    while i < cs.len()
        invariant
            1 <= i <= cs@.len(),
            cs@ == p@,
            forall|j: int| 1 <= j < i ==> cs@[j] != '/',
        decreases cs@.len() - i,
    {
        if cs[i] == '/' {
            return false;
        }
        i += 1;
    }
    true
}

fn suffix_exec(p: &String, suf: &str) -> (r: bool)
    ensures
        r == ends_with(p@, suf@),
{
    let pc = crate::text::str_chars(p.as_str());
    let sc = crate::text::str_chars(suf);
    if pc.len() < sc.len() {
        return false;
    }
    let start = pc.len() - sc.len();
    let mut i: usize = 0;
    while i < sc.len()
        invariant
            i <= sc@.len() <= pc@.len(),
            pc@.len() <= usize::MAX,
            start == pc@.len() - sc@.len(),
            pc@ == p@,
            sc@ == suf@,
            forall|j: int| 0 <= j < i ==> pc@[start + j] == suf@[j],
        decreases sc@.len() - i,
    {
        proof {
            assert(start + i < pc@.len());
        }
        if pc[start + i] != sc[i] {
            proof {
                assert(p@.skip(start as int)[i as int] != suf@[i as int]);
            }
            return false;
        }
        i += 1;
    }
    proof {
        assert(p@.skip(start as int) =~= suf@);
    }
    true
}

} // verus!
