//! Catalog package rows and the content-addressed install layout.

use vstd::prelude::*;

verus! {

/// A package row of a remote catalog.
///
/// Identity is the triple `(repo_name, pkg_id, pkg_name)`.  The `provides`
/// field holds the declared target names extracted from the catalog's
/// mapping.
#[derive(Clone)]
pub struct Package {
    pub repo_name: String,
    pub pkg: String,
    pub pkg_id: String,
    pub pkg_name: String,
    pub description: String,
    pub version: String,
    pub version_upstream: Option<String>,
    pub size: u64,
    pub ghcr_size: Option<u64>,
    pub bsum: String,
    pub shasum: String,
    pub download_url: String,
    pub ghcr_blob: Option<String>,
    pub ghcr_pkg: Option<String>,
    pub pkg_type: String,
    pub pkg_webpage: Option<String>,
    pub icon: Option<String>,
    pub desktop: Option<String>,
    pub homepages: Option<Vec<String>>,
    pub source_urls: Option<Vec<String>>,
    pub licenses: Option<Vec<String>>,
    pub maintainers: Vec<String>,
    pub notes: Option<Vec<String>>,
    pub snapshots: Option<Vec<String>>,
    pub build_id: Option<String>,
    pub build_date: Option<String>,
    pub build_action: Option<String>,
    pub build_log: Option<String>,
    pub build_script: Option<String>,
    pub rank: Option<u64>,
    pub download_count_week: Option<u64>,
    pub provides: Option<Vec<String>>,
    pub family: Option<String>,
}

/// The display size of a package: the hosted-blob size when present, else
/// the declared size.
pub open spec fn display_size(p: &Package) -> u64 {
    match p.ghcr_size {
        Some(g) => g,
        None => p.size,
    }
}

/// The full name: the family prefix joined by `join_char`, then the
/// package name.
pub open spec fn full_name_spec(p: &Package, join_char: char) -> Seq<char> {
    match p.family {
        Some(f) => f@ + seq![join_char] + p.pkg_name@,
        None => p.pkg_name@,
    }
}

/// The install directory name for content `checksum`:
/// `<first 8 hex digits>-<full name>`.
pub open spec fn install_dir_name_spec(p: &Package, checksum: Seq<char>) -> Seq<char> {
    checksum.subrange(0, 8) + seq!['-'] + full_name_spec(p, '-')
}

impl Package {
    /// The package's full name with the family prefix joined by
    /// `join_char`.
    pub fn full_name(&self, join_char: char) -> (r: String)
        ensures
            r@ == full_name_spec(self, join_char),
    {
        match &self.family {
            Some(f) => {
                let mut r = f.clone();
                r.push(join_char);
                r.append(self.pkg_name.as_str());
                r
            },
            None => self.pkg_name.clone(),
        }
    }

    /// The content-addressed install directory under `packages_path`:
    /// `<packages>/<first8(checksum)>-<full name>`.
    pub fn get_install_dir(&self, packages_path: &str, checksum: &str) -> (r: String)
        requires
            checksum@.len() >= 8,
        ensures
            r@ == packages_path@ + seq!['/'] + install_dir_name_spec(self, checksum@),
    {
        let mut r = String::from_str(packages_path);
        r.push('/');
        let cs = crate::text::str_chars(checksum);
        let mut i: usize = 0;
        while i < 8
            invariant
                i <= 8,
                cs@ == checksum@,
                checksum@.len() >= 8,
                r@ == packages_path@ + seq!['/'] + checksum@.subrange(0, i as int),
            decreases 8 - i,
        {
            r.push(cs[i]);
            i += 1;
            proof {
                assert((packages_path@ + seq!['/'] + checksum@.subrange(0, i - 1)).push(
                    checksum@[i - 1],
                ) =~= packages_path@ + seq!['/'] + checksum@.subrange(0, i as int));
            }
        }
        r.push('-');
        let fname = self.full_name('-');
        r.append(fname.as_str());
        proof {
            assert(r@ =~= packages_path@ + seq!['/'] + install_dir_name_spec(self, checksum@));
        }
        r
    }

    /// The installed binary: `<install dir>/<pkg_name>`.
    pub fn get_install_path(&self, packages_path: &str, checksum: &str) -> (r: String)
        requires
            checksum@.len() >= 8,
        ensures
            r@ == packages_path@ + seq!['/'] + install_dir_name_spec(self, checksum@)
                + seq!['/'] + self.pkg_name@,
    {
        let mut r = self.get_install_dir(packages_path, checksum);
        r.push('/');
        r.append(self.pkg_name.as_str());
        r
    }
}

/// A catalog row resolved against a repository and collection: the
/// target the lifecycle driver installs.
pub struct ResolvedPackage {
    /// The repository the row came from.
    pub repo_name: String,
    /// The collection it was selected from.
    pub collection: String,
    /// The row itself.
    pub package: Package,
}

impl ResolvedPackage {
    /// The target's content-addressed install directory.
    pub fn get_install_dir(&self, packages_path: &str, checksum: &str) -> (r: String)
        requires
            checksum@.len() >= 8,
        ensures
            r@ == packages_path@ + seq!['/'] + install_dir_name_spec(&self.package, checksum@),
    {
        self.package.get_install_dir(packages_path, checksum)
    }

    /// The target's installed binary path.
    pub fn get_install_path(&self, packages_path: &str, checksum: &str) -> (r: String)
        requires
            checksum@.len() >= 8,
        ensures
            r@ == packages_path@ + seq!['/'] + install_dir_name_spec(&self.package, checksum@)
                + seq!['/'] + self.package.pkg_name@,
    {
        self.package.get_install_path(packages_path, checksum)
    }
}

/// Whether one of the notes is exactly `marker`.
pub open spec fn has_note_spec(ns: Seq<String>, marker: Seq<char>) -> bool {
    exists|i: int| 0 <= i < ns.len() && (#[trigger] ns[i])@ == marker
}

/// Whether desktop integration is skipped for a package: plain static or
/// dynamic binaries, or an explicit opt-out note.
pub fn has_no_desktop_integration(pkg_type: &str, notes: Option<&Vec<String>>) -> (r: bool)
    ensures
        r == (pkg_type@ == "static"@ || pkg_type@ == "dynamic"@ || (match notes {
            Some(ns) => has_note_spec(ns@, "NO_DESKTOP_INTEGRATION"@),
            None => false,
        })),
{
    let t = String::from_str(pkg_type);
    let is_static = t.eq(&String::from_str("static"));
    let is_dynamic = t.eq(&String::from_str("dynamic"));
    if is_static || is_dynamic {
        return true;
    }
    let ns = match notes {
        Some(ns) => ns,
        None => {
            return false;
        },
    };
    proof {
        assert(notes == Some(ns));
    }
    let marker = String::from_str("NO_DESKTOP_INTEGRATION");
    let mut i: usize = 0;
    while i < ns.len()
        invariant
            notes == Some(ns),
            i <= ns@.len(),
            marker@ == "NO_DESKTOP_INTEGRATION"@,
            forall|j: int| 0 <= j < i ==> (#[trigger] ns@[j])@ != "NO_DESKTOP_INTEGRATION"@,
        decreases ns@.len() - i,
    {
        if ns[i].eq(&marker) {
            proof {
                assert(has_note_spec(ns@, "NO_DESKTOP_INTEGRATION"@)) by {
                    assert(0 <= i < ns@.len() && (ns@[i as int])@ == "NO_DESKTOP_INTEGRATION"@);
                }
            }
            return true;
        }
        i += 1;
    }
    false
}

} // verus!
