//! The install ledger: the read-write record of locally installed
//! packages.
//!
//! A row's identity is the triple `(repo_name, pkg_id, pkg_name)`; the
//! ledger never holds two rows with one identity.  A row is inserted in a
//! staged state before a download begins and becomes active only after
//! download, digest validation and integration succeed.

use vstd::prelude::*;

verus! {

/// One row of the install ledger.
#[derive(Clone)]
pub struct InstalledPackage {
    pub repo_name: String,
    pub pkg: String,
    pub pkg_id: String,
    pub pkg_name: String,
    pub version: String,
    pub size: u64,
    pub checksum: String,
    pub installed_path: String,
    pub bin_path: Option<String>,
    pub installed_date: Option<String>,
    pub is_installed: bool,
    pub installed_with_family: bool,
    pub icon_path: Option<String>,
    pub desktop_path: Option<String>,
    pub family: Option<String>,
}

/// The full name of an installed row, family prefix joined by
/// `join_char`.
pub open spec fn installed_full_name_spec(r: &InstalledPackage, join_char: char) -> Seq<char> {
    match r.family {
        Some(f) => f@ + seq![join_char] + r.pkg_name@,
        None => r.pkg_name@,
    }
}

impl InstalledPackage {
    /// The row's full name with the family prefix joined by `join_char`.
    pub fn full_name(&self, join_char: char) -> (r: String)
        ensures
            r@ == installed_full_name_spec(self, join_char),
    {
        match &self.family {
            Some(f) => {
                let mut r = f.clone();
                r.push(join_char);
                r.append(self.pkg_name.as_str());
                r
            },
            None => self.pkg_name.clone(),
        }
    }

    /// The row's content-addressed install directory under
    /// `packages_path`.
    pub fn get_install_dir(&self, packages_path: &str) -> (r: String)
        requires
            self.checksum@.len() >= 8,
        ensures
            r@ == packages_path@ + seq!['/'] + self.checksum@.subrange(0, 8) + seq!['-']
                + installed_full_name_spec(self, '-'),
    {
        let mut r = String::from_str(packages_path);
        r.push('/');
        let cs = crate::text::str_chars(self.checksum.as_str());
        let mut i: usize = 0;
        while i < 8
            invariant
                i <= 8,
                cs@ == self.checksum@,
                self.checksum@.len() >= 8,
                r@ == packages_path@ + seq!['/'] + self.checksum@.subrange(0, i as int),
            decreases 8 - i,
        {
            r.push(cs[i]);
            i += 1;
            proof {
                assert((packages_path@ + seq!['/'] + self.checksum@.subrange(0, i - 1)).push(
                    self.checksum@[i - 1],
                ) =~= packages_path@ + seq!['/'] + self.checksum@.subrange(0, i as int));
            }
        }
        r.push('-');
        let fname = self.full_name('-');
        r.append(fname.as_str());
        proof {
            assert(r@ =~= packages_path@ + seq!['/'] + self.checksum@.subrange(0, 8)
                + seq!['-'] + installed_full_name_spec(self, '-'));
        }
        r
    }

    /// The installed binary inside the install directory.
    pub fn get_install_path(&self, packages_path: &str) -> (r: String)
        requires
            self.checksum@.len() >= 8,
        ensures
            r@ == packages_path@ + seq!['/'] + self.checksum@.subrange(0, 8) + seq!['-']
                + installed_full_name_spec(self, '-') + seq!['/'] + self.pkg_name@,
    {
        let mut r = self.get_install_dir(packages_path);
        r.push('/');
        r.append(self.pkg_name.as_str());
        r
    }
}

/// Whether row `r` carries the given identity.
pub open spec fn row_has_identity(
    r: &InstalledPackage,
    repo: Seq<char>,
    pkg_id: Seq<char>,
    pkg_name: Seq<char>,
) -> bool {
    r.repo_name@ == repo && r.pkg_id@ == pkg_id && r.pkg_name@ == pkg_name
}

/// The first index in `s` holding the identity, or the length.
pub open spec fn index_of_identity(
    s: Seq<InstalledPackage>,
    repo: Seq<char>,
    pkg_id: Seq<char>,
    pkg_name: Seq<char>,
) -> int
    decreases s.len(),
{
    if s.len() == 0 {
        0
    } else if row_has_identity(&s[0], repo, pkg_id, pkg_name) {
        0
    } else {
        1 + index_of_identity(s.skip(1), repo, pkg_id, pkg_name)
    }
}

/// Whether some row in `s` carries the identity.
pub open spec fn has_identity(
    s: Seq<InstalledPackage>,
    repo: Seq<char>,
    pkg_id: Seq<char>,
    pkg_name: Seq<char>,
) -> bool {
    exists|i: int| 0 <= i < s.len() && row_has_identity(&#[trigger] s[i], repo, pkg_id, pkg_name)
}

/// `index_of_identity` is the first match and bounded by the length.
pub proof fn lemma_index_of_identity(
    s: Seq<InstalledPackage>,
    repo: Seq<char>,
    pkg_id: Seq<char>,
    pkg_name: Seq<char>,
)
    ensures
        0 <= index_of_identity(s, repo, pkg_id, pkg_name) <= s.len(),
        index_of_identity(s, repo, pkg_id, pkg_name) < s.len() <==> has_identity(
            s,
            repo,
            pkg_id,
            pkg_name,
        ),
        index_of_identity(s, repo, pkg_id, pkg_name) < s.len() ==> row_has_identity(
            &s[index_of_identity(s, repo, pkg_id, pkg_name)],
            repo,
            pkg_id,
            pkg_name,
        ),
        forall|m: int|
            0 <= m < index_of_identity(s, repo, pkg_id, pkg_name) ==> !row_has_identity(
                &#[trigger] s[m],
                repo,
                pkg_id,
                pkg_name,
            ),
    decreases s.len(),
{
    if s.len() > 0 && !row_has_identity(&s[0], repo, pkg_id, pkg_name) {
        lemma_index_of_identity(s.skip(1), repo, pkg_id, pkg_name);
        let t = s.skip(1);
        assert(forall|i: int| 0 <= i < t.len() ==> #[trigger] t[i] == s[i + 1]);
        if has_identity(t, repo, pkg_id, pkg_name) {
            let i = choose|i: int|
                0 <= i < t.len() && row_has_identity(&#[trigger] t[i], repo, pkg_id, pkg_name);
            assert(row_has_identity(&s[i + 1], repo, pkg_id, pkg_name));
        }
        if has_identity(s, repo, pkg_id, pkg_name) {
            let i = choose|i: int|
                0 <= i < s.len() && row_has_identity(&#[trigger] s[i], repo, pkg_id, pkg_name);
            assert(i > 0);
            assert(t[i - 1] == s[i]);
        }
        assert forall|m: int|
            0 <= m < index_of_identity(s, repo, pkg_id, pkg_name) implies !row_has_identity(
            &s[m],
            repo,
            pkg_id,
            pkg_name,
        ) by {
            if m > 0 {
                assert(t[m - 1] == s[m]);
                assert(!row_has_identity(&t[m - 1], repo, pkg_id, pkg_name));
            }
        }
    }
}

/// Well-formedness of a ledger: one row per identity.
pub open spec fn ledger_wf(s: Seq<InstalledPackage>) -> bool {
    forall|i: int, j: int|
        #![trigger s[i], s[j]]
        0 <= i < j < s.len() ==> !row_has_identity(
            &s[i],
            s[j].repo_name@,
            s[j].pkg_id@,
            s[j].pkg_name@,
        )
}

/// The install ledger.
pub struct InstalledPackages {
    /// The rows, one per installed or staged package.
    pub packages: Vec<InstalledPackage>,
}

impl InstalledPackages {
    /// An empty ledger.
    pub fn new() -> (r: InstalledPackages)
        ensures
            r.packages@.len() == 0,
            ledger_wf(r.packages@),
    {
        InstalledPackages { packages: Vec::new() }
    }

    /// The index of the row carrying the identity, if any.
    pub fn find_package(&self, repo_name: &str, pkg_id: &str, pkg_name: &str) -> (r: Option<
        usize,
    >)
        ensures
            match r {
                Some(i) => i < self.packages@.len() && i == index_of_identity(
                    self.packages@,
                    repo_name@,
                    pkg_id@,
                    pkg_name@,
                ) && row_has_identity(&self.packages@[i as int], repo_name@, pkg_id@, pkg_name@),
                None => !has_identity(self.packages@, repo_name@, pkg_id@, pkg_name@),
            },
    {
        let repo_s = String::from_str(repo_name);
        let id_s = String::from_str(pkg_id);
        let name_s = String::from_str(pkg_name);
        let mut i: usize = 0;
        while i < self.packages.len()
            invariant
                i <= self.packages@.len(),
                repo_s@ == repo_name@,
                id_s@ == pkg_id@,
                name_s@ == pkg_name@,
                forall|m: int|
                    0 <= m < i ==> !row_has_identity(
                        &#[trigger] self.packages@[m],
                        repo_name@,
                        pkg_id@,
                        pkg_name@,
                    ),
            decreases self.packages@.len() - i,
        {
            let row = &self.packages[i];
            if row.repo_name.eq(&repo_s) && row.pkg_id.eq(&id_s) && row.pkg_name.eq(&name_s) {
                proof {
                    lemma_index_of_identity(self.packages@, repo_name@, pkg_id@, pkg_name@);
                }
                return Some(i);
            }
            i += 1;
        }
        proof {
            if has_identity(self.packages@, repo_name@, pkg_id@, pkg_name@) {
                let m = choose|m: int|
                    0 <= m < self.packages@.len() && row_has_identity(
                        &#[trigger] self.packages@[m],
                        repo_name@,
                        pkg_id@,
                        pkg_name@,
                    );
                assert(!row_has_identity(&self.packages@[m], repo_name@, pkg_id@, pkg_name@));
            }
        }
        None
    }

    /// Whether the identity is present and active.
    pub fn is_installed(&self, repo_name: &str, pkg_id: &str, pkg_name: &str) -> (r: bool)
        requires
            ledger_wf(self.packages@),
        ensures
            r == active_identity(self.packages@, repo_name@, pkg_id@, pkg_name@),
    {
        match self.find_package(repo_name, pkg_id, pkg_name) {
            Some(i) => {
                let active = self.packages[i].is_installed;
                proof {
                    if active {
                        assert(active_identity(
                            self.packages@,
                            repo_name@,
                            pkg_id@,
                            pkg_name@,
                        )) by {
                            assert(row_has_identity(
                                &self.packages@[i as int],
                                repo_name@,
                                pkg_id@,
                                pkg_name@,
                            ) && self.packages@[i as int].is_installed);
                        }
                    } else {
                        assert(!active_identity(
                            self.packages@,
                            repo_name@,
                            pkg_id@,
                            pkg_name@,
                        )) by {
                            lemma_index_of_identity(
                                self.packages@,
                                repo_name@,
                                pkg_id@,
                                pkg_name@,
                            );
                            if active_identity(self.packages@, repo_name@, pkg_id@, pkg_name@) {
                                let m = choose|m: int|
                                    0 <= m < self.packages@.len() && row_has_identity(
                                        &#[trigger] self.packages@[m],
                                        repo_name@,
                                        pkg_id@,
                                        pkg_name@,
                                    ) && self.packages@[m].is_installed;
                                lemma_wf_identity_unique(
                                    self.packages@,
                                    repo_name@,
                                    pkg_id@,
                                    pkg_name@,
                                    i as int,
                                    m,
                                );
                            }
                        }
                    }
                }
                active
            },
            None => false,
        }
    }
}

/// The ledger after inserting `row`: a row with the same identity is
/// replaced, else `row` is appended.
pub open spec fn upsert_spec(s: Seq<InstalledPackage>, row: InstalledPackage) -> Seq<
    InstalledPackage,
> {
    let idx = index_of_identity(s, row.repo_name@, row.pkg_id@, row.pkg_name@);
    if idx < s.len() {
        s.update(idx, row)
    } else {
        s.push(row)
    }
}

/// A row turned active: verified digest, launcher path, timestamp.
pub open spec fn activated_row(
    r: InstalledPackage,
    checksum: String,
    bin_path: String,
    date: String,
    with_family: bool,
) -> InstalledPackage {
    InstalledPackage {
        checksum,
        bin_path: Some(bin_path),
        installed_date: Some(date),
        is_installed: true,
        installed_with_family: with_family,
        ..r
    }
}

/// The ledger after recording a finished install on the identity's row;
/// unchanged when the identity is absent.
pub open spec fn record_spec(
    s: Seq<InstalledPackage>,
    repo: Seq<char>,
    pkg_id: Seq<char>,
    pkg_name: Seq<char>,
    checksum: String,
    bin_path: String,
    date: String,
    with_family: bool,
) -> Seq<InstalledPackage> {
    let idx = index_of_identity(s, repo, pkg_id, pkg_name);
    if idx < s.len() {
        s.update(idx, activated_row(s[idx], checksum, bin_path, date, with_family))
    } else {
        s
    }
}

/// The ledger after deleting the identity's row; unchanged when absent.
pub open spec fn remove_spec(
    s: Seq<InstalledPackage>,
    repo: Seq<char>,
    pkg_id: Seq<char>,
    pkg_name: Seq<char>,
) -> Seq<InstalledPackage> {
    let idx = index_of_identity(s, repo, pkg_id, pkg_name);
    if idx < s.len() {
        s.remove(idx)
    } else {
        s
    }
}

impl InstalledPackages {
    /// Inserts or replaces the row of `row`'s identity.
    pub fn register_package(&mut self, row: InstalledPackage)
        requires
            ledger_wf(old(self).packages@),
        ensures
            final(self).packages@ == upsert_spec(old(self).packages@, row),
            ledger_wf(final(self).packages@),
    {
        let ghost s = self.packages@;
        let idx = self.find_package(
            row.repo_name.as_str(),
            row.pkg_id.as_str(),
            row.pkg_name.as_str(),
        );
        proof {
            lemma_index_of_identity(s, row.repo_name@, row.pkg_id@, row.pkg_name@);
        }
        match idx {
            Some(i) => {
                self.packages.set(i, row);
                proof {
                    lemma_upsert_wf(s, row);
                }
            },
            None => {
                self.packages.push(row);
                proof {
                    lemma_upsert_wf(s, row);
                }
            },
        }
    }

    /// Inserts a staged row before a download begins: not installed, no
    /// timestamp.  A stale staged row of the same identity is overwritten.
    pub fn stage_package(&mut self, row: InstalledPackage)
        requires
            ledger_wf(old(self).packages@),
            !row.is_installed,
            row.installed_date is None,
        ensures
            final(self).packages@ == upsert_spec(old(self).packages@, row),
            ledger_wf(final(self).packages@),
    {
        self.register_package(row);
    }

    /// Records a finished install: the identity's row turns active with
    /// the verified digest, the launcher path and the timestamp.
    pub fn record_package(
        &mut self,
        repo_name: &str,
        pkg_id: &str,
        pkg_name: &str,
        checksum: String,
        bin_path: String,
        date: String,
        with_family: bool,
    )
        requires
            ledger_wf(old(self).packages@),
        ensures
            final(self).packages@ == record_spec(
                old(self).packages@,
                repo_name@,
                pkg_id@,
                pkg_name@,
                checksum,
                bin_path,
                date,
                with_family,
            ),
            ledger_wf(final(self).packages@),
    {
        let ghost s = self.packages@;
        match self.find_package(repo_name, pkg_id, pkg_name) {
            Some(i) => {
                let old_row = &self.packages[i];
                let new_row = InstalledPackage {
                    repo_name: old_row.repo_name.clone(),
                    pkg: old_row.pkg.clone(),
                    pkg_id: old_row.pkg_id.clone(),
                    pkg_name: old_row.pkg_name.clone(),
                    version: old_row.version.clone(),
                    size: old_row.size,
                    checksum,
                    installed_path: old_row.installed_path.clone(),
                    bin_path: Some(bin_path),
                    installed_date: Some(date),
                    is_installed: true,
                    installed_with_family: with_family,
                    icon_path: clone_opt(&old_row.icon_path),
                    desktop_path: clone_opt(&old_row.desktop_path),
                    family: clone_opt(&old_row.family),
                };
                proof {
                    assert(new_row == activated_row(
                        s[i as int],
                        new_row.checksum,
                        new_row.bin_path->0,
                        new_row.installed_date->0,
                        with_family,
                    ));
                }
                self.packages.set(i, new_row);
                proof {
                    lemma_record_wf(s, i as int, final(self).packages@[i as int]);
                }
            },
            None => {
                proof {
                    lemma_index_of_identity(s, repo_name@, pkg_id@, pkg_name@);
                }
            },
        }
    }

    /// Deletes the identity's row, if present.
    pub fn unregister_package(&mut self, repo_name: &str, pkg_id: &str, pkg_name: &str)
        requires
            ledger_wf(old(self).packages@),
        ensures
            final(self).packages@ == remove_spec(
                old(self).packages@,
                repo_name@,
                pkg_id@,
                pkg_name@,
            ),
            ledger_wf(final(self).packages@),
    {
        let ghost s = self.packages@;
        match self.find_package(repo_name, pkg_id, pkg_name) {
            Some(i) => {
                self.packages.remove(i);
                proof {
                    lemma_remove_wf(s, i as int);
                }
            },
            None => {
                proof {
                    lemma_index_of_identity(s, repo_name@, pkg_id@, pkg_name@);
                }
            },
        }
    }
}

fn clone_opt(o: &Option<String>) -> (r: Option<String>)
    ensures
        r == *o,
{
    match o {
        Some(s) => Some(s.clone()),
        None => None,
    }
}

proof fn lemma_upsert_wf(s: Seq<InstalledPackage>, row: InstalledPackage)
    requires
        ledger_wf(s),
    ensures
        ledger_wf(upsert_spec(s, row)),
{
    let repo = row.repo_name@;
    let pkg_id = row.pkg_id@;
    let pkg_name = row.pkg_name@;
    lemma_index_of_identity(s, repo, pkg_id, pkg_name);
    let idx = index_of_identity(s, repo, pkg_id, pkg_name);
    let t = upsert_spec(s, row);
    assert forall|i: int, j: int|
        #![trigger t[i], t[j]]
        0 <= i < j < t.len() implies !row_has_identity(
        &t[i],
        t[j].repo_name@,
        t[j].pkg_id@,
        t[j].pkg_name@,
    ) by {
        if idx < s.len() {
            if i != idx && j != idx {
                assert(t[i] == s[i] && t[j] == s[j]);
            } else if i == idx {
                assert(t[j] == s[j]);
                if row_has_identity(&t[i], t[j].repo_name@, t[j].pkg_id@, t[j].pkg_name@) {
                    assert(row_has_identity(&s[idx], s[j].repo_name@, s[j].pkg_id@,
                    s[j].pkg_name@));
                }
            } else {
                assert(t[i] == s[i]);
                if row_has_identity(&t[i], t[j].repo_name@, t[j].pkg_id@, t[j].pkg_name@) {
                    assert(row_has_identity(&s[i], repo, pkg_id, pkg_name));
                }
            }
        } else {
            if j < s.len() {
                assert(t[i] == s[i] && t[j] == s[j]);
            } else {
                assert(t[i] == s[i] && t[j] == row);
                if row_has_identity(&t[i], t[j].repo_name@, t[j].pkg_id@, t[j].pkg_name@) {
                    assert(has_identity(s, repo, pkg_id, pkg_name)) by {
                        assert(row_has_identity(&s[i], repo, pkg_id, pkg_name));
                    }
                }
            }
        }
    }
}

proof fn lemma_record_wf(s: Seq<InstalledPackage>, idx: int, new_row: InstalledPackage)
    requires
        ledger_wf(s),
        0 <= idx < s.len(),
        new_row.repo_name@ == s[idx].repo_name@,
        new_row.pkg_id@ == s[idx].pkg_id@,
        new_row.pkg_name@ == s[idx].pkg_name@,
    ensures
        ledger_wf(s.update(idx, new_row)),
{
    let t = s.update(idx, new_row);
    assert forall|i: int, j: int|
        #![trigger t[i], t[j]]
        0 <= i < j < t.len() implies !row_has_identity(
        &t[i],
        t[j].repo_name@,
        t[j].pkg_id@,
        t[j].pkg_name@,
    ) by {
        if i != idx && j != idx {
            assert(t[i] == s[i] && t[j] == s[j]);
        } else if i == idx {
            assert(t[j] == s[j]);
            if row_has_identity(&t[i], t[j].repo_name@, t[j].pkg_id@, t[j].pkg_name@) {
                assert(row_has_identity(&s[idx], s[j].repo_name@, s[j].pkg_id@,
                s[j].pkg_name@));
            }
        } else {
            assert(t[i] == s[i]);
            if row_has_identity(&t[i], t[j].repo_name@, t[j].pkg_id@, t[j].pkg_name@) {
                assert(row_has_identity(&s[i], s[idx].repo_name@, s[idx].pkg_id@,
                s[idx].pkg_name@));
            }
        }
    }
}

proof fn lemma_remove_wf(s: Seq<InstalledPackage>, idx: int)
    requires
        ledger_wf(s),
        0 <= idx < s.len(),
    ensures
        ledger_wf(s.remove(idx)),
{
    let t = s.remove(idx);
    assert forall|i: int, j: int|
        #![trigger t[i], t[j]]
        0 <= i < j < t.len() implies !row_has_identity(
        &t[i],
        t[j].repo_name@,
        t[j].pkg_id@,
        t[j].pkg_name@,
    ) by {
        let si = if i < idx {
            i
        } else {
            i + 1
        };
        let sj = if j < idx {
            j
        } else {
            j + 1
        };
        assert(t[i] == s[si] && t[j] == s[sj]);
    }
}

/// Whether two optional strings hold the same text.
pub open spec fn opt_text_eq(a: Option<String>, b: Option<String>) -> bool {
    match (a, b) {
        (Some(x), Some(y)) => x@ == y@,
        (None, None) => true,
        _ => false,
    }
}

/// Whether two rows agree on everything but the install timestamp.
pub open spec fn row_eq_mod_date(a: InstalledPackage, b: InstalledPackage) -> bool {
    a.repo_name@ == b.repo_name@ && a.pkg@ == b.pkg@ && a.pkg_id@ == b.pkg_id@ && a.pkg_name@
        == b.pkg_name@ && a.version@ == b.version@ && a.size == b.size && a.checksum@
        == b.checksum@ && a.installed_path@ == b.installed_path@ && opt_text_eq(
        a.bin_path,
        b.bin_path,
    ) && a.is_installed == b.is_installed && a.installed_with_family == b.installed_with_family
        && opt_text_eq(a.icon_path, b.icon_path) && opt_text_eq(a.desktop_path, b.desktop_path)
        && opt_text_eq(a.family, b.family)
}

/// Whether two ledgers agree row for row on everything but install
/// timestamps.
pub open spec fn ledger_eq_mod_date(a: Seq<InstalledPackage>, b: Seq<InstalledPackage>) -> bool {
    a.len() == b.len() && forall|i: int|
        0 <= i < a.len() ==> row_eq_mod_date(#[trigger] a[i], b[i])
}

/// Installing and then removing a package leaves the ledger exactly as it
/// was, for any package that installs cleanly: staging appends the row,
/// recording activates it, and removal deletes it again.
pub proof fn lemma_install_then_remove_is_identity(
    s: Seq<InstalledPackage>,
    staged: InstalledPackage,
    checksum: String,
    bin_path: String,
    date: String,
    with_family: bool,
)
    requires
        ledger_wf(s),
        !has_identity(s, staged.repo_name@, staged.pkg_id@, staged.pkg_name@),
    ensures
        remove_spec(
            record_spec(
                upsert_spec(s, staged),
                staged.repo_name@,
                staged.pkg_id@,
                staged.pkg_name@,
                checksum,
                bin_path,
                date,
                with_family,
            ),
            staged.repo_name@,
            staged.pkg_id@,
            staged.pkg_name@,
        ) == s,
{
    let repo = staged.repo_name@;
    let pkg_id = staged.pkg_id@;
    let pkg_name = staged.pkg_name@;
    lemma_index_of_identity(s, repo, pkg_id, pkg_name);
    let t = s.push(staged);
    assert(upsert_spec(s, staged) == t);
    assert forall|m: int| 0 <= m < s.len() implies !row_has_identity(
        &t[m],
        repo,
        pkg_id,
        pkg_name,
    ) by {
        assert(t[m] == s[m]);
        if row_has_identity(&s[m], repo, pkg_id, pkg_name) {
            assert(has_identity(s, repo, pkg_id, pkg_name)) by {
                assert(row_has_identity(&s[m], repo, pkg_id, pkg_name));
            }
        }
    }
    lemma_index_first_match(t, repo, pkg_id, pkg_name, s.len() as int);
    let act = activated_row(staged, checksum, bin_path, date, with_family);
    let u = t.update(s.len() as int, act);
    assert(record_spec(t, repo, pkg_id, pkg_name, checksum, bin_path, date, with_family)
        == u);
    assert forall|m: int| 0 <= m < s.len() implies !row_has_identity(
        &u[m],
        repo,
        pkg_id,
        pkg_name,
    ) by {
        assert(u[m] == s[m]);
        if row_has_identity(&s[m], repo, pkg_id, pkg_name) {
            assert(has_identity(s, repo, pkg_id, pkg_name)) by {
                assert(row_has_identity(&s[m], repo, pkg_id, pkg_name));
            }
        }
    }
    assert(row_has_identity(&u[s.len() as int], repo, pkg_id, pkg_name));
    lemma_index_first_match(u, repo, pkg_id, pkg_name, s.len() as int);
    assert(remove_spec(u, repo, pkg_id, pkg_name) == u.remove(s.len() as int));
    assert(u.remove(s.len() as int) =~= s);
}

/// When positions before `j` miss the identity and `j` carries it, `j` is
/// the identity's index.
proof fn lemma_index_first_match(
    s: Seq<InstalledPackage>,
    repo: Seq<char>,
    pkg_id: Seq<char>,
    pkg_name: Seq<char>,
    j: int,
)
    requires
        0 <= j < s.len(),
        row_has_identity(&s[j], repo, pkg_id, pkg_name),
        forall|m: int| 0 <= m < j ==> !row_has_identity(&#[trigger] s[m], repo, pkg_id, pkg_name),
    ensures
        index_of_identity(s, repo, pkg_id, pkg_name) == j,
    decreases j,
{
    if j > 0 {
        let t = s.skip(1);
        assert forall|m: int| 0 <= m < j - 1 implies !row_has_identity(
            &t[m],
            repo,
            pkg_id,
            pkg_name,
        ) by {
            assert(t[m] == s[m + 1]);
        }
        assert(t[j - 1] == s[j]);
        lemma_index_first_match(t, repo, pkg_id, pkg_name, j - 1);
    }
}

/// A second install of an identical catalog row is idempotent: the
/// identity's row is already active with the same digest, launcher path
/// and family flag, so re-recording changes nothing but the install
/// timestamp.
pub proof fn lemma_reinstall_unchanged_mod_date(
    s: Seq<InstalledPackage>,
    repo: Seq<char>,
    pkg_id: Seq<char>,
    pkg_name: Seq<char>,
    checksum: String,
    bin_path: String,
    date: String,
    with_family: bool,
)
    requires
        ledger_wf(s),
        ({
            let idx = index_of_identity(s, repo, pkg_id, pkg_name);
            idx < s.len() && s[idx].is_installed && s[idx].checksum@ == checksum@
                && opt_text_eq(s[idx].bin_path, Some(bin_path))
                && s[idx].installed_with_family == with_family
        }),
    ensures
        ledger_eq_mod_date(
            record_spec(s, repo, pkg_id, pkg_name, checksum, bin_path, date, with_family),
            s,
        ),
{
    lemma_index_of_identity(s, repo, pkg_id, pkg_name);
    let idx = index_of_identity(s, repo, pkg_id, pkg_name);
    let t = record_spec(s, repo, pkg_id, pkg_name, checksum, bin_path, date, with_family);
    assert(t.len() == s.len());
    assert forall|i: int| 0 <= i < t.len() implies row_eq_mod_date(t[i], s[i]) by {
        if i != idx {
            assert(t[i] == s[i]);
        }
    }
}

/// The number of active rows.
pub open spec fn count_installed(s: Seq<InstalledPackage>) -> int
    decreases s.len(),
{
    if s.len() == 0 {
        0
    } else {
        count_installed(s.drop_last()) + if s.last().is_installed {
            1int
        } else {
            0int
        }
    }
}

/// The number of broken rows: present but not active.
pub open spec fn count_broken(s: Seq<InstalledPackage>) -> int
    decreases s.len(),
{
    if s.len() == 0 {
        0
    } else {
        count_broken(s.drop_last()) + if s.last().is_installed {
            0int
        } else {
            1int
        }
    }
}

/// The total size of active rows.
pub open spec fn size_installed(s: Seq<InstalledPackage>) -> int
    decreases s.len(),
{
    if s.len() == 0 {
        0
    } else {
        size_installed(s.drop_last()) + if s.last().is_installed {
            s.last().size as int
        } else {
            0int
        }
    }
}

/// The total size of broken rows.
pub open spec fn size_broken(s: Seq<InstalledPackage>) -> int
    decreases s.len(),
{
    if s.len() == 0 {
        0
    } else {
        size_broken(s.drop_last()) + if s.last().is_installed {
            0int
        } else {
            s.last().size as int
        }
    }
}

/// `x` clamped to the `u64` range from above.
pub open spec fn sat64(x: int) -> int {
    if x > u64::MAX {
        u64::MAX as int
    } else {
        x
    }
}

/// Counts and sizes of the ledger's rows, split into active and broken.
pub struct LedgerAccounting {
    pub installed_count: u64,
    pub broken_count: u64,
    pub installed_size: u64,
    pub broken_size: u64,
}

proof fn lemma_sizes_nonneg(s: Seq<InstalledPackage>)
    ensures
        count_installed(s) >= 0,
        count_broken(s) >= 0,
        size_installed(s) >= 0,
        size_broken(s) >= 0,
    decreases s.len(),
{
    if s.len() > 0 {
        lemma_sizes_nonneg(s.drop_last());
    }
}

impl InstalledPackages {
    /// Tallies the ledger: how many rows are active and how many broken,
    /// with their total sizes; sizes saturate at the `u64` maximum.
    pub fn accounting(&self) -> (r: LedgerAccounting)
        ensures
            r.installed_count == count_installed(self.packages@),
            r.broken_count == count_broken(self.packages@),
            r.installed_size == sat64(size_installed(self.packages@)),
            r.broken_size == sat64(size_broken(self.packages@)),
    {
        let s = &self.packages;
        let n = s.len();
        let mut ic: u64 = 0;
        let mut bc: u64 = 0;
        let mut isz: u64 = 0;
        let mut bsz: u64 = 0;
        let mut i: usize = 0;
        proof {
            assert(s@.subrange(0, 0) =~= Seq::<InstalledPackage>::empty());
        }
        while i < s.len()
            invariant
                i <= s@.len(),
                s@.len() == n,
                ic == count_installed(s@.subrange(0, i as int)),
                bc == count_broken(s@.subrange(0, i as int)),
                isz == sat64(size_installed(s@.subrange(0, i as int))),
                bsz == sat64(size_broken(s@.subrange(0, i as int))),
            decreases s@.len() - i,
        {
            proof {
                let pre = s@.subrange(0, i as int);
                let now = s@.subrange(0, i + 1);
                assert(now.drop_last() =~= pre);
                assert(now.last() == s@[i as int]);
                lemma_sizes_nonneg(pre);
                assert(count_installed(pre) + count_broken(pre) == pre.len()) by {
                    lemma_counts_sum(pre);
                }
            }
            let row = &s[i];
            if row.is_installed {
                ic = ic + 1;
                isz = sat_add(isz, row.size);
            } else {
                bc = bc + 1;
                bsz = sat_add(bsz, row.size);
            }
            i += 1;
        }
        proof {
            assert(s@.subrange(0, s@.len() as int) =~= s@);
        }
        LedgerAccounting { installed_count: ic, broken_count: bc, installed_size: isz,
            broken_size: bsz }
    }
}

proof fn lemma_counts_sum(s: Seq<InstalledPackage>)
    ensures
        count_installed(s) + count_broken(s) == s.len(),
    decreases s.len(),
{
    if s.len() > 0 {
        lemma_counts_sum(s.drop_last());
    }
}

fn sat_add(a: u64, b: u64) -> (r: u64)
    ensures
        r == sat64(a + b),
{
    if a > u64::MAX - b {
        u64::MAX
    } else {
        a + b
    }
}

/// Whether some row carries the identity and is active.
pub open spec fn active_identity(
    s: Seq<InstalledPackage>,
    repo: Seq<char>,
    pkg_id: Seq<char>,
    pkg_name: Seq<char>,
) -> bool {
    exists|i: int|
        0 <= i < s.len() && row_has_identity(&#[trigger] s[i], repo, pkg_id, pkg_name)
            && s[i].is_installed
}

/// In a well-formed ledger two rows with one identity are the same row.
pub proof fn lemma_wf_identity_unique(
    s: Seq<InstalledPackage>,
    repo: Seq<char>,
    pkg_id: Seq<char>,
    pkg_name: Seq<char>,
    i: int,
    j: int,
)
    requires
        ledger_wf(s),
        0 <= i < s.len(),
        0 <= j < s.len(),
        row_has_identity(&s[i], repo, pkg_id, pkg_name),
        row_has_identity(&s[j], repo, pkg_id, pkg_name),
    ensures
        i == j,
{
    if i < j {
        assert(!row_has_identity(&s[i], s[j].repo_name@, s[j].pkg_id@, s[j].pkg_name@));
    } else if j < i {
        assert(!row_has_identity(&s[j], s[i].repo_name@, s[i].pkg_id@, s[i].pkg_name@));
    }
}

} // verus!
