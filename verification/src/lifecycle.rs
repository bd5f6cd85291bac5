//! The lifecycle driver's view of the system: the ledger together with
//! the install directories, binaries and launcher symlinks it manages.
//!
//! Every transition keeps the system healthy: an active ledger row always
//! has its install directory, its binary, and a launcher symlink that
//! resolves to that binary.  A failed install only ever cleans its own
//! partial directory, so a failed update leaves the previous version's
//! directory in place.

use vstd::prelude::*;

use crate::ledger::{
    active_identity, has_identity, index_of_identity, ledger_wf, lemma_index_of_identity,
    record_spec, remove_spec, row_has_identity, upsert_spec, InstalledPackage,
    InstalledPackages,
};

verus! {

/// Whether some string in `s` reads `x`.
pub open spec fn contains_text(s: Seq<String>, x: Seq<char>) -> bool {
    exists|i: int| 0 <= i < s.len() && (#[trigger] s[i])@ == x
}

/// Whether a symlink at `at` pointing to `to` is present.
pub open spec fn link_present(s: Seq<(String, String)>, at: Seq<char>, to: Seq<char>) -> bool {
    exists|i: int| 0 <= i < s.len() && (#[trigger] s[i]).0@ == at && s[i].1@ == to
}

/// The binary path of a ledger row: `<install dir>/<pkg_name>`.
pub open spec fn row_bin_target(r: &InstalledPackage) -> Seq<char> {
    r.installed_path@ + seq!['/'] + r.pkg_name@
}

/// The filesystem footprint the lifecycle driver manages.
pub struct SystemModel {
    /// The install ledger.
    pub ledger: InstalledPackages,
    /// Install directories present on disk.
    pub dirs: Vec<String>,
    /// Regular files present on disk (installed binaries).
    pub files: Vec<String>,
    /// Symlinks present, as `(path, target)`.
    pub links: Vec<(String, String)>,
}

/// Whether an active row is backed on disk: its install directory and
/// binary exist and its launcher symlink resolves to the binary.
pub open spec fn row_backed(m: &SystemModel, r: &InstalledPackage) -> bool {
    &&& contains_text(m.dirs@, r.installed_path@)
    &&& contains_text(m.files@, row_bin_target(r))
    &&& r.bin_path matches Some(bp)
    &&& link_present(m.links@, r.bin_path->0@, row_bin_target(r))
}

/// System health: the ledger is well-formed and every active row is
/// backed on disk.
pub open spec fn sys_wf(m: &SystemModel) -> bool {
    &&& ledger_wf(m.ledger.packages@)
    &&& forall|i: int|
        0 <= i < m.ledger.packages@.len() && (#[trigger] m.ledger.packages@[i]).is_installed
            ==> row_backed(m, &m.ledger.packages@[i])
}

/// The first occurrence of `x` deleted from `s`, when present.
pub open spec fn remove_first_text(s: Seq<String>, x: Seq<char>) -> Seq<String>
    decreases s.len(),
{
    if s.len() == 0 {
        s
    } else if s[0]@ == x {
        s.skip(1)
    } else {
        seq![s[0]] + remove_first_text(s.skip(1), x)
    }
}

/// Deleting one string keeps every other string present.
pub proof fn lemma_remove_first_keeps_others(s: Seq<String>, x: Seq<char>, y: Seq<char>)
    requires
        contains_text(s, y),
        y != x,
    ensures
        contains_text(remove_first_text(s, x), y),
    decreases s.len(),
{
    let t = remove_first_text(s, x);
    let i = choose|i: int| 0 <= i < s.len() && (#[trigger] s[i])@ == y;
    if s[0]@ == x {
        assert(i != 0);
        assert(s.skip(1)[i - 1] == s[i]);
        assert(contains_text(t, y)) by {
            assert(t[i - 1]@ == y);
        }
    } else if i == 0 {
        assert(contains_text(t, y)) by {
            assert(t[0]@ == y);
        }
    } else {
        assert(contains_text(s.skip(1), y)) by {
            assert(s.skip(1)[i - 1]@ == y);
        }
        lemma_remove_first_keeps_others(s.skip(1), x, y);
        let u = remove_first_text(s.skip(1), x);
        let j = choose|j: int| 0 <= j < u.len() && (#[trigger] u[j])@ == y;
        assert(contains_text(t, y)) by {
            assert(t[j + 1] == u[j]);
        }
    }
}

fn remove_text(v: &mut Vec<String>, x: &str)
    ensures
        final(v)@ == remove_first_text(old(v)@, x@),
{
    let ghost orig = old(v)@;
    let xs = String::from_str(x);
    let mut i: usize = 0;
    while i < v.len()
        invariant
            i <= v@.len(),
            v@ == orig,
            old(v)@ == orig,
            xs@ == x@,
            forall|m: int| 0 <= m < i ==> (#[trigger] orig[m])@ != x@,
        decreases v@.len() - i,
    {
        if v[i].eq(&xs) {
            v.remove(i);
            proof {
                lemma_remove_first_at(orig, x@, i as int);
                assert(v@ =~= orig.subrange(0, i as int) + orig.skip(i + 1));
                assert(v@ == remove_first_text(orig, x@));
            }
            return ;
        }
        i += 1;
    }
    proof {
        lemma_remove_first_absent(orig, x@);
    }
}

proof fn lemma_remove_first_at(s: Seq<String>, x: Seq<char>, i: int)
    requires
        0 <= i < s.len(),
        s[i]@ == x,
        forall|m: int| 0 <= m < i ==> (#[trigger] s[m])@ != x,
    ensures
        remove_first_text(s, x) == s.subrange(0, i) + s.skip(i + 1),
    decreases i,
{
    if i == 0 {
        assert(remove_first_text(s, x) == s.skip(1));
        assert(s.subrange(0, 0) + s.skip(1) =~= s.skip(1));
    } else {
        let t = s.skip(1);
        assert(forall|m: int| 0 <= m < i - 1 ==> #[trigger] t[m] == s[m + 1]);
        assert(t[i - 1] == s[i]);
        lemma_remove_first_at(t, x, i - 1);
        assert(remove_first_text(s, x) == seq![s[0]] + (t.subrange(0, i - 1) + t.skip(i)));
        assert(seq![s[0]] + (t.subrange(0, i - 1) + t.skip(i)) =~= s.subrange(0, i) + s.skip(
            i + 1,
        ));
    }
}

proof fn lemma_remove_first_absent(s: Seq<String>, x: Seq<char>)
    requires
        forall|m: int| 0 <= m < s.len() ==> (#[trigger] s[m])@ != x,
    ensures
        remove_first_text(s, x) == s,
    decreases s.len(),
{
    if s.len() > 0 {
        let t = s.skip(1);
        assert(forall|m: int| 0 <= m < t.len() ==> #[trigger] t[m] == s[m + 1]);
        lemma_remove_first_absent(t, x);
        assert(seq![s[0]] + t =~= s);
    }
}

impl SystemModel {
    /// A fresh model: empty ledger, nothing on disk.
    pub fn new() -> (r: SystemModel)
        ensures
            sys_wf(&r),
            r.ledger.packages@.len() == 0,
            r.dirs@.len() == 0,
            r.files@.len() == 0,
            r.links@.len() == 0,
    {
        SystemModel {
            ledger: InstalledPackages::new(),
            dirs: Vec::new(),
            files: Vec::new(),
            links: Vec::new(),
        }
    }

    /// A download target directory is created before the download starts.
    /// Nothing else changes; the system stays healthy.
    pub fn begin_install(&mut self, dir: String)
        requires
            sys_wf(old(self)),
        ensures
            sys_wf(final(self)),
            final(self).dirs@ == old(self).dirs@.push(dir),
            final(self).ledger == old(self).ledger,
            final(self).files == old(self).files,
            final(self).links == old(self).links,
    {
        let ghost oldm = *old(self);
        self.dirs.push(dir);
        proof {
            assert forall|i: int|
                0 <= i < self.ledger.packages@.len() && (
                #[trigger] self.ledger.packages@[i]).is_installed implies row_backed(
                self,
                &self.ledger.packages@[i],
            ) by {
                let r = &self.ledger.packages@[i];
                assert(row_backed(&oldm, r));
                lemma_contains_push(oldm.dirs@, final(self).dirs@[final(self).dirs@.len() - 1],
                r.installed_path@);
            }
        }
    }

    /// Commits a finished install: the binary was written into the
    /// directory, the launcher symlink was placed, and the ledger row is
    /// staged and recorded as active.
    pub fn install_commit(
        &mut self,
        staged: InstalledPackage,
        checksum: String,
        bin_path: String,
        date: String,
        with_family: bool,
    )
        requires
            sys_wf(old(self)),
            !staged.is_installed,
            staged.installed_date is None,
            checksum@.len() >= 8,
            contains_text(old(self).dirs@, staged.installed_path@),
        ensures
            sys_wf(final(self)),
            final(self).dirs == old(self).dirs,
            final(self).files@.len() == old(self).files@.len() + 1,
            final(self).files@.drop_last() == old(self).files@,
            final(self).files@.last()@ == staged.installed_path@ + seq!['/']
                + staged.pkg_name@,
            final(self).links@.len() == old(self).links@.len() + 1,
            final(self).links@.drop_last() == old(self).links@,
            final(self).links@.last().0 == bin_path,
            final(self).links@.last().1@ == staged.installed_path@ + seq!['/']
                + staged.pkg_name@,
            final(self).ledger.packages@ == record_spec(
                upsert_spec(old(self).ledger.packages@, staged),
                staged.repo_name@,
                staged.pkg_id@,
                staged.pkg_name@,
                checksum,
                bin_path,
                date,
                with_family,
            ),
    {
        let ghost oldm = *old(self);
        let ghost s0 = old(self).ledger.packages@;
        let repo = staged.repo_name.clone();
        let pkg_id = staged.pkg_id.clone();
        let pkg_name = staged.pkg_name.clone();
        let mut target = staged.installed_path.clone();
        target.push('/');
        target.append(staged.pkg_name.as_str());
        let ghost dir_text = staged.installed_path@;
        let ghost target_text = target@;
        let ghost bin_text = bin_path@;
        self.files.push(target.clone());
        self.links.push((bin_path.clone(), target));
        self.ledger.stage_package(staged);
        let ghost s1 = self.ledger.packages@;
        self.ledger.record_package(
            repo.as_str(),
            pkg_id.as_str(),
            pkg_name.as_str(),
            checksum,
            bin_path,
            date,
            with_family,
        );
        proof {
            let s2 = self.ledger.packages@;
            lemma_index_of_identity(s0, repo@, pkg_id@, pkg_name@);
            lemma_index_of_identity(s1, repo@, pkg_id@, pkg_name@);
            let i0 = index_of_identity(s0, repo@, pkg_id@, pkg_name@);
            let i1 = index_of_identity(s1, repo@, pkg_id@, pkg_name@);
            // the staged row sits at a known index of s1
            if i0 < s0.len() {
                assert(s1 == s0.update(i0, staged));
                assert(s1[i0] == staged);
                assert(row_has_identity(&s1[i0], repo@, pkg_id@, pkg_name@));
                assert(has_identity(s1, repo@, pkg_id@, pkg_name@)) by {
                    assert(row_has_identity(&s1[i0], repo@, pkg_id@, pkg_name@));
                }
                assert(i1 < s1.len());
                crate::ledger::lemma_wf_identity_unique(s1, repo@, pkg_id@, pkg_name@, i1, i0);
                assert(i1 == i0);
            } else {
                assert(s1 == s0.push(staged));
                assert(s1[s0.len() as int] == staged);
                assert(row_has_identity(&s1[s0.len() as int], repo@, pkg_id@, pkg_name@));
                assert(has_identity(s1, repo@, pkg_id@, pkg_name@)) by {
                    assert(row_has_identity(&s1[s0.len() as int], repo@, pkg_id@, pkg_name@));
                }
                assert(i1 < s1.len());
                crate::ledger::lemma_wf_identity_unique(
                    s1,
                    repo@,
                    pkg_id@,
                    pkg_name@,
                    i1,
                    s0.len() as int,
                );
                assert(i1 == s0.len());
            }
            assert(s1[i1] == staged);
            assert forall|i: int|
                0 <= i < s2.len() && (#[trigger] s2[i]).is_installed implies row_backed(
                self,
                &s2[i],
            ) by {
                let r = &s2[i];
                if i == i1 {
                    // the row this install activated
                    assert(r.installed_path@ == dir_text);
                    assert(r.pkg_name@ == pkg_name@);
                    assert(r.bin_path matches Some(b) && b@ == bin_text);
                    assert(contains_text(self.dirs@, dir_text));
                    assert(contains_text(self.files@, target_text)) by {
                        assert(self.files@[self.files@.len() - 1]@ == target_text);
                    }
                    assert(link_present(self.links@, bin_text, target_text)) by {
                        assert(self.links@[self.links@.len() - 1].0@ == bin_text);
                    }
                    assert(row_bin_target(r) =~= target_text);
                    assert(row_backed(self, &s2[i]));
                } else {
                    // a pre-existing row, untouched by this install
                    assert(s1[i] == s2[i]);
                    assert(i < s0.len() || i0 == s0.len());
                    assert(s0[i] == s1[i]);
                    assert(row_backed(&oldm, &s0[i]));
                    assert(self.dirs@ == oldm.dirs@);
                    assert(self.files@ == oldm.files@.push(
                        self.files@[self.files@.len() - 1],
                    ));
                    assert(self.links@ == oldm.links@.push(
                        self.links@[self.links@.len() - 1],
                    ));
                    lemma_contains_push(
                        oldm.files@,
                        self.files@[self.files@.len() - 1],
                        row_bin_target(r),
                    );
                    lemma_link_push(
                        oldm.links@,
                        self.links@[self.links@.len() - 1],
                        r.bin_path->0@,
                        row_bin_target(r),
                    );
                    assert(contains_text(self.dirs@, r.installed_path@));
                    assert(contains_text(self.files@, row_bin_target(r)));
                    assert(r.bin_path matches Some(bp));
                    assert(link_present(self.links@, r.bin_path->0@, row_bin_target(r)));
                    assert(row_backed(self, &s2[i]));
                }
            }
        }
    }

    /// Cleans up after a failed or cancelled install: the partial
    /// directory is deleted and a staged row of that identity is dropped.
    ///
    /// The partial directory is never one an active row uses, so every
    /// active row keeps its backing: in particular, a failed update never
    /// deletes the previous version's install directory.
    pub fn install_fail(&mut self, repo_name: &str, pkg_id: &str, pkg_name: &str, dir: &str)
        requires
            sys_wf(old(self)),
            forall|i: int|
                0 <= i < old(self).ledger.packages@.len() && (
                #[trigger] old(self).ledger.packages@[i]).is_installed ==> old(
                    self,
                ).ledger.packages@[i].installed_path@ != dir@,
            ({
                let s = old(self).ledger.packages@;
                let idx = index_of_identity(s, repo_name@, pkg_id@, pkg_name@);
                idx < s.len() ==> !s[idx].is_installed
            }),
        ensures
            sys_wf(final(self)),
            final(self).ledger.packages@ == remove_spec(
                old(self).ledger.packages@,
                repo_name@,
                pkg_id@,
                pkg_name@,
            ),
            final(self).dirs@ == remove_first_text(old(self).dirs@, dir@),
            final(self).files == old(self).files,
            final(self).links == old(self).links,
            forall|i: int|
                0 <= i < old(self).ledger.packages@.len() && (
                #[trigger] old(self).ledger.packages@[i]).is_installed ==> contains_text(
                    final(self).dirs@,
                    old(self).ledger.packages@[i].installed_path@,
                ),
    {
        let ghost oldm = *old(self);
        let ghost s0 = old(self).ledger.packages@;
        remove_text(&mut self.dirs, dir);
        self.ledger.unregister_package(repo_name, pkg_id, pkg_name);
        proof {
            let s2 = self.ledger.packages@;
            lemma_index_of_identity(s0, repo_name@, pkg_id@, pkg_name@);
            let idx = index_of_identity(s0, repo_name@, pkg_id@, pkg_name@);
            assert forall|i: int|
                0 <= i < s2.len() && (#[trigger] s2[i]).is_installed implies row_backed(
                self,
                &s2[i],
            ) by {
                let oi = if idx < s0.len() && i >= idx {
                    i + 1
                } else {
                    i
                };
                assert(s2[i] == s0[oi]);
                assert(row_backed(&oldm, &s0[oi]));
                lemma_remove_first_keeps_others(oldm.dirs@, dir@, s0[oi].installed_path@);
            }
            assert forall|i: int|
                0 <= i < s0.len() && (#[trigger] s0[i]).is_installed implies contains_text(
                final(self).dirs@,
                s0[i].installed_path@,
            ) by {
                lemma_remove_first_keeps_others(oldm.dirs@, dir@, s0[i].installed_path@);
            }
        }
    }
}

/// Relies on `chrono::Utc::now` and `DateTime::format`: the current UTC
/// time rendered as `YYYY-MM-DD HH:MM:SS`.  The result depends on the
/// clock, so nothing is promised of its value.
#[verifier::external_body]
fn current_timestamp() -> (r: String) {
    chrono::Utc::now().format("%Y-%m-%d %H:%M:%S").to_string()
}

/// What a symlink entry deleted by path leaves behind: the first pair at
/// `at` removed, when present.
pub open spec fn remove_first_link(s: Seq<(String, String)>, at: Seq<char>) -> Seq<
    (String, String),
>
    decreases s.len(),
{
    if s.len() == 0 {
        s
    } else if s[0].0@ == at {
        s.skip(1)
    } else {
        seq![s[0]] + remove_first_link(s.skip(1), at)
    }
}

/// Deleting one symlink keeps every link at another path present.
pub proof fn lemma_remove_link_keeps_others(
    s: Seq<(String, String)>,
    x: Seq<char>,
    at: Seq<char>,
    to: Seq<char>,
)
    requires
        link_present(s, at, to),
        at != x,
    ensures
        link_present(remove_first_link(s, x), at, to),
    decreases s.len(),
{
    let t = remove_first_link(s, x);
    let i = choose|i: int| 0 <= i < s.len() && (#[trigger] s[i]).0@ == at && s[i].1@ == to;
    if s[0].0@ == x {
        assert(i != 0);
        assert(s.skip(1)[i - 1] == s[i]);
        assert(link_present(t, at, to)) by {
            assert(t[i - 1].0@ == at && t[i - 1].1@ == to);
        }
    } else if i == 0 {
        assert(link_present(t, at, to)) by {
            assert(t[0].0@ == at && t[0].1@ == to);
        }
    } else {
        assert(link_present(s.skip(1), at, to)) by {
            assert(s.skip(1)[i - 1].0@ == at && s.skip(1)[i - 1].1@ == to);
        }
        lemma_remove_link_keeps_others(s.skip(1), x, at, to);
        let u = remove_first_link(s.skip(1), x);
        let j = choose|j: int| 0 <= j < u.len() && (#[trigger] u[j]).0@ == at && u[j].1@ == to;
        assert(link_present(t, at, to)) by {
            assert(t[j + 1] == u[j]);
        }
    }
}

fn remove_link(v: &mut Vec<(String, String)>, at: &str)
    ensures
        final(v)@ == remove_first_link(old(v)@, at@),
{
    let ghost orig = old(v)@;
    let ats = String::from_str(at);
    let mut i: usize = 0;
    while i < v.len()
        invariant
            i <= v@.len(),
            v@ == orig,
            old(v)@ == orig,
            ats@ == at@,
            forall|m: int| 0 <= m < i ==> (#[trigger] orig[m]).0@ != at@,
        decreases v@.len() - i,
    {
        if v[i].0.eq(&ats) {
            v.remove(i);
            proof {
                lemma_remove_link_at(orig, at@, i as int);
                assert(v@ =~= orig.subrange(0, i as int) + orig.skip(i + 1));
            }
            return ;
        }
        i += 1;
    }
    proof {
        lemma_remove_link_absent(orig, at@);
    }
}

proof fn lemma_remove_link_at(s: Seq<(String, String)>, at: Seq<char>, i: int)
    requires
        0 <= i < s.len(),
        s[i].0@ == at,
        forall|m: int| 0 <= m < i ==> (#[trigger] s[m]).0@ != at,
    ensures
        remove_first_link(s, at) == s.subrange(0, i) + s.skip(i + 1),
    decreases i,
{
    if i == 0 {
        assert(s.subrange(0, 0) + s.skip(1) =~= s.skip(1));
    } else {
        let t = s.skip(1);
        assert(forall|m: int| 0 <= m < i - 1 ==> #[trigger] t[m] == s[m + 1]);
        assert(t[i - 1] == s[i]);
        lemma_remove_link_at(t, at, i - 1);
        assert(seq![s[0]] + (t.subrange(0, i - 1) + t.skip(i)) =~= s.subrange(0, i) + s.skip(
            i + 1,
        ));
    }
}

proof fn lemma_remove_link_absent(s: Seq<(String, String)>, at: Seq<char>)
    requires
        forall|m: int| 0 <= m < s.len() ==> (#[trigger] s[m]).0@ != at,
    ensures
        remove_first_link(s, at) == s,
    decreases s.len(),
{
    if s.len() > 0 {
        let t = s.skip(1);
        assert(forall|m: int| 0 <= m < t.len() ==> #[trigger] t[m] == s[m + 1]);
        lemma_remove_link_absent(t, at);
        assert(seq![s[0]] + t =~= s);
    }
}

impl SystemModel {
    /// Commits a finished install stamped with the current time.
    ///
    /// Like [`SystemModel::install_commit`], with the install timestamp
    /// read from the clock; the ledger is as recorded for some date.
    pub fn install_commit_now(
        &mut self,
        staged: InstalledPackage,
        checksum: String,
        bin_path: String,
        with_family: bool,
    )
        requires
            sys_wf(old(self)),
            !staged.is_installed,
            staged.installed_date is None,
            checksum@.len() >= 8,
            contains_text(old(self).dirs@, staged.installed_path@),
        ensures
            sys_wf(final(self)),
            exists|date: String|
                final(self).ledger.packages@ == record_spec(
                    upsert_spec(old(self).ledger.packages@, staged),
                    staged.repo_name@,
                    staged.pkg_id@,
                    staged.pkg_name@,
                    checksum,
                    bin_path,
                    date,
                    with_family,
                ),
    {
        let date = current_timestamp();
        let ghost d = date;
        self.install_commit(staged, checksum, bin_path, date, with_family);
        proof {
            assert(final(self).ledger.packages@ == record_spec(
                upsert_spec(old(self).ledger.packages@, staged),
                staged.repo_name@,
                staged.pkg_id@,
                staged.pkg_name@,
                checksum,
                bin_path,
                d,
                with_family,
            ));
        }
    }

    /// Re-points the launcher symlink of an installed package at the
    /// binary its ledger row records, leaving every other integration
    /// untouched.
    ///
    /// The row's launcher path must be its own — no other active row may
    /// link from it — so every other active row keeps its backing.
    pub fn use_package(&mut self, repo_name: &str, pkg_id: &str, pkg_name: &str) -> (r: Result<
        (),
        crate::error::SoarError,
    >)
        requires
            sys_wf(old(self)),
            ({
                let s = old(self).ledger.packages@;
                let idx = index_of_identity(s, repo_name@, pkg_id@, pkg_name@);
                idx < s.len() && s[idx].is_installed ==> forall|j: int|
                    0 <= j < s.len() && j != idx && (#[trigger] s[j]).is_installed ==> (s[
                        j
                    ].bin_path matches Some(b) ==> (s[idx].bin_path matches Some(c) ==> b@
                        != c@))
            }),
        ensures
            sys_wf(final(self)),
            final(self).ledger == old(self).ledger,
            final(self).dirs == old(self).dirs,
            final(self).files == old(self).files,
            r is Ok <==> active_identity(
                old(self).ledger.packages@,
                repo_name@,
                pkg_id@,
                pkg_name@,
            ),
            r is Err ==> final(self).links == old(self).links,
            r is Ok ==> ({
                let s = old(self).ledger.packages@;
                let idx = index_of_identity(s, repo_name@, pkg_id@, pkg_name@);
                let rest = remove_first_link(old(self).links@, s[idx].bin_path->0@);
                &&& final(self).links@.len() == rest.len() + 1
                &&& final(self).links@.drop_last() == rest
                &&& final(self).links@.last().0@ == s[idx].bin_path->0@
                &&& final(self).links@.last().1@ == row_bin_target(&s[idx])
            }),
    {
        let ghost oldm = *old(self);
        let ghost s0 = old(self).ledger.packages@;
        proof {
            lemma_index_of_identity(s0, repo_name@, pkg_id@, pkg_name@);
        }
        let idx = match self.ledger.find_package(repo_name, pkg_id, pkg_name) {
            Some(i) => i,
            None => {
                proof {
                    if active_identity(s0, repo_name@, pkg_id@, pkg_name@) {
                        let m = choose|m: int|
                            0 <= m < s0.len() && row_has_identity(
                                &#[trigger] s0[m],
                                repo_name@,
                                pkg_id@,
                                pkg_name@,
                            ) && s0[m].is_installed;
                        assert(has_identity(s0, repo_name@, pkg_id@, pkg_name@)) by {
                            assert(row_has_identity(&s0[m], repo_name@, pkg_id@, pkg_name@));
                        }
                    }
                }
                return Err(crate::error::SoarError::NotFound);
            },
        };
        let row = &self.ledger.packages[idx];
        if !row.is_installed {
            proof {
                if active_identity(s0, repo_name@, pkg_id@, pkg_name@) {
                    let m = choose|m: int|
                        0 <= m < s0.len() && row_has_identity(
                            &#[trigger] s0[m],
                            repo_name@,
                            pkg_id@,
                            pkg_name@,
                        ) && s0[m].is_installed;
                    crate::ledger::lemma_wf_identity_unique(
                        s0,
                        repo_name@,
                        pkg_id@,
                        pkg_name@,
                        idx as int,
                        m,
                    );
                }
            }
            return Err(crate::error::SoarError::NotFound);
        }
        proof {
            assert(active_identity(s0, repo_name@, pkg_id@, pkg_name@)) by {
                assert(row_has_identity(&s0[idx as int], repo_name@, pkg_id@, pkg_name@)
                    && s0[idx as int].is_installed);
            }
        }
        let launcher = match &row.bin_path {
            Some(b) => b.clone(),
            None => {
                return Err(crate::error::SoarError::LedgerCorrupt);
            },
        };
        let mut target = row.installed_path.clone();
        target.push('/');
        target.append(row.pkg_name.as_str());
        let ghost gone = s0[idx as int];
        remove_link(&mut self.links, launcher.as_str());
        self.links.push((launcher, target));
        proof {
            let s2 = self.ledger.packages@;
            assert(s2 == s0);
            assert forall|i: int|
                0 <= i < s2.len() && (#[trigger] s2[i]).is_installed implies row_backed(
                self,
                &s2[i],
            ) by {
                assert(row_backed(&oldm, &s0[i]));
                if i == idx {
                    assert(target@ =~= row_bin_target(&gone));
                    assert(link_present(self.links@, gone.bin_path->0@, row_bin_target(&gone)))
                        by {
                        assert(self.links@[self.links@.len() - 1].0@ == gone.bin_path->0@);
                    }
                } else {
                    lemma_remove_link_keeps_others(
                        oldm.links@,
                        gone.bin_path->0@,
                        s0[i].bin_path->0@,
                        row_bin_target(&s0[i]),
                    );
                    lemma_link_push(
                        remove_first_link(oldm.links@, gone.bin_path->0@),
                        self.links@[self.links@.len() - 1],
                        s0[i].bin_path->0@,
                        row_bin_target(&s0[i]),
                    );
                }
            }
        }
        Ok(())
    }

    /// Removes an installed package: its launcher symlink, its binary,
    /// its install directory and its ledger row, in that order.
    ///
    /// The row's paths must be its own — no other active row may share
    /// them — so every other active row keeps its backing.
    pub fn remove_package(&mut self, repo_name: &str, pkg_id: &str, pkg_name: &str)
        requires
            sys_wf(old(self)),
            ({
                let s = old(self).ledger.packages@;
                let idx = index_of_identity(s, repo_name@, pkg_id@, pkg_name@);
                idx < s.len() ==> forall|j: int|
                    0 <= j < s.len() && j != idx && (#[trigger] s[j]).is_installed ==> s[
                        j
                    ].installed_path@ != s[idx].installed_path@ && row_bin_target(&s[j])
                        != row_bin_target(&s[idx]) && (s[j].bin_path matches Some(b) ==> (
                    s[idx].bin_path matches Some(c) ==> b@ != c@))
            }),
        ensures
            sys_wf(final(self)),
            final(self).ledger.packages@ == remove_spec(
                old(self).ledger.packages@,
                repo_name@,
                pkg_id@,
                pkg_name@,
            ),
            ({
                let s = old(self).ledger.packages@;
                let idx = index_of_identity(s, repo_name@, pkg_id@, pkg_name@);
                if idx < s.len() {
                    &&& final(self).dirs@ == remove_first_text(
                        old(self).dirs@,
                        s[idx].installed_path@,
                    )
                    &&& final(self).files@ == remove_first_text(
                        old(self).files@,
                        row_bin_target(&s[idx]),
                    )
                    &&& (s[idx].bin_path matches Some(b) ==> final(self).links@
                        == remove_first_link(old(self).links@, b@))
                    &&& (s[idx].bin_path is None ==> final(self).links == old(self).links)
                } else {
                    &&& final(self).dirs == old(self).dirs
                    &&& final(self).files == old(self).files
                    &&& final(self).links == old(self).links
                }
            }),
    {
        let ghost oldm = *old(self);
        let ghost s0 = old(self).ledger.packages@;
        proof {
            lemma_index_of_identity(s0, repo_name@, pkg_id@, pkg_name@);
        }
        let idx = match self.ledger.find_package(repo_name, pkg_id, pkg_name) {
            Some(i) => i,
            None => {
                return ;
            },
        };
        let ghost gone = s0[idx as int];
        let row_bin: Option<String> = match &self.ledger.packages[idx].bin_path {
            Some(b) => Some(b.clone()),
            None => None,
        };
        let row_dir = self.ledger.packages[idx].installed_path.clone();
        let mut target = row_dir.clone();
        target.push('/');
        target.append(self.ledger.packages[idx].pkg_name.as_str());
        if let Some(b) = &row_bin {
            remove_link(&mut self.links, b.as_str());
        }
        remove_text(&mut self.files, target.as_str());
        remove_text(&mut self.dirs, row_dir.as_str());
        self.ledger.unregister_package(repo_name, pkg_id, pkg_name);
        proof {
            assert(target@ =~= row_bin_target(&gone));
            let s2 = self.ledger.packages@;
            assert forall|i: int|
                0 <= i < s2.len() && (#[trigger] s2[i]).is_installed implies row_backed(
                self,
                &s2[i],
            ) by {
                let oi = if i < idx {
                    i
                } else {
                    i + 1
                };
                assert(s2[i] == s0[oi]);
                assert(oi != idx);
                assert(row_backed(&oldm, &s0[oi]));
                lemma_remove_first_keeps_others(
                    oldm.dirs@,
                    gone.installed_path@,
                    s0[oi].installed_path@,
                );
                lemma_remove_first_keeps_others(
                    oldm.files@,
                    row_bin_target(&gone),
                    row_bin_target(&s0[oi]),
                );
                match gone.bin_path {
                    Some(gb) => {
                        lemma_remove_link_keeps_others(
                            oldm.links@,
                            gb@,
                            s0[oi].bin_path->0@,
                            row_bin_target(&s0[oi]),
                        );
                    },
                    None => {},
                }
            }
        }
    }
}

proof fn lemma_contains_push(s: Seq<String>, x: String, y: Seq<char>)
    requires
        contains_text(s, y),
    ensures
        contains_text(s.push(x), y),
{
    let i = choose|i: int| 0 <= i < s.len() && (#[trigger] s[i])@ == y;
    assert(s.push(x)[i]@ == y);
}

proof fn lemma_link_push(
    s: Seq<(String, String)>,
    x: (String, String),
    at: Seq<char>,
    to: Seq<char>,
)
    requires
        link_present(s, at, to),
    ensures
        link_present(s.push(x), at, to),
{
    let i = choose|i: int| 0 <= i < s.len() && (#[trigger] s[i]).0@ == at && s[i].1@ == to;
    assert(s.push(x)[i].0@ == at && s.push(x)[i].1@ == to);
}

} // verus!
