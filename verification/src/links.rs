//! The symlink farm: the single policy deciding when a symlink may be
//! created, replaced or removed.
//!
//! The system owns a symlink when it carries the `user.managed_by = soar`
//! extended attribute or its target resolves under the packages root.
//! Anything else is never touched: the policy answers `NotOurs` instead.

use vstd::prelude::*;

use crate::like::starts_with;

verus! {

/// What the filesystem shows at a path about to receive a symlink.
pub struct LinkState {
    /// Whether anything exists at the path.
    pub exists: bool,
    /// Whether the existing entry is a symlink.
    pub is_symlink: bool,
    /// The value of the entry's `user.managed_by` attribute, if any.
    pub managed_by: Option<String>,
    /// The symlink's target, if the entry is a symlink.
    pub target: Option<String>,
}

/// What the caller must do at the path.
pub enum LinkAction {
    /// Create the symlink and set the given ownership marker on it.
    Create(String),
    /// Remove the owned entry, then create the symlink and set the given
    /// ownership marker on it.
    ReplaceThenCreate(String),
    /// Touch nothing: the entry is not managed by this system.
    RefuseNotOurs,
}

/// Whether the existing entry is owned by the system: a symlink carrying
/// the ownership marker, or one whose target lies under the packages
/// root.
pub open spec fn owned_entry(st: &LinkState, packages_root: Seq<char>) -> bool {
    st.is_symlink && ((st.managed_by matches Some(m) && m@ == "soar"@) || (
    st.target matches Some(t) && starts_with(t@, packages_root)))
}

/// Decides how to place a symlink at a path in state `st`.
///
/// Every creation instruction carries the `soar` ownership marker, so
/// every symlink the system creates is recognizably its own; an existing
/// entry is removed only when the system owns it.
pub fn ensure_link_action(st: &LinkState, packages_root: &str) -> (r: LinkAction)
    ensures
        !st.exists ==> (r matches LinkAction::Create(m) && m@ == "soar"@),
        st.exists && owned_entry(st, packages_root@) ==> (r
            matches LinkAction::ReplaceThenCreate(m) && m@ == "soar"@),
        st.exists && !owned_entry(st, packages_root@) ==> r is RefuseNotOurs,
{
    if !st.exists {
        return LinkAction::Create(String::from_str("soar"));
    }
    if st.is_symlink {
        let marker_ok = match &st.managed_by {
            Some(m) => m.eq(&String::from_str("soar")),
            None => false,
        };
        if marker_ok {
            return LinkAction::ReplaceThenCreate(String::from_str("soar"));
        }
        let target_ok = match &st.target {
            Some(t) => prefix_of(packages_root, t.as_str()),
            None => false,
        };
        if target_ok {
            return LinkAction::ReplaceThenCreate(String::from_str("soar"));
        }
    }
    LinkAction::RefuseNotOurs
}

/// What the caller must do when removing an integration entry.
pub enum RemoveAction {
    /// Nothing exists at the path.
    Skip,
    /// Remove the owned entry.
    Remove,
    /// Touch nothing: the entry is not managed by this system.
    RefuseNotOurs,
}

/// Decides whether an integration entry may be removed: only entries the
/// system owns are ever deleted.
pub fn remove_link_action(st: &LinkState, packages_root: &str) -> (r: RemoveAction)
    ensures
        !st.exists ==> r is Skip,
        st.exists && owned_entry(st, packages_root@) ==> r is Remove,
        st.exists && !owned_entry(st, packages_root@) ==> r is RefuseNotOurs,
{
    if !st.exists {
        return RemoveAction::Skip;
    }
    if st.is_symlink {
        let marker_ok = match &st.managed_by {
            Some(m) => m.eq(&String::from_str("soar")),
            None => false,
        };
        if marker_ok {
            return RemoveAction::Remove;
        }
        let target_ok = match &st.target {
            Some(t) => prefix_of(packages_root, t.as_str()),
            None => false,
        };
        if target_ok {
            return RemoveAction::Remove;
        }
    }
    RemoveAction::RefuseNotOurs
}

/// Whether `pre` is a prefix of `s`.
fn prefix_of(pre: &str, s: &str) -> (r: bool)
    ensures
        r == starts_with(s@, pre@),
{
    let pc = crate::text::str_chars(pre);
    let sc = crate::text::str_chars(s);
    if sc.len() < pc.len() {
        return false;
    }
    let mut i: usize = 0;
    while i < pc.len()
        invariant
            i <= pc@.len() <= sc@.len(),
            pc@ == pre@,
            sc@ == s@,
            forall|j: int| 0 <= j < i ==> sc@[j] == pc@[j],
        decreases pc@.len() - i,
    {
        if sc[i] != pc[i] {
            proof {
                assert(s@.subrange(0, pre@.len() as int)[i as int] == s@[i as int]);
            }
            return false;
        }
        i += 1;
    }
    proof {
        assert(s@.subrange(0, pre@.len() as int) =~= pre@);
    }
    true
}

/// An entry found while scanning an owned symlink directory.
pub struct ScanEntry {
    /// The entry's path.
    pub path: String,
    /// Whether the path resolves to a regular file.
    pub is_file: bool,
    /// Whether the path resolves to a directory.
    pub is_dir: bool,
}

/// Whether `sub` occurs inside `s`.
pub open spec fn has_substring(s: Seq<char>, sub: Seq<char>) -> bool {
    exists|k: int|
        0 <= k <= s.len() - sub.len() && #[trigger] s.subrange(k, k + sub.len()) == sub
}

pub fn contains_sub(s: &str, sub: &str) -> (r: bool)
    ensures
        r == has_substring(s@, sub@),
{
    let sc = crate::text::str_chars(s);
    let bc = crate::text::str_chars(sub);
    if bc.len() == 0 {
        proof {
            let kk: int = 0;
            assert(s@.subrange(kk, kk + sub@.len()) =~= sub@);
            assert(has_substring(s@, sub@));
        }
        return true;
    }
    if bc.len() > sc.len() {
        proof {
            assert(!has_substring(s@, sub@));
        }
        return false;
    }
    let mut k: usize = 0;
    while k <= sc.len() - bc.len()
        invariant
            1 <= bc@.len() <= sc@.len(),
            sc@.len() <= usize::MAX,
            k <= sc@.len() - bc@.len() + 1,
            sc@ == s@,
            bc@ == sub@,
            forall|m: int| 0 <= m < k ==> #[trigger] s@.subrange(m, m + sub@.len()) != sub@,
        decreases sc@.len() - bc@.len() + 1 - k,
    {
        let mut i: usize = 0;
        let mut matches_here = true;
        while i < bc.len()
            invariant
                i <= bc@.len(),
                k + bc@.len() <= sc@.len(),
                sc@.len() <= usize::MAX,
                sc@ == s@,
                bc@ == sub@,
                matches_here ==> forall|j: int| 0 <= j < i ==> s@[k + j] == sub@[j],
                !matches_here ==> s@.subrange(k as int, k + sub@.len()) != sub@,
            decreases bc@.len() - i,
        {
            if sc[k + i] != bc[i] {
                matches_here = false;
                proof {
                    assert(s@.subrange(k as int, k + sub@.len())[i as int] == s@[k + i]);
                }
                i = bc.len();
            } else {
                i += 1;
            }
        }
        if matches_here {
            proof {
                assert(has_substring(s@, sub@)) by {
                    assert(s@.subrange(k as int, k + sub@.len()) =~= sub@);
                }
            }
            return true;
        }
        k += 1;
    }
    proof {
        if has_substring(s@, sub@) {
            let m = choose|m: int|
                0 <= m <= s@.len() - sub@.len() && #[trigger] s@.subrange(m, m + sub@.len())
                    == sub@;
            assert(s@.subrange(m, m + sub@.len()) != sub@);
        }
    }
    false
}

/// Whether a scanned entry is a broken symlink to be deleted: it resolves
/// to neither a file nor a directory, and, when a filter is given, its
/// path contains the filter.
pub open spec fn should_delete(e: &ScanEntry, filter: Option<&String>) -> bool {
    !e.is_file && !e.is_dir && (match filter {
        Some(f) => has_substring(e.path@, f@),
        None => true,
    })
}

/// Plans the cleanup of a scanned directory: returns exactly the paths of
/// the broken symlinks to delete, in scan order.
pub fn remove_broken_symlinks(entries: Vec<ScanEntry>, filter: Option<&String>) -> (r: Vec<
    String,
>)
    ensures
        r@ == broken_paths(entries@, filter),
{
    let ghost orig = entries@;
    let mut entries = entries;
    let mut out: Vec<String> = Vec::new();
    proof {
        assert(out@ + broken_paths(entries@, filter) =~= broken_paths(orig, filter));
    }
    while entries.len() > 0
        invariant
            out@ + broken_paths(entries@, filter) == broken_paths(orig, filter),
        decreases entries@.len(),
    {
        let ghost before = entries@;
        let e = entries.remove(0);
        proof {
            assert(before[0] == e);
            assert(entries@ =~= before.skip(1));
        }
        let broken = !e.is_file && !e.is_dir;
        let matches_filter = match filter {
            Some(f) => contains_sub(e.path.as_str(), f.as_str()),
            None => true,
        };
        if broken && matches_filter {
            out.push(e.path);
            proof {
                assert(should_delete(&before[0], filter));
                assert(out@ + broken_paths(entries@, filter) =~= broken_paths(orig, filter));
            }
        } else {
            proof {
                assert(!should_delete(&before[0], filter));
            }
        }
    }
    proof {
        assert(broken_paths(entries@, filter) =~= Seq::<String>::empty());
        assert(out@ =~= broken_paths(orig, filter));
    }
    out
}

/// The paths of the entries to delete, in order.
pub open spec fn broken_paths(s: Seq<ScanEntry>, filter: Option<&String>) -> Seq<String>
    decreases s.len(),
{
    if s.len() == 0 {
        Seq::empty()
    } else if should_delete(&s[0], filter) {
        seq![s[0].path] + broken_paths(s.skip(1), filter)
    } else {
        broken_paths(s.skip(1), filter)
    }
}

} // verus!
