//! The catalog query builder and its evaluation semantics.
//!
//! A query is a conjunction of `AND` clauses with an optional `OR` group
//! (including clauses over the `provides` mapping's target names), a stable
//! multi-key sort order, and pagination.  The same builder serves the
//! remote catalog and the install ledger.

use vstd::prelude::*;

use crate::like::{ilike_match, ilike_matches, like_match, like_matches};
use crate::package::Package;

verus! {

/// A filter on one column.
#[derive(Clone)]
pub enum FilterCondition {
    /// Exact text equality.
    Eq(String),
    /// Case-sensitive `LIKE` pattern.
    Like(String),
    /// Case-insensitive `LIKE` pattern.
    ILike(String),
    /// Numeric strictly-greater.
    Gt(u64),
    /// Numeric strictly-less.
    Lt(u64),
    /// Numeric inclusive range.
    Between(u64, u64),
}

/// Sort direction of one key.
#[derive(Clone, Copy, PartialEq, Eq, Structural)]
pub enum SortDirection {
    Asc,
    Desc,
}

/// The value a named column takes on a row: text, a number, or nothing
/// (an unset optional field, or an unknown column).
pub enum ColVal {
    Missing,
    Num(u64),
    Text(Seq<char>),
}

/// The value of column `col` on row `p`.
pub open spec fn col_val(p: &Package, col: Seq<char>) -> ColVal {
    if col == "repo_name"@ {
        ColVal::Text(p.repo_name@)
    } else if col == "pkg"@ {
        ColVal::Text(p.pkg@)
    } else if col == "pkg_id"@ {
        ColVal::Text(p.pkg_id@)
    } else if col == "pkg_name"@ {
        ColVal::Text(p.pkg_name@)
    } else if col == "description"@ {
        ColVal::Text(p.description@)
    } else if col == "version"@ {
        ColVal::Text(p.version@)
    } else if col == "pkg_type"@ {
        ColVal::Text(p.pkg_type@)
    } else if col == "download_url"@ {
        ColVal::Text(p.download_url@)
    } else if col == "bsum"@ {
        ColVal::Text(p.bsum@)
    } else if col == "shasum"@ {
        ColVal::Text(p.shasum@)
    } else if col == "version_upstream"@ {
        match p.version_upstream {
            Some(v) => ColVal::Text(v@),
            None => ColVal::Missing,
        }
    } else if col == "size"@ {
        ColVal::Num(p.size)
    } else if col == "ghcr_size"@ {
        match p.ghcr_size {
            Some(v) => ColVal::Num(v),
            None => ColVal::Missing,
        }
    } else if col == "rank"@ {
        match p.rank {
            Some(v) => ColVal::Num(v),
            None => ColVal::Missing,
        }
    } else if col == "download_count_week"@ {
        match p.download_count_week {
            Some(v) => ColVal::Num(v),
            None => ColVal::Missing,
        }
    } else {
        ColVal::Missing
    }
}

/// Whether a condition holds of a column value.  Text conditions hold only
/// of text values, numeric conditions only of numbers.
pub open spec fn cond_holds_val(v: ColVal, cond: FilterCondition) -> bool {
    match cond {
        FilterCondition::Eq(x) => v matches ColVal::Text(s) && s == x@,
        FilterCondition::Like(x) => v matches ColVal::Text(s) && like_match(x@, s),
        FilterCondition::ILike(x) => v matches ColVal::Text(s) && ilike_match(x@, s),
        FilterCondition::Gt(n) => v matches ColVal::Num(m) && m > n,
        FilterCondition::Lt(n) => v matches ColVal::Num(m) && m < n,
        FilterCondition::Between(a, b) => v matches ColVal::Num(m) && a <= m && m <= b,
    }
}

/// Whether the clause `(col, cond)` holds of row `p`.
pub open spec fn clause_holds(p: &Package, col: Seq<char>, cond: FilterCondition) -> bool {
    cond_holds_val(col_val(p, col), cond)
}

/// Whether some name in `list` satisfies the condition as text.
pub open spec fn some_target_matches(list: Seq<String>, cond: FilterCondition) -> bool {
    exists|i: int|
        0 <= i < list.len() && cond_holds_val(ColVal::Text((#[trigger] list[i])@), cond)
}

/// Whether a `provides` clause holds: some declared target name satisfies
/// the condition.
pub open spec fn provides_clause_holds(p: &Package, cond: FilterCondition) -> bool {
    match p.provides {
        Some(list) => some_target_matches(list@, cond),
        None => false,
    }
}

/// Whether every `AND` clause holds of `p`.
pub open spec fn and_clauses_hold(p: &Package, cs: Seq<(String, FilterCondition)>) -> bool {
    forall|i: int|
        0 <= i < cs.len() ==> clause_holds(p, (#[trigger] cs[i]).0@, cs[i].1)
}

/// Whether some `OR` clause holds of `p`.
pub open spec fn some_or_clause_holds(p: &Package, cs: Seq<(String, FilterCondition)>) -> bool {
    exists|i: int|
        0 <= i < cs.len() && clause_holds(p, (#[trigger] cs[i]).0@, cs[i].1)
}

/// Whether some `provides` clause of the `OR` group holds of `p`.
pub open spec fn some_provides_clause_holds(p: &Package, cs: Seq<FilterCondition>) -> bool {
    exists|i: int| 0 <= i < cs.len() && provides_clause_holds(p, #[trigger] cs[i])
}

/// The catalog query builder.
pub struct PackageQueryBuilder {
    /// Clauses combined with `AND`.
    pub and_clauses: Vec<(String, FilterCondition)>,
    /// Clauses combined with `OR` among themselves.
    pub or_clauses: Vec<(String, FilterCondition)>,
    /// `OR` clauses over the `provides` mapping's target names.
    pub provides_or_clauses: Vec<FilterCondition>,
    /// Sort keys, in call order; earlier keys dominate.
    pub sorts: Vec<(String, SortDirection)>,
    /// Restricted projection, advisory for the backend; rows returned by
    /// the evaluator always carry every column.
    pub selected: Option<Vec<String>>,
    /// Page size; no limit when unset.
    pub limit: Option<u32>,
    /// Page number, 1-based.
    pub page: u32,
}

/// The full predicate of a builder: every `AND` clause, and, when the `OR`
/// group is non-empty, at least one of its clauses.
pub open spec fn row_matches(b: &PackageQueryBuilder, p: &Package) -> bool {
    and_clauses_hold(p, b.and_clauses@) && (b.or_clauses@.len() + b.provides_or_clauses@.len()
        == 0 || some_or_clause_holds(p, b.or_clauses@) || some_provides_clause_holds(
        p,
        b.provides_or_clauses@,
    ))
}

/// The rows of `rows` that satisfy the predicate, in order.
pub open spec fn matching(b: &PackageQueryBuilder, rows: Seq<Package>) -> Seq<Package>
    decreases rows.len(),
{
    if rows.len() == 0 {
        Seq::empty()
    } else if row_matches(b, &rows[0]) {
        seq![rows[0]] + matching(b, rows.skip(1))
    } else {
        matching(b, rows.skip(1))
    }
}

impl PackageQueryBuilder {
    /// A builder with no clauses, no sort keys, no projection, no limit,
    /// on page 1.
    pub fn new() -> (r: PackageQueryBuilder)
        ensures
            r.and_clauses@.len() == 0,
            r.or_clauses@.len() == 0,
            r.provides_or_clauses@.len() == 0,
            r.sorts@.len() == 0,
            r.selected is None,
            r.limit is None,
            r.page == 1,
    {
        PackageQueryBuilder {
            and_clauses: Vec::new(),
            or_clauses: Vec::new(),
            provides_or_clauses: Vec::new(),
            sorts: Vec::new(),
            selected: None,
            limit: None,
            page: 1,
        }
    }

    /// Adds a clause to the `AND` group.
    pub fn where_and(self, column: &str, cond: FilterCondition) -> (r: PackageQueryBuilder)
        ensures
            r.and_clauses@.len() == self.and_clauses@.len() + 1,
            forall|i: int|
                0 <= i < self.and_clauses@.len() ==> r.and_clauses@[i] == self.and_clauses@[i],
            r.and_clauses@.last().0@ == column@,
            r.and_clauses@.last().1 == cond,
            r.or_clauses == self.or_clauses,
            r.provides_or_clauses == self.provides_or_clauses,
            r.sorts == self.sorts,
            r.selected == self.selected,
            r.limit == self.limit,
            r.page == self.page,
    {
        let mut s = self;
        s.and_clauses.push((String::from_str(column), cond));
        s
    }

    /// Adds a clause to the `OR` group.
    pub fn where_or(self, column: &str, cond: FilterCondition) -> (r: PackageQueryBuilder)
        ensures
            r.or_clauses@.len() == self.or_clauses@.len() + 1,
            forall|i: int|
                0 <= i < self.or_clauses@.len() ==> r.or_clauses@[i] == self.or_clauses@[i],
            r.or_clauses@.last().0@ == column@,
            r.or_clauses@.last().1 == cond,
            r.and_clauses == self.and_clauses,
            r.provides_or_clauses == self.provides_or_clauses,
            r.sorts == self.sorts,
            r.selected == self.selected,
            r.limit == self.limit,
            r.page == self.page,
    {
        let mut s = self;
        s.or_clauses.push((String::from_str(column), cond));
        s
    }

    /// Adds an `OR` clause over the target names of the `provides`
    /// mapping.
    pub fn json_where_or(self, cond: FilterCondition) -> (r: PackageQueryBuilder)
        ensures
            r.provides_or_clauses@ == self.provides_or_clauses@.push(cond),
            r.and_clauses == self.and_clauses,
            r.or_clauses == self.or_clauses,
            r.sorts == self.sorts,
            r.selected == self.selected,
            r.limit == self.limit,
            r.page == self.page,
    {
        let mut s = self;
        s.provides_or_clauses.push(cond);
        s
    }

    /// Appends a sort key; keys given earlier dominate.
    pub fn sort_by(self, column: &str, dir: SortDirection) -> (r: PackageQueryBuilder)
        ensures
            r.sorts@.len() == self.sorts@.len() + 1,
            forall|i: int| 0 <= i < self.sorts@.len() ==> r.sorts@[i] == self.sorts@[i],
            r.sorts@.last().0@ == column@,
            r.sorts@.last().1 == dir,
            r.and_clauses == self.and_clauses,
            r.or_clauses == self.or_clauses,
            r.provides_or_clauses == self.provides_or_clauses,
            r.selected == self.selected,
            r.limit == self.limit,
            r.page == self.page,
    {
        let mut s = self;
        s.sorts.push((String::from_str(column), dir));
        s
    }

    /// Restricts the projection the backend fetches; advisory here.
    pub fn select(self, columns: Vec<String>) -> (r: PackageQueryBuilder)
        ensures
            r.selected == Some(columns),
            r.and_clauses == self.and_clauses,
            r.or_clauses == self.or_clauses,
            r.provides_or_clauses == self.provides_or_clauses,
            r.sorts == self.sorts,
            r.limit == self.limit,
            r.page == self.page,
    {
        let mut s = self;
        s.selected = Some(columns);
        s
    }

    /// Sets the page size.
    pub fn limit(self, n: u32) -> (r: PackageQueryBuilder)
        ensures
            r.limit == Some(n),
            r.and_clauses == self.and_clauses,
            r.or_clauses == self.or_clauses,
            r.provides_or_clauses == self.provides_or_clauses,
            r.sorts == self.sorts,
            r.selected == self.selected,
            r.page == self.page,
    {
        let mut s = self;
        s.limit = Some(n);
        s
    }

    /// Moves to the given 1-based page.
    pub fn page(self, n: u32) -> (r: PackageQueryBuilder)
        requires
            n >= 1,
        ensures
            r.page == n,
            r.and_clauses == self.and_clauses,
            r.or_clauses == self.or_clauses,
            r.provides_or_clauses == self.provides_or_clauses,
            r.sorts == self.sorts,
            r.selected == self.selected,
            r.limit == self.limit,
    {
        let mut s = self;
        s.page = n;
        s
    }
}

fn get_col(p: &Package, col: &String) -> (r: ColValE)
    ensures
        match r {
            ColValE::Missing => col_val(p, col@) is Missing,
            ColValE::Num(n) => col_val(p, col@) == ColVal::Num(n),
            ColValE::Text(s) => col_val(p, col@) == ColVal::Text(s@),
        },
{
    if col.eq(&String::from_str("repo_name")) {
        ColValE::Text(p.repo_name.clone())
    } else if col.eq(&String::from_str("pkg")) {
        ColValE::Text(p.pkg.clone())
    } else if col.eq(&String::from_str("pkg_id")) {
        ColValE::Text(p.pkg_id.clone())
    } else if col.eq(&String::from_str("pkg_name")) {
        ColValE::Text(p.pkg_name.clone())
    } else if col.eq(&String::from_str("description")) {
        ColValE::Text(p.description.clone())
    } else if col.eq(&String::from_str("version")) {
        ColValE::Text(p.version.clone())
    } else if col.eq(&String::from_str("pkg_type")) {
        ColValE::Text(p.pkg_type.clone())
    } else if col.eq(&String::from_str("download_url")) {
        ColValE::Text(p.download_url.clone())
    } else if col.eq(&String::from_str("bsum")) {
        ColValE::Text(p.bsum.clone())
    } else if col.eq(&String::from_str("shasum")) {
        ColValE::Text(p.shasum.clone())
    } else if col.eq(&String::from_str("version_upstream")) {
        match &p.version_upstream {
            Some(v) => ColValE::Text(v.clone()),
            None => ColValE::Missing,
        }
    } else if col.eq(&String::from_str("size")) {
        ColValE::Num(p.size)
    } else if col.eq(&String::from_str("ghcr_size")) {
        match p.ghcr_size {
            Some(v) => ColValE::Num(v),
            None => ColValE::Missing,
        }
    } else if col.eq(&String::from_str("rank")) {
        match p.rank {
            Some(v) => ColValE::Num(v),
            None => ColValE::Missing,
        }
    } else if col.eq(&String::from_str("download_count_week")) {
        match p.download_count_week {
            Some(v) => ColValE::Num(v),
            None => ColValE::Missing,
        }
    } else {
        ColValE::Missing
    }
}

/// An executable column value; text is carried as an owned string.
pub enum ColValE {
    Missing,
    Num(u64),
    Text(String),
}

fn eval_cond_on(v: &ColValE, cond: &FilterCondition) -> (r: bool)
    ensures
        r == cond_holds_val(colvale_view(v), *cond),
{
    match cond {
        FilterCondition::Eq(x) => match v {
            ColValE::Text(s) => s.eq(x),
            _ => false,
        },
        FilterCondition::Like(x) => match v {
            ColValE::Text(s) => like_matches(x.as_str(), s.as_str()),
            _ => false,
        },
        FilterCondition::ILike(x) => match v {
            ColValE::Text(s) => ilike_matches(x.as_str(), s.as_str()),
            _ => false,
        },
        FilterCondition::Gt(n) => match v {
            ColValE::Num(m) => *m > *n,
            _ => false,
        },
        FilterCondition::Lt(n) => match v {
            ColValE::Num(m) => *m < *n,
            _ => false,
        },
        FilterCondition::Between(a, b) => match v {
            ColValE::Num(m) => *a <= *m && *m <= *b,
            _ => false,
        },
    }
}

/// The abstract value of an executable column value.
pub open spec fn colvale_view(v: &ColValE) -> ColVal {
    match v {
        ColValE::Missing => ColVal::Missing,
        ColValE::Num(n) => ColVal::Num(*n),
        ColValE::Text(s) => ColVal::Text(s@),
    }
}

/// Evaluates the full predicate of `b` on one row.
pub fn row_matches_exec(b: &PackageQueryBuilder, p: &Package) -> (r: bool)
    ensures
        r == row_matches(b, p),
{
    let mut i: usize = 0;
    while i < b.and_clauses.len()
        invariant
            i <= b.and_clauses@.len(),
            forall|j: int|
                0 <= j < i ==> clause_holds(p, (#[trigger] b.and_clauses@[j]).0@,
                b.and_clauses@[j].1),
        decreases b.and_clauses@.len() - i,
    {
        let (col, cond) = &b.and_clauses[i];
        let v = get_col(p, col);
        if !eval_cond_on(&v, cond) {
            proof {
                assert(!clause_holds(p, b.and_clauses@[i as int].0@, b.and_clauses@[i as int].1));
            }
            return false;
        }
        i += 1;
    }
    proof {
        assert(and_clauses_hold(p, b.and_clauses@));
    }
    if b.or_clauses.len() == 0 && b.provides_or_clauses.len() == 0 {
        return true;
    }
    let mut k: usize = 0;
    while k < b.or_clauses.len()
        invariant
            k <= b.or_clauses@.len(),
            and_clauses_hold(p, b.and_clauses@),
            b.or_clauses@.len() + b.provides_or_clauses@.len() > 0,
            forall|j: int|
                0 <= j < k ==> !clause_holds(p, (#[trigger] b.or_clauses@[j]).0@,
                b.or_clauses@[j].1),
        decreases b.or_clauses@.len() - k,
    {
        let (col, cond) = &b.or_clauses[k];
        let v = get_col(p, col);
        if eval_cond_on(&v, cond) {
            proof {
                assert(some_or_clause_holds(p, b.or_clauses@)) by {
                    assert(clause_holds(p, (b.or_clauses@[k as int]).0@,
                    b.or_clauses@[k as int].1));
                }
            }
            return true;
        }
        k += 1;
    }
    let mut m: usize = 0;
    while m < b.provides_or_clauses.len()
        invariant
            m <= b.provides_or_clauses@.len(),
            and_clauses_hold(p, b.and_clauses@),
            b.or_clauses@.len() + b.provides_or_clauses@.len() > 0,
            !some_or_clause_holds(p, b.or_clauses@),
            forall|j: int|
                0 <= j < m ==> !provides_clause_holds(p, #[trigger] b.provides_or_clauses@[j]),
        decreases b.provides_or_clauses@.len() - m,
    {
        let cond = &b.provides_or_clauses[m];
        if provides_clause_exec(p, cond) {
            proof {
                assert(some_provides_clause_holds(p, b.provides_or_clauses@)) by {
                    assert(provides_clause_holds(p, b.provides_or_clauses@[m as int]));
                }
            }
            return true;
        }
        m += 1;
    }
    proof {
        assert(!some_or_clause_holds(p, b.or_clauses@));
        assert(!some_provides_clause_holds(p, b.provides_or_clauses@));
    }
    false
}

fn provides_clause_exec(p: &Package, cond: &FilterCondition) -> (r: bool)
    ensures
        r == provides_clause_holds(p, *cond),
{
    let list = match &p.provides {
        Some(list) => list,
        None => {
            return false;
        },
    };
    proof {
        assert(p.provides == Some(*list));
    }
    let mut i: usize = 0;
    while i < list.len()
        invariant
            p.provides == Some(*list),
            i <= list@.len(),
            forall|j: int|
                0 <= j < i ==> !cond_holds_val(ColVal::Text((#[trigger] list@[j])@), *cond),
        decreases list@.len() - i,
    {
        let v = ColValE::Text(list[i].clone());
        if eval_cond_on(&v, cond) {
            proof {
                assert(some_target_matches(list@, *cond)) by {
                    assert(0 <= i < list@.len() && cond_holds_val(
                        ColVal::Text((list@[i as int])@),
                        *cond,
                    ));
                }
            }
            return true;
        }
        i += 1;
    }
    false
}

/// Whether `c` is a case-sensitive pattern for the prefix `lit`.
pub open spec fn is_prefix_like(c: FilterCondition, lit: Seq<char>) -> bool {
    c matches FilterCondition::Like(s) && s@ == lit + seq!['%']
}

/// Whether `c` is a case-insensitive pattern for the prefix `lit`.
pub open spec fn is_prefix_ilike(c: FilterCondition, lit: Seq<char>) -> bool {
    c matches FilterCondition::ILike(s) && s@ == lit + seq!['%']
}

/// Whether some declared target name of `p` begins with `lit`.
pub open spec fn some_target_starts_with(p: &Package, lit: Seq<char>) -> bool {
    match p.provides {
        Some(list) => exists|i: int|
            0 <= i < list@.len() && crate::like::starts_with((#[trigger] list@[i])@, lit),
        None => false,
    }
}

/// Whether some declared target name of `p` begins with `lit`, ignoring
/// case.
pub open spec fn some_target_starts_with_ci(p: &Package, lit: Seq<char>) -> bool {
    match p.provides {
        Some(list) => exists|i: int|
            0 <= i < list@.len() && crate::like::starts_with(
                crate::text::lower((#[trigger] list@[i])@),
                crate::text::lower(lit),
            ),
        None => false,
    }
}

/// Whether a builder is a prefix search over the four searched fields:
/// no `AND` clauses, and an `OR` group trying the same prefix pattern
/// against `pkg_name`, `pkg_id`, `pkg` and the provided target names.
pub open spec fn is_prefix_search(b: &PackageQueryBuilder, lit: Seq<char>, ci: bool) -> bool {
    &&& b.and_clauses@.len() == 0
    &&& b.or_clauses@.len() == 3
    &&& b.or_clauses@[0].0@ == "pkg_name"@
    &&& b.or_clauses@[1].0@ == "pkg_id"@
    &&& b.or_clauses@[2].0@ == "pkg"@
    &&& b.provides_or_clauses@.len() == 1
    &&& if ci {
        is_prefix_ilike(b.or_clauses@[0].1, lit) && is_prefix_ilike(b.or_clauses@[1].1, lit)
            && is_prefix_ilike(b.or_clauses@[2].1, lit) && is_prefix_ilike(
            b.provides_or_clauses@[0],
            lit,
        )
    } else {
        is_prefix_like(b.or_clauses@[0].1, lit) && is_prefix_like(b.or_clauses@[1].1, lit)
            && is_prefix_like(b.or_clauses@[2].1, lit) && is_prefix_like(
            b.provides_or_clauses@[0],
            lit,
        )
    }
}

proof fn lemma_search_columns_distinct()
    ensures
        "pkg_name"@ != "repo_name"@,
        "pkg_name"@ != "pkg"@,
        "pkg_name"@ != "pkg_id"@,
        "pkg_id"@ != "repo_name"@,
        "pkg_id"@ != "pkg"@,
        "pkg"@ != "repo_name"@,
{
    reveal_strlit("repo_name");
    reveal_strlit("pkg");
    reveal_strlit("pkg_id");
    reveal_strlit("pkg_name");
    assert("repo_name"@.len() == 9);
    assert("pkg"@.len() == 3);
    assert("pkg_id"@.len() == 6);
    assert("pkg_name"@.len() == 8);
}

/// A case-sensitive prefix search returns only rows whose `pkg_name`,
/// `pkg_id`, `pkg` or provided target name begins with the literal.
pub proof fn lemma_prefix_search_rows(b: &PackageQueryBuilder, p: &Package, lit: Seq<char>)
    requires
        forall|i: int| 0 <= i < lit.len() ==> lit[i] != '%' && lit[i] != '_',
        is_prefix_search(b, lit, false),
        row_matches(b, p),
    ensures
        crate::like::starts_with(p.pkg_name@, lit) || crate::like::starts_with(p.pkg_id@, lit)
            || crate::like::starts_with(p.pkg@, lit) || some_target_starts_with(p, lit),
{
    lemma_search_columns_distinct();
    if some_or_clause_holds(p, b.or_clauses@) {
        let i = choose|i: int|
            0 <= i < b.or_clauses@.len() && clause_holds(
                p,
                (#[trigger] b.or_clauses@[i]).0@,
                b.or_clauses@[i].1,
            );
        if i == 0 {
            assert(col_val(p, "pkg_name"@) == ColVal::Text(p.pkg_name@));
            crate::like::lemma_prefix_pattern(lit, p.pkg_name@);
        } else if i == 1 {
            assert(col_val(p, "pkg_id"@) == ColVal::Text(p.pkg_id@));
            crate::like::lemma_prefix_pattern(lit, p.pkg_id@);
        } else {
            assert(col_val(p, "pkg"@) == ColVal::Text(p.pkg@));
            crate::like::lemma_prefix_pattern(lit, p.pkg@);
        }
    } else {
        assert(some_provides_clause_holds(p, b.provides_or_clauses@));
        let i = choose|i: int|
            0 <= i < b.provides_or_clauses@.len() && provides_clause_holds(
                p,
                #[trigger] b.provides_or_clauses@[i],
            );
        assert(provides_clause_holds(p, b.provides_or_clauses@[0]));
        let list = p.provides->0;
        let j = choose|j: int|
            0 <= j < list@.len() && cond_holds_val(
                ColVal::Text((#[trigger] list@[j])@),
                b.provides_or_clauses@[0],
            );
        crate::like::lemma_prefix_pattern(lit, (list@[j])@);
        assert(crate::like::starts_with((list@[j])@, lit));
    }
}

/// A case-insensitive prefix search returns only rows whose `pkg_name`,
/// `pkg_id`, `pkg` or provided target name begins with the literal in any
/// case.
pub proof fn lemma_prefix_search_rows_ci(b: &PackageQueryBuilder, p: &Package, lit: Seq<char>)
    requires
        forall|i: int| 0 <= i < lit.len() ==> lit[i] != '%' && lit[i] != '_',
        is_prefix_search(b, lit, true),
        row_matches(b, p),
    ensures
        crate::like::starts_with(crate::text::lower(p.pkg_name@), crate::text::lower(lit))
            || crate::like::starts_with(crate::text::lower(p.pkg_id@), crate::text::lower(lit))
            || crate::like::starts_with(crate::text::lower(p.pkg@), crate::text::lower(lit))
            || some_target_starts_with_ci(p, lit),
{
    lemma_search_columns_distinct();
    if some_or_clause_holds(p, b.or_clauses@) {
        let i = choose|i: int|
            0 <= i < b.or_clauses@.len() && clause_holds(
                p,
                (#[trigger] b.or_clauses@[i]).0@,
                b.or_clauses@[i].1,
            );
        if i == 0 {
            assert(col_val(p, "pkg_name"@) == ColVal::Text(p.pkg_name@));
            crate::like::lemma_prefix_pattern_ilike(lit, p.pkg_name@);
        } else if i == 1 {
            assert(col_val(p, "pkg_id"@) == ColVal::Text(p.pkg_id@));
            crate::like::lemma_prefix_pattern_ilike(lit, p.pkg_id@);
        } else {
            assert(col_val(p, "pkg"@) == ColVal::Text(p.pkg@));
            crate::like::lemma_prefix_pattern_ilike(lit, p.pkg@);
        }
    } else {
        assert(some_provides_clause_holds(p, b.provides_or_clauses@));
        let i = choose|i: int|
            0 <= i < b.provides_or_clauses@.len() && provides_clause_holds(
                p,
                #[trigger] b.provides_or_clauses@[i],
            );
        assert(provides_clause_holds(p, b.provides_or_clauses@[0]));
        let list = p.provides->0;
        let j = choose|j: int|
            0 <= j < list@.len() && cond_holds_val(
                ColVal::Text((#[trigger] list@[j])@),
                b.provides_or_clauses@[0],
            );
        crate::like::lemma_prefix_pattern_ilike(lit, (list@[j])@);
        assert(crate::like::starts_with(
            crate::text::lower((list@[j])@),
            crate::text::lower(lit),
        ));
    }
}

/// The builder the package search runs: the query pattern tried against
/// `pkg_name`, `pkg_id`, `pkg` and the provided target names, with the
/// given result limit.
pub fn search_filter(query: &str, case_sensitive: bool, limit: u32) -> (b: PackageQueryBuilder)
    ensures
        b.and_clauses@.len() == 0,
        b.or_clauses@.len() == 3,
        b.or_clauses@[0].0@ == "pkg_name"@,
        b.or_clauses@[1].0@ == "pkg_id"@,
        b.or_clauses@[2].0@ == "pkg"@,
        b.provides_or_clauses@.len() == 1,
        case_sensitive ==> (b.or_clauses@[0].1 matches FilterCondition::Like(s) && s@ == query@),
        case_sensitive ==> (b.or_clauses@[1].1 matches FilterCondition::Like(s) && s@ == query@),
        case_sensitive ==> (b.or_clauses@[2].1 matches FilterCondition::Like(s) && s@ == query@),
        case_sensitive ==> (b.provides_or_clauses@[0] matches FilterCondition::Like(s) && s@
            == query@),
        !case_sensitive ==> (b.or_clauses@[0].1 matches FilterCondition::ILike(s) && s@
            == query@),
        !case_sensitive ==> (b.or_clauses@[1].1 matches FilterCondition::ILike(s) && s@
            == query@),
        !case_sensitive ==> (b.or_clauses@[2].1 matches FilterCondition::ILike(s) && s@
            == query@),
        !case_sensitive ==> (b.provides_or_clauses@[0] matches FilterCondition::ILike(s) && s@
            == query@),
        b.sorts@.len() == 0,
        b.selected is None,
        b.limit == Some(limit),
        b.page == 1,
{
    let b = PackageQueryBuilder::new().where_or("pkg_name", mk_search_cond(query, case_sensitive))
        .where_or("pkg_id", mk_search_cond(query, case_sensitive)).where_or(
        "pkg",
        mk_search_cond(query, case_sensitive),
    ).json_where_or(mk_search_cond(query, case_sensitive)).limit(limit);
    b
}

fn mk_search_cond(query: &str, case_sensitive: bool) -> (c: FilterCondition)
    ensures
        case_sensitive ==> (c matches FilterCondition::Like(s) && s@ == query@),
        !case_sensitive ==> (c matches FilterCondition::ILike(s) && s@ == query@),
{
    if case_sensitive {
        FilterCondition::Like(String::from_str(query))
    } else {
        FilterCondition::ILike(String::from_str(query))
    }
}

/// Strict lexicographic order on character sequences, by character code.
pub open spec fn seq_lt(a: Seq<char>, b: Seq<char>) -> bool
    decreases a.len() + b.len(),
{
    if b.len() == 0 {
        false
    } else if a.len() == 0 {
        true
    } else if a[0] != b[0] {
        a[0] < b[0]
    } else {
        seq_lt(a.skip(1), b.skip(1))
    }
}

/// Strict order on column values, as the relational backend sorts them:
/// missing values first, then numbers, then text.
pub open spec fn colval_lt(v: ColVal, w: ColVal) -> bool {
    match (v, w) {
        (ColVal::Missing, ColVal::Missing) => false,
        (ColVal::Missing, _) => true,
        (ColVal::Num(_), ColVal::Missing) => false,
        (ColVal::Num(m), ColVal::Num(n)) => m < n,
        (ColVal::Num(_), ColVal::Text(_)) => true,
        (ColVal::Text(s), ColVal::Text(t)) => seq_lt(s, t),
        (ColVal::Text(_), _) => false,
    }
}

/// Whether row `a` sorts strictly before row `b` under the given keys:
/// the first key whose column values differ decides, in its direction.
pub open spec fn row_lt(a: &Package, b: &Package, keys: Seq<(String, SortDirection)>) -> bool
    decreases keys.len(),
{
    if keys.len() == 0 {
        false
    } else {
        let va = col_val(a, keys[0].0@);
        let vb = col_val(b, keys[0].0@);
        if colval_lt(va, vb) {
            keys[0].1 is Asc
        } else if colval_lt(vb, va) {
            keys[0].1 is Desc
        } else {
            row_lt(a, b, keys.skip(1))
        }
    }
}

/// `x` inserted into `t` before every row it sorts strictly before, and
/// after every other: equal rows keep their arrival order.
pub open spec fn insert_sorted(
    t: Seq<Package>,
    x: Package,
    keys: Seq<(String, SortDirection)>,
) -> Seq<Package>
    decreases t.len(),
{
    if t.len() == 0 {
        seq![x]
    } else if row_lt(&x, &t.last(), keys) {
        insert_sorted(t.drop_last(), x, keys).push(t.last())
    } else {
        t.push(x)
    }
}

/// The stable multi-key sort of `s`: each row inserted in arrival order.
pub open spec fn sort_rows(s: Seq<Package>, keys: Seq<(String, SortDirection)>) -> Seq<Package>
    decreases s.len(),
{
    if s.len() == 0 {
        Seq::empty()
    } else {
        insert_sorted(sort_rows(s.drop_last(), keys), s.last(), keys)
    }
}

/// Sorting keeps the number of rows.
pub proof fn lemma_sort_len(s: Seq<Package>, keys: Seq<(String, SortDirection)>)
    ensures
        sort_rows(s, keys).len() == s.len(),
    decreases s.len(),
{
    if s.len() > 0 {
        lemma_sort_len(s.drop_last(), keys);
        lemma_insert_len(sort_rows(s.drop_last(), keys), s.last(), keys);
    }
}

proof fn lemma_insert_len(t: Seq<Package>, x: Package, keys: Seq<(String, SortDirection)>)
    ensures
        insert_sorted(t, x, keys).len() == t.len() + 1,
    decreases t.len(),
{
    if t.len() > 0 && row_lt(&x, &t.last(), keys) {
        lemma_insert_len(t.drop_last(), x, keys);
    }
}

proof fn lemma_insert_at(
    t: Seq<Package>,
    x: Package,
    keys: Seq<(String, SortDirection)>,
    j: int,
)
    requires
        0 <= j <= t.len(),
        forall|m: int| j <= m < t.len() ==> row_lt(&x, &#[trigger] t[m], keys),
        j == 0 || !row_lt(&x, &t[j - 1], keys),
    ensures
        insert_sorted(t, x, keys) == t.subrange(0, j) + seq![x] + t.subrange(
            j,
            t.len() as int,
        ),
    decreases t.len(),
{
    if t.len() == 0 {
        assert(insert_sorted(t, x, keys) =~= t.subrange(0, j) + seq![x] + t.subrange(
            j,
            t.len() as int,
        ));
    } else if j == t.len() {
        assert(!row_lt(&x, &t.last(), keys));
        assert(insert_sorted(t, x, keys) == t.push(x));
        assert(t.subrange(0, j) =~= t);
        assert(t.push(x) =~= t.subrange(0, j) + seq![x] + t.subrange(j, t.len() as int));
    } else {
        assert(row_lt(&x, &t[t.len() - 1], keys));
        let dl = t.drop_last();
        assert(forall|m: int| j <= m < dl.len() ==> dl[m] == t[m]);
        if j > 0 {
            assert(dl[j - 1] == t[j - 1]);
        }
        lemma_insert_at(dl, x, keys, j);
        assert(insert_sorted(t, x, keys) == (dl.subrange(0, j) + seq![x] + dl.subrange(
            j,
            dl.len() as int,
        )).push(t.last()));
        assert(dl.subrange(0, j) =~= t.subrange(0, j));
        assert((dl.subrange(0, j) + seq![x] + dl.subrange(j, dl.len() as int)).push(t.last())
            =~= t.subrange(0, j) + seq![x] + t.subrange(j, t.len() as int));
    }
}

fn seq_lt_exec(a: &Vec<char>, b: &Vec<char>, i: usize) -> (r: bool)
    requires
        i <= a@.len(),
        i <= b@.len(),
    ensures
        r == seq_lt(a@.skip(i as int), b@.skip(i as int)),
    decreases a@.len() - i + b@.len() - i,
{
    proof {
        if i < a@.len() {
            assert(a@.skip(i as int)[0] == a@[i as int]);
            assert(a@.skip(i as int).skip(1) =~= a@.skip(i + 1));
        }
        if i < b@.len() {
            assert(b@.skip(i as int)[0] == b@[i as int]);
            assert(b@.skip(i as int).skip(1) =~= b@.skip(i + 1));
        }
    }
    if i == b.len() {
        false
    } else if i == a.len() {
        true
    } else if a[i] != b[i] {
        a[i] < b[i]
    } else {
        seq_lt_exec(a, b, i + 1)
    }
}

fn colval_lt_exec(v: &ColValE, w: &ColValE) -> (r: bool)
    ensures
        r == colval_lt(colvale_view(v), colvale_view(w)),
{
    match (v, w) {
        (ColValE::Missing, ColValE::Missing) => false,
        (ColValE::Missing, _) => true,
        (ColValE::Num(_), ColValE::Missing) => false,
        (ColValE::Num(m), ColValE::Num(n)) => *m < *n,
        (ColValE::Num(_), ColValE::Text(_)) => true,
        (ColValE::Text(s), ColValE::Text(t)) => {
            let a = crate::text::str_chars(s.as_str());
            let b = crate::text::str_chars(t.as_str());
            proof {
                assert(a@.skip(0) =~= a@);
                assert(b@.skip(0) =~= b@);
            }
            seq_lt_exec(&a, &b, 0)
        },
        (ColValE::Text(_), _) => false,
    }
}

fn row_lt_exec(
    a: &Package,
    b: &Package,
    keys: &Vec<(String, SortDirection)>,
    i: usize,
) -> (r: bool)
    requires
        i <= keys@.len(),
    ensures
        r == row_lt(a, b, keys@.skip(i as int)),
    decreases keys@.len() - i,
{
    proof {
        if i < keys@.len() {
            assert(keys@.skip(i as int)[0] == keys@[i as int]);
            assert(keys@.skip(i as int).skip(1) =~= keys@.skip(i + 1));
        }
    }
    if i == keys.len() {
        false
    } else {
        let (col, dir) = &keys[i];
        let va = get_col(a, col);
        let vb = get_col(b, col);
        if colval_lt_exec(&va, &vb) {
            matches!(dir, SortDirection::Asc)
        } else if colval_lt_exec(&vb, &va) {
            matches!(dir, SortDirection::Desc)
        } else {
            row_lt_exec(a, b, keys, i + 1)
        }
    }
}

fn insert_row(out: &mut Vec<Package>, x: Package, keys: &Vec<(String, SortDirection)>)
    ensures
        final(out)@ == insert_sorted(old(out)@, x, keys@),
{
    let ghost t = out@;
    let mut j: usize = out.len();
    while j > 0 && row_lt_exec(&x, &out[j - 1], keys, 0)
        invariant
            j <= out@.len(),
            out@ == t,
            keys@.skip(0) =~= keys@,
            forall|m: int| j <= m < t.len() ==> row_lt(&x, &#[trigger] t[m], keys@),
        decreases j,
    {
        j -= 1;
    }
    proof {
        lemma_insert_at(t, x, keys@, j as int);
    }
    out.insert(j, x);
    proof {
        assert(t.insert(j as int, x) =~= t.subrange(0, j as int) + seq![x] + t.subrange(
            j as int,
            t.len() as int,
        ));
    }
}

/// Sorts rows by the given keys, stably: rows that compare equal keep
/// their input order.
pub fn sort_rows_exec(rows: Vec<Package>, keys: &Vec<(String, SortDirection)>) -> (r: Vec<
    Package,
>)
    ensures
        r@ == sort_rows(rows@, keys@),
{
    let ghost orig = rows@;
    let mut rows = rows;
    let mut out: Vec<Package> = Vec::new();
    let ghost done: int = 0;
    proof {
        assert(orig.subrange(0, 0) =~= Seq::<Package>::empty());
    }
    while rows.len() > 0
        invariant
            0 <= done <= orig.len(),
            rows@ =~= orig.subrange(done, orig.len() as int),
            out@ == sort_rows(orig.subrange(0, done), keys@),
        decreases rows@.len(),
    {
        let ghost before = rows@;
        let x = rows.remove(0);
        proof {
            assert(before[0] == x);
            assert(x == orig[done]);
            assert(rows@ =~= orig.subrange(done + 1, orig.len() as int));
        }
        insert_row(&mut out, x, keys);
        proof {
            let upto = orig.subrange(0, done + 1);
            assert(upto.drop_last() =~= orig.subrange(0, done));
            assert(upto.last() == orig[done]);
            assert(out@ == sort_rows(upto, keys@));
        }
        proof {
            done = done + 1;
        }
    }
    proof {
        assert(orig.subrange(0, done) =~= orig);
    }
    out
}

/// One page of query results.
pub struct PaginatedResponse<T> {
    /// The rows of the requested page, in sort order.
    pub items: Vec<T>,
    /// The 1-based page number.
    pub page: u32,
    /// The page size, when one was set.
    pub limit: Option<u32>,
    /// The number of rows matching the predicate, before pagination.
    pub total: u64,
    /// Whether a further page exists: `page * limit < total`.
    pub has_next: bool,
}

/// The rows of the 1-based page `page` of size `l` in `s`.
pub open spec fn page_slice(s: Seq<Package>, page: u32, l: u32) -> Seq<Package> {
    let lo = (page - 1) * l;
    let hi = lo + l;
    if lo >= s.len() {
        Seq::empty()
    } else if hi > s.len() {
        s.subrange(lo as int, s.len() as int)
    } else {
        s.subrange(lo as int, hi as int)
    }
}

impl PackageQueryBuilder {
    /// Evaluates the query against the given rows: filters by the
    /// predicate, sorts stably by the sort keys, and returns the requested
    /// page together with the unpaginated total.
    pub fn load(&self, rows: Vec<Package>) -> (r: PaginatedResponse<Package>)
        requires
            self.page >= 1,
        ensures
            ({
                let f = matching(self, rows@);
                let s = sort_rows(f, self.sorts@);
                r.total == f.len() && r.page == self.page && r.limit == self.limit && (match r
                    .limit {
                    Some(l) => r.items@ == page_slice(s, self.page, l) && r.has_next == ((
                    self.page as int) * (l as int) < f.len()),
                    None => r.items@ == s && !r.has_next,
                })
            }),
    {
        let kept = filter_rows(self, rows);
        proof {
            lemma_sort_len(kept@, self.sorts@);
        }
        let total_usize = kept.len();
        let mut sorted = sort_rows_exec(kept, &self.sorts);
        let total = total_usize as u64;
        match self.limit {
            Some(l) => {
                proof {
                    assert((self.page as int) * (l as int) <= u64::MAX) by (nonlinear_arith)
                        requires
                            self.page <= u32::MAX,
                            l <= u32::MAX,
                    ;
                    assert(((self.page - 1) as int) * (l as int) <= u64::MAX)
                        by (nonlinear_arith)
                        requires
                            1 <= self.page <= u32::MAX,
                            l <= u32::MAX,
                    ;
                }
                let lo64: u64 = ((self.page - 1) as u64) * (l as u64);
                let len64: u64 = sorted.len() as u64;
                let items: Vec<Package> = if lo64 >= len64 {
                    Vec::new()
                } else {
                    let mut tail = sorted.split_off(lo64 as usize);
                    tail.truncate(l as usize);
                    proof {
                        let s = sort_rows(matching(self, rows@), self.sorts@);
                        let lo = (self.page - 1) * (l as int);
                        if lo + l > s.len() {
                            assert(tail@ =~= page_slice(s, self.page, l));
                        } else {
                            assert(tail@ =~= page_slice(s, self.page, l));
                        }
                    }
                    tail
                };
                let next64: u64 = (self.page as u64) * (l as u64);
                PaginatedResponse {
                    items,
                    page: self.page,
                    limit: Some(l),
                    total,
                    has_next: next64 < total,
                }
            },
            None => PaginatedResponse {
                items: sorted,
                page: self.page,
                limit: None,
                total,
                has_next: false,
            },
        }
    }
}

/// Keeps exactly the rows satisfying the predicate, in order, consuming
/// the input.
pub fn filter_rows(b: &PackageQueryBuilder, rows: Vec<Package>) -> (r: Vec<Package>)
    ensures
        r@ == matching(b, rows@),
{
    let ghost orig = rows@;
    let mut rows = rows;
    let mut kept: Vec<Package> = Vec::new();
    proof {
        assert(orig.skip(0) =~= orig);
        assert(kept@ + matching(b, rows@) =~= matching(b, orig));
    }
    while rows.len() > 0
        invariant
            kept@ + matching(b, rows@) == matching(b, orig),
        decreases rows@.len(),
    {
        let ghost before = rows@;
        let p = rows.remove(0);
        proof {
            assert(before[0] == p);
            assert(rows@ =~= before.skip(1));
        }
        if row_matches_exec(b, &p) {
            kept.push(p);
            proof {
                assert(matching(b, before) == seq![before[0]] + matching(b, before.skip(1)));
                assert(kept@ + matching(b, rows@) =~= matching(b, orig));
            }
        } else {
            proof {
                assert(matching(b, before) == matching(b, before.skip(1)));
            }
        }
    }
    proof {
        assert(matching(b, rows@) =~= Seq::<Package>::empty());
        assert(kept@ =~= matching(b, orig));
    }
    kept
}

} // verus!
