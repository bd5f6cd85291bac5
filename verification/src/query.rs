//! Parsing and resolution of user package queries.
//!
//! A query has the shape `[<family>/]<name>[#<collection>]`: the part after
//! the last `#` selects a collection (lower-cased; an empty suffix is
//! ignored), and a `/` in the remainder splits a family prefix from the
//! package name.

use vstd::prelude::*;

use crate::error::SoarError;
use crate::text::{
    chars_to_string, find_char, find_from, lemma_digits_val_nonneg, lemma_find_from_bounds,
    lemma_rfind_bounds, lower, lower_char, parse_u64_range, rfind, rfind_char, str_chars,
    to_lower_char,
};

verus! {

/// A parsed user query.
pub struct PackageQuery {
    /// The package name searched for.
    pub name: String,
    /// The family namespace before a `/`, if any.
    pub family: Option<String>,
    /// The collection selected by a trailing `#<key>`, if any.
    pub collection: Option<String>,
}

/// The part of `q` before the last `#`, or all of `q` when it has none.
pub open spec fn query_base(q: Seq<char>) -> Seq<char> {
    if rfind(q, '#') >= 0 {
        q.subrange(0, rfind(q, '#'))
    } else {
        q
    }
}

/// The collection suffix of `q`: what follows the last `#`, lower-cased;
/// nothing when there is no `#` or the suffix is empty.
pub open spec fn query_collection(q: Seq<char>) -> Option<Seq<char>> {
    if rfind(q, '#') >= 0 && rfind(q, '#') + 1 < q.len() {
        Some(lower(q.subrange(rfind(q, '#') + 1, q.len() as int)))
    } else {
        None
    }
}

/// The family prefix of the base: what precedes the first `/`, if any.
pub open spec fn query_family(q: Seq<char>) -> Option<Seq<char>> {
    let base = query_base(q);
    if find_from(base, '/', 0) < base.len() {
        Some(base.subrange(0, find_from(base, '/', 0)))
    } else {
        None
    }
}

/// The package name of the query: the base after a `/`, or the whole base.
pub open spec fn query_name(q: Seq<char>) -> Seq<char> {
    let base = query_base(q);
    if find_from(base, '/', 0) < base.len() {
        base.subrange(find_from(base, '/', 0) + 1, base.len() as int)
    } else {
        base
    }
}

/// Splits a query string into name, family and collection.
pub fn parse_package_query(query: &str) -> (r: PackageQuery)
    ensures
        r.name@ == query_name(query@),
        match r.family {
            Some(f) => query_family(query@) == Some(f@),
            None => query_family(query@) is None,
        },
        match r.collection {
            Some(c) => query_collection(query@) == Some(c@),
            None => query_collection(query@) is None,
        },
{
    let q = str_chars(query);
    proof {
        lemma_rfind_bounds(q@, '#');
    }
    let (base, collection): (Vec<char>, Option<String>) = match rfind_char(&q, '#') {
        Some(p) => {
            let mut base: Vec<char> = Vec::new();
            let mut i: usize = 0;
            while i < p
                invariant
                    i <= p < q@.len(),
                    base@ == q@.subrange(0, i as int),
                decreases p - i,
            {
                base.push(q[i]);
                i += 1;
                proof {
                    assert(q@.subrange(0, i - 1).push(q@[i - 1]) =~= q@.subrange(0, i as int));
                }
            }
            let mut rest: Vec<char> = Vec::new();
            let mut j: usize = p + 1;
            while j < q.len()
                invariant
                    p + 1 <= j <= q@.len(),
                    rest@.len() == j - p - 1,
                    forall|m: int|
                        0 <= m < rest@.len() ==> rest@[m] == lower_char(
                            #[trigger] q@[p + 1 + m],
                        ),
                decreases q@.len() - j,
            {
                rest.push(to_lower_char(q[j]));
                j += 1;
            }
            proof {
                let sub = q@.subrange(p + 1, q@.len() as int);
                assert forall|m: int| 0 <= m < rest@.len() implies rest@[m] == lower(sub)[m] by {
                    assert(sub[m] == q@[p + 1 + m]);
                    assert(lower(sub)[m] == lower_char(sub[m]));
                }
                assert(rest@ =~= lower(sub));
            }
            let collection = if rest.len() > 0 {
                Some(chars_to_string(&rest))
            } else {
                None
            };
            (base, collection)
        },
        None => {
            let mut base: Vec<char> = Vec::new();
            let mut i: usize = 0;
            while i < q.len()
                invariant
                    i <= q@.len(),
                    base@ == q@.subrange(0, i as int),
                decreases q@.len() - i,
            {
                base.push(q[i]);
                i += 1;
                proof {
                    assert(q@.subrange(0, i - 1).push(q@[i - 1]) =~= q@.subrange(0, i as int));
                }
            }
            proof {
                assert(base@ =~= q@);
            }
            (base, None)
        },
    };
    proof {
        lemma_find_from_bounds(base@, '/', 0);
    }
    let slash = find_char(&base, '/');
    if slash < base.len() {
        let mut fam: Vec<char> = Vec::new();
        let mut i: usize = 0;
        while i < slash
            invariant
                i <= slash < base@.len(),
                fam@ == base@.subrange(0, i as int),
            decreases slash - i,
        {
            fam.push(base[i]);
            i += 1;
            proof {
                assert(base@.subrange(0, i - 1).push(base@[i - 1]) =~= base@.subrange(
                    0,
                    i as int,
                ));
            }
        }
        let mut nm: Vec<char> = Vec::new();
        let mut j: usize = slash + 1;
        while j < base.len()
            invariant
                slash + 1 <= j <= base@.len(),
                nm@ == base@.subrange(slash + 1, j as int),
            decreases base@.len() - j,
        {
            nm.push(base[j]);
            j += 1;
            proof {
                assert(base@.subrange(slash + 1, j - 1).push(base@[j - 1]) =~= base@.subrange(
                    slash + 1,
                    j as int,
                ));
            }
        }
        PackageQuery {
            name: chars_to_string(&nm),
            family: Some(chars_to_string(&fam)),
            collection,
        }
    } else {
        PackageQuery { name: chars_to_string(&base), family: None, collection }
    }
}

/// Validates an interactive selection: the reply must be the decimal number
/// of one of the `max` displayed options, counted from 1; the result is its
/// zero-based index.
pub fn get_valid_selection(response: &str, max: usize) -> (r: Option<usize>)
    ensures
        match r {
            Some(i) => crate::text::all_digits(response@) && response@.len() > 0
                && crate::text::digits_val(response@) == i + 1 && i < max,
            None => !(crate::text::all_digits(response@) && response@.len() > 0 && 1
                <= crate::text::digits_val(response@) <= max),
        },
{
    let cs = str_chars(response);
    proof {
        assert(cs@.subrange(0, cs@.len() as int) =~= cs@);
        if cs@.len() > 0 && crate::text::all_digits(cs@) {
            lemma_digits_val_nonneg(cs@);
        }
    }
    match parse_u64_range(&cs, 0, cs.len()) {
        Some(v) => {
            if v >= 1 && v <= max as u64 {
                Some((v - 1) as usize)
            } else {
                None
            }
        },
        None => None,
    }
}

/// Picks the package an interactive selection chose: the element of `pkgs`
/// at `selection`, consuming the list.
pub fn select_package_interactively<T>(pkgs: Vec<T>, selection: usize) -> (r: Option<T>)
    ensures
        match r {
            Some(p) => selection < pkgs@.len() && p == pkgs@[selection as int],
            None => selection >= pkgs@.len(),
        },
{
    let mut pkgs = pkgs;
    if selection < pkgs.len() {
        Some(pkgs.remove(selection))
    } else {
        None
    }
}

/// Resolves how many catalog rows matched a query into the index of the
/// chosen row.
///
/// No row is `NotFound`; a single row is taken; several rows take the first
/// under `--yes`, else the interactive choice, and `Ambiguous` when that
/// choice is missing or out of range.
pub fn resolve_selection(count: usize, yes: bool, chosen: Option<usize>) -> (r: Result<
    usize,
    SoarError,
>)
    ensures
        match r {
            Ok(i) => count > 0 && i < count && (count == 1 || yes ==> i == 0) && (count > 1
                && !yes ==> chosen == Some(i)),
            Err(e) => (count == 0 ==> e == SoarError::NotFound) && (count > 0 ==> e
                == SoarError::Ambiguous && !yes && count > 1 && (match chosen {
                Some(c) => c >= count,
                None => true,
            })),
        },
{
    if count == 0 {
        Err(SoarError::NotFound)
    } else if count == 1 || yes {
        Ok(0)
    } else {
        match chosen {
            Some(c) if c < count => Ok(c),
            _ => Err(SoarError::Ambiguous),
        }
    }
}

} // verus!
