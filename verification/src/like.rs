//! SQL `LIKE` pattern matching over character sequences.
//!
//! `%` matches any run of characters, `_` any single character, and every
//! other pattern character matches itself.  The case-insensitive variant
//! folds both sides to ASCII lower case, as the relational backend does.

use vstd::prelude::*;

use crate::text::{lower, lower_char, str_chars, to_lower_char};

verus! {

/// Whether pattern `p` matches text `t`.
pub open spec fn like_match(p: Seq<char>, t: Seq<char>) -> bool
    decreases p.len() + t.len(),
{
    if p.len() == 0 {
        t.len() == 0
    } else if p[0] == '%' {
        like_match(p.skip(1), t) || (t.len() > 0 && like_match(p, t.skip(1)))
    } else if p[0] == '_' {
        t.len() > 0 && like_match(p.skip(1), t.skip(1))
    } else {
        t.len() > 0 && p[0] == t[0] && like_match(p.skip(1), t.skip(1))
    }
}

/// Case-insensitive matching: both sides folded to lower case.
pub open spec fn ilike_match(p: Seq<char>, t: Seq<char>) -> bool {
    like_match(lower(p), lower(t))
}

fn like_rec(p: &Vec<char>, t: &Vec<char>, i: usize, j: usize) -> (r: bool)
    requires
        i <= p@.len(),
        j <= t@.len(),
    ensures
        r == like_match(p@.skip(i as int), t@.skip(j as int)),
    decreases p@.len() - i + t@.len() - j,
{
    proof {
        if i < p@.len() {
            assert(p@.skip(i as int)[0] == p@[i as int]);
            assert(p@.skip(i as int).skip(1) =~= p@.skip(i + 1));
        }
        if j < t@.len() {
            assert(t@.skip(j as int)[0] == t@[j as int]);
            assert(t@.skip(j as int).skip(1) =~= t@.skip(j + 1));
        }
    }
    if i == p.len() {
        j == t.len()
    } else if p[i] == '%' {
        if like_rec(p, t, i + 1, j) {
            true
        } else if j < t.len() {
            like_rec(p, t, i, j + 1)
        } else {
            false
        }
    } else if p[i] == '_' {
        j < t.len() && like_rec(p, t, i + 1, j + 1)
    } else {
        j < t.len() && p[i] == t[j] && like_rec(p, t, i + 1, j + 1)
    }
}

/// Whether `pattern` matches `text`, case-sensitively.
pub fn like_matches(pattern: &str, text: &str) -> (r: bool)
    ensures
        r == like_match(pattern@, text@),
{
    let p = str_chars(pattern);
    let t = str_chars(text);
    proof {
        assert(p@.skip(0) =~= p@);
        assert(t@.skip(0) =~= t@);
    }
    like_rec(&p, &t, 0, 0)
}

/// Whether `pattern` matches `text` after folding both to lower case.
pub fn ilike_matches(pattern: &str, text: &str) -> (r: bool)
    ensures
        r == ilike_match(pattern@, text@),
{
    let p = lower_chars_of(pattern);
    let t = lower_chars_of(text);
    proof {
        assert(p@.skip(0) =~= p@);
        assert(t@.skip(0) =~= t@);
    }
    like_rec(&p, &t, 0, 0)
}

fn lower_chars_of(s: &str) -> (r: Vec<char>)
    ensures
        r@ == lower(s@),
{
    let cs = str_chars(s);
    let mut r: Vec<char> = Vec::new();
    let mut i: usize = 0;
    while i < cs.len()
        invariant
            i <= cs@.len(),
            cs@ == s@,
            r@.len() == i,
            forall|j: int| 0 <= j < i ==> r@[j] == lower_char(#[trigger] s@[j]),
        decreases cs@.len() - i,
    {
        r.push(to_lower_char(cs[i]));
        i += 1;
    }
    proof {
        assert(r@ =~= lower(s@));
    }
    r
}

/// A pattern of the shape `<lit>%` where the literal holds no wildcard
/// matches exactly the texts that begin with the literal.
pub proof fn lemma_prefix_pattern(lit: Seq<char>, t: Seq<char>)
    requires
        forall|i: int| 0 <= i < lit.len() ==> lit[i] != '%' && lit[i] != '_',
    ensures
        like_match(lit + seq!['%'], t) <==> (t.len() >= lit.len() && t.subrange(
            0,
            lit.len() as int,
        ) == lit),
    decreases lit.len() + t.len(),
{
    let p = lit + seq!['%'];
    if lit.len() == 0 {
        assert(p[0] == '%');
        lemma_percent_matches_all(p, t);
        assert(t.subrange(0, 0) =~= Seq::<char>::empty());
        assert(t.subrange(0, 0) =~= lit);
    } else {
        assert(p[0] == lit[0]);
        assert(p[0] != '%' && p[0] != '_');
        if t.len() > 0 && t[0] == lit[0] {
            assert(p.skip(1) =~= lit.skip(1) + seq!['%']);
            lemma_prefix_pattern(lit.skip(1), t.skip(1));
            if t.len() >= lit.len() && like_match(p, t) {
                assert(t.skip(1).subrange(0, lit.len() - 1) =~= t.subrange(
                    1,
                    lit.len() as int,
                ));
                if t.skip(1).subrange(0, lit.len() - 1) == lit.skip(1) {
                    assert forall|i: int| 0 <= i < lit.len() implies t.subrange(
                        0,
                        lit.len() as int,
                    )[i] == lit[i] by {
                        if i > 0 {
                            assert(lit.skip(1)[i - 1] == lit[i]);
                            assert(t.subrange(1, lit.len() as int)[i - 1] == t[i]);
                        }
                    }
                    assert(t.subrange(0, lit.len() as int) =~= lit);
                }
            }
            if t.len() >= lit.len() && t.subrange(0, lit.len() as int) == lit {
                assert forall|i: int| 0 <= i < lit.len() - 1 implies t.skip(1).subrange(
                    0,
                    lit.len() - 1,
                )[i] == lit.skip(1)[i] by {
                    assert(t.subrange(0, lit.len() as int)[i + 1] == lit[i + 1]);
                }
                assert(t.skip(1).subrange(0, lit.len() - 1) =~= lit.skip(1));
            }
        } else {
            assert(!like_match(p, t));
            if t.len() >= lit.len() {
                assert(t.subrange(0, lit.len() as int)[0] == t[0]);
            }
        }
    }
}

/// Whether `s` begins with `pre`.
pub open spec fn starts_with(s: Seq<char>, pre: Seq<char>) -> bool {
    s.len() >= pre.len() && s.subrange(0, pre.len() as int) == pre
}

/// Case-insensitively, a pattern of the shape `<lit>%` without further
/// wildcards matches exactly the texts whose lower-cased form begins with
/// the lower-cased literal.
pub proof fn lemma_prefix_pattern_ilike(lit: Seq<char>, t: Seq<char>)
    requires
        forall|i: int| 0 <= i < lit.len() ==> lit[i] != '%' && lit[i] != '_',
    ensures
        ilike_match(lit + seq!['%'], t) <==> starts_with(lower(t), lower(lit)),
{
    assert(lower(lit + seq!['%']) =~= lower(lit) + seq!['%']) by {
        assert forall|i: int| 0 <= i < lit.len() + 1 implies lower(lit + seq!['%'])[i] == (
        lower(lit) + seq!['%'])[i] by {
            if i < lit.len() {
                assert((lit + seq!['%'])[i] == lit[i]);
            } else {
                assert((lit + seq!['%'])[i] == '%');
                assert(lower_char('%') == '%');
            }
        }
    }
    assert forall|i: int| 0 <= i < lower(lit).len() implies lower(lit)[i] != '%' && lower(
        lit,
    )[i] != '_' by {
        assert(lower(lit)[i] == lower_char(lit[i]));
    }
    lemma_prefix_pattern(lower(lit), lower(t));
}

/// A pattern that is a single `%` matches every text.
proof fn lemma_percent_matches_all(p: Seq<char>, t: Seq<char>)
    requires
        p =~= seq!['%'],
    ensures
        like_match(p, t),
    decreases t.len(),
{
    assert(p[0] == '%');
    assert(p.skip(1) =~= Seq::<char>::empty());
    if t.len() == 0 {
        assert(like_match(p.skip(1), t));
    } else {
        lemma_percent_matches_all(p, t.skip(1));
    }
}

} // verus!
