//! Command-line preprocessing: splicing arguments read from standard
//! input, and the mutual-exclusion rule of the portable flags.

use vstd::prelude::*;

use crate::error::SoarError;
use crate::units::is_space;

verus! {

/// The first position at or after `k` holding whitespace, or the end.
pub open spec fn nonspace_end(s: Seq<char>, k: int) -> int
    decreases s.len() - k,
{
    if k < 0 {
        k
    } else if k >= s.len() {
        s.len() as int
    } else if is_space(s[k]) {
        k
    } else {
        nonspace_end(s, k + 1)
    }
}

proof fn lemma_nonspace_end_bounds(s: Seq<char>, k: int)
    requires
        0 <= k <= s.len(),
    ensures
        k <= nonspace_end(s, k) <= s.len(),
        nonspace_end(s, k) < s.len() ==> is_space(s[nonspace_end(s, k)]),
        forall|m: int| k <= m < nonspace_end(s, k) ==> !is_space(s[m]),
    decreases s.len() - k,
{
    if k < s.len() && !is_space(s[k]) {
        lemma_nonspace_end_bounds(s, k + 1);
    }
}

/// The whitespace-separated tokens of `s` from position `i` on.
pub open spec fn tokens_from(s: Seq<char>, i: int) -> Seq<Seq<char>>
    decreases s.len() - i,
    via tokens_from_decreases
{
    if i < 0 || i >= s.len() {
        Seq::empty()
    } else if is_space(s[i]) {
        tokens_from(s, i + 1)
    } else {
        seq![s.subrange(i, nonspace_end(s, i))] + tokens_from(s, nonspace_end(s, i))
    }
}

#[via_fn]
proof fn tokens_from_decreases(s: Seq<char>, i: int) {
    if 0 <= i < s.len() && !is_space(s[i]) {
        lemma_nonspace_end_bounds(s, i);
    }
}

/// The whitespace-separated tokens of `s`.
pub open spec fn ws_tokens(s: Seq<char>) -> Seq<Seq<char>> {
    tokens_from(s, 0)
}

/// The texts of a sequence of strings.
pub open spec fn views_of(ss: Seq<String>) -> Seq<Seq<char>> {
    ss.map_values(|x: String| x@)
}

/// Splits `s` into its whitespace-separated tokens.
pub fn split_whitespace_tokens(s: &str) -> (r: Vec<String>)
    ensures
        views_of(r@) == ws_tokens(s@),
{
    let cs = crate::text::str_chars(s);
    let n = cs.len();
    let mut out: Vec<String> = Vec::new();
    let mut i: usize = 0;
    proof {
        assert(views_of(out@) + tokens_from(cs@, 0) =~= tokens_from(cs@, 0));
    }
    while i < n
        invariant
            i <= n,
            n == cs@.len(),
            cs@ == s@,
            views_of(out@) + tokens_from(cs@, i as int) == ws_tokens(s@),
        decreases n - i,
    {
        if space_exec(cs[i]) {
            i += 1;
        } else {
            proof {
                lemma_nonspace_end_bounds(cs@, i as int);
            }
            let mut j = i + 1;
            while j < n && !space_exec(cs[j])
                invariant
                    i < j <= n,
                    n == cs@.len(),
                    forall|m: int| i <= m < j ==> !is_space(#[trigger] cs@[m]),
                decreases n - j,
            {
                j += 1;
            }
            proof {
                lemma_nonspace_at(cs@, i as int, j as int);
            }
            let mut tok: Vec<char> = Vec::new();
            let mut m = i;
            while m < j
                invariant
                    i <= m <= j <= cs@.len(),
                    tok@ == cs@.subrange(i as int, m as int),
                decreases j - m,
            {
                tok.push(cs[m]);
                m += 1;
                proof {
                    assert(cs@.subrange(i as int, m - 1).push(cs@[m - 1]) =~= cs@.subrange(
                        i as int,
                        m as int,
                    ));
                }
            }
            let ghost before = out@;
            out.push(crate::text::chars_to_string(&tok));
            proof {
                assert(views_of(out@) =~= views_of(before).push(cs@.subrange(
                    i as int,
                    j as int,
                ))) by {
                    assert(forall|q: int|
                        0 <= q < before.len() ==> (#[trigger] out@[q]) == before[q]);
                }
                assert(views_of(before) + (seq![cs@.subrange(i as int, j as int)]
                    + tokens_from(cs@, j as int)) =~= views_of(out@) + tokens_from(
                    cs@,
                    j as int,
                ));
            }
            i = j;
        }
    }
    proof {
        assert(views_of(out@) + tokens_from(cs@, n as int) =~= views_of(out@));
    }
    out
}

proof fn lemma_nonspace_at(s: Seq<char>, i: int, j: int)
    requires
        0 <= i <= j <= s.len(),
        forall|m: int| i <= m < j ==> !is_space(#[trigger] s[m]),
        j == s.len() || is_space(s[j]),
    ensures
        nonspace_end(s, i) == j,
    decreases j - i,
{
    if i < j {
        lemma_nonspace_at(s, i + 1, j);
    }
}

fn space_exec(c: char) -> (r: bool)
    ensures
        r == is_space(c),
{
    c == ' ' || c == '\t' || c == '\n' || c == '\r'
}

/// The argument list after splicing: the first bare `-` is replaced by
/// the tokens read from standard input, and any later bare `-` is
/// dropped, since standard input is exhausted after the first read.
pub open spec fn splice_spec(args: Seq<Seq<char>>, toks: Seq<Seq<char>>) -> Seq<Seq<char>>
    decreases args.len(),
{
    if args.len() == 0 {
        Seq::empty()
    } else if args[0] == "-"@ {
        toks + remove_dashes(args.skip(1))
    } else {
        seq![args[0]] + splice_spec(args.skip(1), toks)
    }
}

/// The arguments with every bare `-` dropped.
pub open spec fn remove_dashes(args: Seq<Seq<char>>) -> Seq<Seq<char>>
    decreases args.len(),
{
    if args.len() == 0 {
        Seq::empty()
    } else if args[0] == "-"@ {
        remove_dashes(args.skip(1))
    } else {
        seq![args[0]] + remove_dashes(args.skip(1))
    }
}

/// Replaces the first bare `-` argument with the whitespace-separated
/// tokens of what was read from standard input, dropping any later bare
/// `-`, matching [`splice_spec`].
pub fn splice_stdin_args(args: Vec<String>, stdin: &str) -> (r: Vec<String>)
    ensures
        views_of(r@) == splice_spec(views_of(args@), ws_tokens(stdin@)),
{
    let toks = split_whitespace_tokens(stdin);
    let ghost tv = ws_tokens(stdin@);
    let ghost orig = views_of(args@);
    let mut args = args;
    let mut out: Vec<String> = Vec::new();
    let mut found = false;
    let dash = String::from_str("-");
    proof {
        assert(views_of(args@) =~= orig);
        assert(views_of(out@) + splice_spec(views_of(args@), tv) =~= splice_spec(orig, tv));
    }
    while args.len() > 0
        invariant
            dash@ == "-"@,
            views_of(toks@) == tv,
            !found ==> views_of(out@) + splice_spec(views_of(args@), tv) == splice_spec(
                orig,
                tv,
            ),
            found ==> views_of(out@) + remove_dashes(views_of(args@)) == splice_spec(orig, tv),
        decreases args@.len(),
    {
        let ghost before = views_of(args@);
        let a = args.remove(0);
        proof {
            assert(before[0] == a@);
            assert(views_of(args@) =~= before.skip(1));
        }
        if a.eq(&dash) {
            if !found {
                found = true;
                let mut t: usize = 0;
                let ghost outb = views_of(out@);
                while t < toks.len()
                    invariant
                        t <= toks@.len(),
                        views_of(toks@) == tv,
                        views_of(out@) =~= outb + tv.subrange(0, t as int),
                    decreases toks@.len() - t,
                {
                    let ghost ob = views_of(out@);
                    out.push(toks[t].clone());
                    proof {
                        assert(views_of(out@) =~= ob.push(tv[t as int])) by {
                            assert(forall|q: int|
                                0 <= q < ob.len() ==> (#[trigger] out@[q]@) == ob[q]);
                        }
                        assert(ob.push(tv[t as int]) =~= outb + tv.subrange(0, t + 1));
                    }
                    t += 1;
                }
                proof {
                    assert(tv.subrange(0, tv.len() as int) =~= tv);
                    assert(views_of(out@) + remove_dashes(views_of(args@)) =~= splice_spec(
                        orig,
                        tv,
                    ));
                }
            } else {
                proof {
                    assert(remove_dashes(before) == remove_dashes(before.skip(1)));
                }
            }
        } else {
            let ghost ob = views_of(out@);
            out.push(a);
            proof {
                assert(views_of(out@) =~= ob.push(before[0])) by {
                    assert(forall|q: int| 0 <= q < ob.len() ==> (#[trigger] out@[q]@) == ob[q]);
                }
                if found {
                    assert(remove_dashes(before) == seq![before[0]] + remove_dashes(
                        before.skip(1),
                    ));
                    assert(ob.push(before[0]) + remove_dashes(before.skip(1)) =~= ob + (seq![
                        before[0],
                    ] + remove_dashes(before.skip(1))));
                } else {
                    assert(splice_spec(before, tv) == seq![before[0]] + splice_spec(
                        before.skip(1),
                        tv,
                    ));
                    assert(ob.push(before[0]) + splice_spec(before.skip(1), tv) =~= ob + (seq![
                        before[0],
                    ] + splice_spec(before.skip(1), tv)));
                }
            }
        }
    }
    proof {
        assert(views_of(args@) =~= Seq::<Seq<char>>::empty());
        if found {
            assert(remove_dashes(views_of(args@)) =~= Seq::<Seq<char>>::empty());
            assert(views_of(out@) =~= splice_spec(orig, tv));
        } else {
            assert(splice_spec(views_of(args@), tv) =~= Seq::<Seq<char>>::empty());
            assert(views_of(out@) =~= splice_spec(orig, tv));
        }
    }
    out
}

/// Checks the portable flags: `--portable` may not be combined with
/// `--portable-home` or `--portable-config`.
pub fn check_portable_flags(
    portable: &Option<String>,
    portable_home: &Option<String>,
    portable_config: &Option<String>,
) -> (r: Result<(), SoarError>)
    ensures
        match r {
            Ok(_) => !(portable is Some && (portable_home is Some || portable_config is Some)),
            Err(e) => portable is Some && (portable_home is Some || portable_config is Some)
                && e == SoarError::Config,
        },
{
    if portable.is_some() && (portable_home.is_some() || portable_config.is_some()) {
        Err(SoarError::Config)
    } else {
        Ok(())
    }
}

} // verus!
