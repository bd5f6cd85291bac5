//! Byte-size and duration formatting and parsing.
//!
//! All arithmetic is exact integer arithmetic: scaled values are computed
//! in hundredths with ties rounded to even, and decimal inputs are split
//! into whole and fractional digits.

use vstd::prelude::*;

use crate::text::{
    all_digits, dec_rep, digit, digits_val, is_digit, lemma_digits_val_nonneg,
    parse_u64_range, str_chars, u64_dec,
};

verus! {

pub const KIB: u64 = 1024;

pub const MIB: u64 = 1048576;

pub const GIB: u64 = 1073741824;

/// ASCII whitespace, as trimmed from size strings.
pub open spec fn is_space(c: char) -> bool {
    c == ' ' || c == '\t' || c == '\n' || c == '\r'
}

/// `s` without leading whitespace.
pub open spec fn trim_front(s: Seq<char>) -> Seq<char>
    decreases s.len(),
{
    if s.len() > 0 && is_space(s[0]) {
        trim_front(s.skip(1))
    } else {
        s
    }
}

/// `s` without trailing whitespace.
pub open spec fn trim_back(s: Seq<char>) -> Seq<char>
    decreases s.len(),
{
    if s.len() > 0 && is_space(s.last()) {
        trim_back(s.drop_last())
    } else {
        s
    }
}

/// `s` without leading or trailing whitespace.
pub open spec fn trim_spec(s: Seq<char>) -> Seq<char> {
    trim_back(trim_front(s))
}

proof fn lemma_trim_front_skip(s: Seq<char>, a: int)
    requires
        0 <= a <= s.len(),
        forall|i: int| 0 <= i < a ==> is_space(#[trigger] s[i]),
    ensures
        trim_front(s) == trim_front(s.skip(a)),
    decreases a,
{
    assert(s.skip(0) =~= s);
    if a > 0 {
        lemma_trim_front_skip(s, a - 1);
        let t = s.skip(a - 1);
        assert(t[0] == s[a - 1]);
        assert(t.skip(1) =~= s.skip(a));
    }
}

proof fn lemma_trim_back_take(s: Seq<char>, b: int)
    requires
        0 <= b <= s.len(),
        forall|i: int| b <= i < s.len() ==> is_space(#[trigger] s[i]),
    ensures
        trim_back(s) == trim_back(s.subrange(0, b)),
    decreases s.len() - b,
{
    assert(s.subrange(0, s.len() as int) =~= s);
    if b < s.len() {
        lemma_trim_back_take(s.drop_last(), b);
        assert(s.drop_last().subrange(0, b) =~= s.subrange(0, b));
    }
}

/// Removes leading and trailing ASCII whitespace, matching [`trim_spec`].
pub fn trim_chars(v: &Vec<char>) -> (r: Vec<char>)
    ensures
        r@ == trim_spec(v@),
{
    let mut a: usize = 0;
    while a < v.len() && space(v[a])
        invariant
            a <= v@.len(),
            forall|i: int| 0 <= i < a ==> is_space(#[trigger] v@[i]),
        decreases v@.len() - a,
    {
        a += 1;
    }
    proof {
        lemma_trim_front_skip(v@, a as int);
        if a == v@.len() {
            assert(v@.skip(a as int) =~= Seq::<char>::empty());
        } else {
            assert(!is_space(v@.skip(a as int)[0]));
        }
    }
    let ghost f = v@.skip(a as int);
    let mut b: usize = v.len();
    while b > a && space(v[b - 1])
        invariant
            a <= b <= v@.len(),
            f == v@.skip(a as int),
            forall|i: int| b <= i < v@.len() ==> is_space(#[trigger] v@[i]),
        decreases b,
    {
        b -= 1;
    }
    proof {
        assert(forall|i: int|
            b - a <= i < f.len() ==> is_space(#[trigger] f[i]) && f[i] == v@[i + a]);
        lemma_trim_back_take(f, b - a);
        if b > a {
            assert(!is_space(f.subrange(0, b - a).last()));
        } else {
            assert(f.subrange(0, 0) =~= Seq::<char>::empty());
        }
    }
    let mut r: Vec<char> = Vec::new();
    let mut i: usize = a;
    while i < b
        invariant
            a <= i <= b <= v@.len(),
            r@ == v@.subrange(a as int, i as int),
        decreases b - i,
    {
        r.push(v[i]);
        i += 1;
        proof {
            assert(v@.subrange(a as int, i - 1).push(v@[i - 1]) =~= v@.subrange(
                a as int,
                i as int,
            ));
        }
    }
    proof {
        assert(v@.subrange(a as int, b as int) =~= f.subrange(0, b - a));
        if b > a {
            assert(trim_back(f.subrange(0, b - a)) == f.subrange(0, b - a));
        } else {
            assert(trim_back(f.subrange(0, b - a)) == f.subrange(0, b - a));
        }
    }
    r
}

fn space(c: char) -> (r: bool)
    ensures
        r == is_space(c),
{
    c == ' ' || c == '\t' || c == '\n' || c == '\r'
}

/// The value of `bytes` in hundredths of `unit`, rounded to the nearest
/// hundredth with ties to even — the rounding that the two-decimal
/// display of an exactly representable binary fraction applies.
pub open spec fn hundredths(bytes: u64, unit: u64) -> int {
    let q = (bytes * 100) / (unit as int);
    let rem = (bytes * 100) % (unit as int);
    if 2 * rem > unit {
        q + 1
    } else if 2 * rem < unit {
        q
    } else if q % 2 == 0 {
        q
    } else {
        q + 1
    }
}

/// Two-digit decimal representation of `n`, with a leading zero.
pub open spec fn two_digits(n: int) -> Seq<char> {
    seq![(('0' as int + n / 10) as char), (('0' as int + n % 10) as char)]
}

/// `<whole>.<fraction in hundredths> <suffix>` for `bytes` against `unit`.
pub open spec fn scaled_rep(bytes: u64, unit: u64, suffix: Seq<char>) -> Seq<char> {
    let h = hundredths(bytes, unit);
    dec_rep((h / 100) as nat) + seq!['.'] + two_digits(h % 100) + suffix
}

/// Human-readable size: binary units with two decimal places, or plain
/// bytes below one KiB.
pub open spec fn format_bytes_spec(bytes: u64) -> Seq<char> {
    if bytes >= GIB {
        scaled_rep(bytes, GIB, " GiB"@)
    } else if bytes >= MIB {
        scaled_rep(bytes, MIB, " MiB"@)
    } else if bytes >= KIB {
        scaled_rep(bytes, KIB, " KiB"@)
    } else {
        dec_rep(bytes as nat) + " B"@
    }
}

/// Formats a byte count for display, matching [`format_bytes_spec`].
pub fn format_bytes(bytes: u64) -> (r: String)
    ensures
        r@ == format_bytes_spec(bytes),
{
    if bytes >= GIB {
        scaled(bytes, GIB, " GiB")
    } else if bytes >= MIB {
        scaled(bytes, MIB, " MiB")
    } else if bytes >= KIB {
        scaled(bytes, KIB, " KiB")
    } else {
        let mut r = u64_dec(bytes);
        r.append(" B");
        r
    }
}

/// Parses the value of a `Content-Length` header: the header must be
/// present and a decimal number fitting 64 bits.
pub fn parse_content_length(header: Option<&String>) -> (r: Result<u64, crate::error::SoarError>)
    ensures
        match r {
            Ok(n) => header matches Some(h) && h@.len() > 0 && all_digits(h@) && digits_val(h@)
                == n,
            Err(e) => e == crate::error::SoarError::IOFailed && (match header {
                Some(h) => h@.len() == 0 || !all_digits(h@) || digits_val(h@) > u64::MAX,
                None => true,
            }),
        },
{
    let h = match header {
        Some(h) => h,
        None => {
            return Err(crate::error::SoarError::IOFailed);
        },
    };
    let cs = str_chars(h.as_str());
    proof {
        assert(cs@.subrange(0, cs@.len() as int) =~= cs@);
        if cs@.len() > 0 && all_digits(cs@) {
            lemma_digits_val_nonneg(cs@);
        }
    }
    match parse_u64_range(&cs, 0, cs.len()) {
        Some(v) => Ok(v),
        None => Err(crate::error::SoarError::IOFailed),
    }
}

/// Whether `suf` is a suffix of `s`.
pub open spec fn ends_with(s: Seq<char>, suf: Seq<char>) -> bool {
    s.len() >= suf.len() && s.skip(s.len() - suf.len()) == suf
}

/// The value of a decimal numeral `ns` (digits, optionally one dot and
/// fractional digits) scaled by `mult`, rounded down.
///
/// `None` when `ns` is not of that shape, or when its whole or fractional
/// digit run does not fit in 64 bits.
pub open spec fn decimal_value(ns: Seq<char>, mult: u64) -> Option<int> {
    let d = crate::text::find_from(ns, '.', 0);
    if d == ns.len() {
        if ns.len() > 0 && all_digits(ns) && digits_val(ns) <= u64::MAX {
            Some(digits_val(ns) * mult)
        } else {
            None
        }
    } else {
        let ip = ns.subrange(0, d);
        let fp = ns.subrange(d + 1, ns.len() as int);
        if ip.len() + fp.len() > 0 && all_digits(ip) && all_digits(fp) && digits_val(ip)
            <= u64::MAX && digits_val(fp) <= u64::MAX {
            Some(
                digits_val(ip) * mult + (digits_val(fp) * mult) / crate::text::pow10(
                    fp.len() as nat,
                ),
            )
        } else {
            None
        }
    }
}

/// One unit of the size table: the scaled value of the numeral before the
/// unit suffix, when the suffix matches.
pub open spec fn unit_value(t: Seq<char>, suf: Seq<char>, mult: u64) -> Option<int> {
    if ends_with(t, suf) {
        decimal_value(trim_spec(t.subrange(0, t.len() - suf.len())), mult)
    } else {
        None
    }
}

/// The size denoted by `s`: the input is trimmed and upper-cased, then
/// the first matching unit in the table wins.  The table's units are
/// decimal (powers of 1000) with a bare `B` counting plain bytes; its
/// binary rows are spelled `KiB`/`MiB`/`GiB` and so can never match the
/// upper-cased input.
pub open spec fn parse_size_spec(s: Seq<char>) -> Option<int> {
    let t = crate::text::upper(trim_spec(s));
    if unit_value(t, "B"@, 1) is Some {
        unit_value(t, "B"@, 1)
    } else if unit_value(t, "KB"@, 1000) is Some {
        unit_value(t, "KB"@, 1000)
    } else if unit_value(t, "MB"@, 1000000) is Some {
        unit_value(t, "MB"@, 1000000)
    } else if unit_value(t, "GB"@, 1000000000) is Some {
        unit_value(t, "GB"@, 1000000000)
    } else {
        None
    }
}

/// Parses a human-readable size such as `1.5 MB`.
///
/// Returns exactly the value of [`parse_size_spec`]; `None` also when that
/// value does not fit in a `u64`.
pub fn parse_size(size_str: &str) -> (r: Option<u64>)
    ensures
        match r {
            Some(n) => parse_size_spec(size_str@) == Some(n as int),
            None => parse_size_spec(size_str@) is None || parse_size_spec(size_str@)->0
                > u64::MAX,
        },
{
    let cs = str_chars(size_str);
    let trimmed = trim_chars(&cs);
    let t = crate::text::upper_chars(&trimmed);
    match try_unit(&t, "B", 1) {
        UnitTry::NoMatch => (),
        UnitTry::TooBig => {
            return None;
        },
        UnitTry::Val(n) => {
            return Some(n);
        },
    }
    match try_unit(&t, "KB", 1000) {
        UnitTry::NoMatch => (),
        UnitTry::TooBig => {
            return None;
        },
        UnitTry::Val(n) => {
            return Some(n);
        },
    }
    match try_unit(&t, "MB", 1000000) {
        UnitTry::NoMatch => (),
        UnitTry::TooBig => {
            return None;
        },
        UnitTry::Val(n) => {
            return Some(n);
        },
    }
    match try_unit(&t, "GB", 1000000000) {
        UnitTry::NoMatch => (),
        UnitTry::TooBig => {
            return None;
        },
        UnitTry::Val(n) => {
            return Some(n);
        },
    }
    None
}

/// The first position at or after `k` that is not a decimal digit, or the
/// end.
pub open spec fn digits_end(s: Seq<char>, k: int) -> int
    decreases s.len() - k,
{
    if k < 0 {
        k
    } else if k >= s.len() {
        s.len() as int
    } else if !is_digit(s[k]) {
        k
    } else {
        digits_end(s, k + 1)
    }
}

proof fn lemma_digits_end_at(s: Seq<char>, k: int, j: int)
    requires
        0 <= k <= j <= s.len(),
        forall|m: int| k <= m < j ==> is_digit(#[trigger] s[m]),
        j == s.len() || !is_digit(s[j]),
    ensures
        digits_end(s, k) == j,
    decreases j - k,
{
    if k < j {
        lemma_digits_end_at(s, k + 1, j);
    }
}

/// Milliseconds per unit suffix: seconds, minutes, hours or days.
pub open spec fn duration_mult(u: Seq<char>) -> Option<u64> {
    if u == seq!['s'] {
        Some(1000u64)
    } else if u == seq!['m'] {
        Some(60000u64)
    } else if u == seq!['h'] {
        Some(3600000u64)
    } else if u == seq!['d'] {
        Some(86400000u64)
    } else {
        None
    }
}

/// The duration denoted by `s`, in milliseconds: a run of digits followed
/// by one of the unit letters `s`, `m`, `h`, `d`, with trailing
/// whitespace allowed.  Leading whitespace empties the digit run, so any
/// input starting with whitespace denotes nothing.
pub open spec fn parse_duration_spec(s: Seq<char>) -> Option<int> {
    if s.len() > 0 && is_space(s[0]) {
        None
    } else {
        let t = trim_spec(s);
        let d = digits_end(t, 0);
        let num = t.subrange(0, d);
        let unit = t.subrange(d, t.len() as int);
        if num.len() > 0 && digits_val(num) <= u64::MAX && duration_mult(unit) is Some {
            Some(digits_val(num) * (duration_mult(unit)->0 as int))
        } else {
            None
        }
    }
}

/// Parses a duration such as `30s` or `2h` into milliseconds.
///
/// Returns exactly the value of [`parse_duration_spec`]; `None` also when
/// that value does not fit in a `u64`.
pub fn parse_duration(input: &str) -> (r: Option<u64>)
    ensures
        match r {
            Some(n) => parse_duration_spec(input@) == Some(n as int),
            None => parse_duration_spec(input@) is None || parse_duration_spec(input@)->0
                > u64::MAX,
        },
{
    let cs = str_chars(input);
    if cs.len() > 0 && space(cs[0]) {
        return None;
    }
    let t = trim_chars(&cs);
    let mut d: usize = 0;
    while d < t.len() && digit(t[d])
        invariant
            d <= t@.len(),
            forall|m: int| 0 <= m < d ==> is_digit(#[trigger] t@[m]),
        decreases t@.len() - d,
    {
        d += 1;
    }
    proof {
        lemma_digits_end_at(t@, 0, d as int);
    }
    let val = match parse_u64_range(&t, 0, d) {
        Some(v) => v,
        None => {
            proof {
                if all_digits(t@.subrange(0, d as int)) {
                    lemma_digits_val_nonneg(t@.subrange(0, d as int));
                }
            }
            return None;
        },
    };
    let ghost unit = t@.subrange(d as int, t@.len() as int);
    if t.len() - d != 1 {
        proof {
            assert(unit.len() != 1);
            if unit == seq!['s'] {
                assert(unit.len() == 1);
            }
            if unit == seq!['m'] {
                assert(unit.len() == 1);
            }
            if unit == seq!['h'] {
                assert(unit.len() == 1);
            }
            if unit == seq!['d'] {
                assert(unit.len() == 1);
            }
        }
        return None;
    }
    let u = t[d];
    proof {
        assert(unit =~= seq![t@[d as int]]);
        lemma_singleton_mult(u);
    }
    let mult: u64 = if u == 's' {
        1000
    } else if u == 'm' {
        60000
    } else if u == 'h' {
        3600000
    } else if u == 'd' {
        86400000
    } else {
        return None;
    };
    proof {
        assert(duration_mult(unit) == Some(mult));
    }
    if val > u64::MAX / mult {
        proof {
            assert((val as int) * (mult as int) > u64::MAX) by (nonlinear_arith)
                requires
                    val > (u64::MAX as int) / (mult as int),
                    1000 <= mult,
                    val <= u64::MAX,
            ;
        }
        return None;
    }
    proof {
        assert((val as int) * (mult as int) <= u64::MAX) by (nonlinear_arith)
            requires
                val <= (u64::MAX as int) / (mult as int),
                1000 <= mult,
        ;
    }
    Some(val * mult)
}

proof fn lemma_singleton_mult(u: char)
    ensures
        u != 's' && u != 'm' && u != 'h' && u != 'd' ==> duration_mult(seq![u]) is None,
        u == 's' ==> duration_mult(seq![u]) == Some(1000u64),
        u == 'm' ==> duration_mult(seq![u]) == Some(60000u64),
        u == 'h' ==> duration_mult(seq![u]) == Some(3600000u64),
        u == 'd' ==> duration_mult(seq![u]) == Some(86400000u64),
{
    if seq![u] == seq!['s'] {
        assert(seq![u][0] == seq!['s'][0]);
    }
    if seq![u] == seq!['m'] {
        assert(seq![u][0] == seq!['m'][0]);
    }
    if seq![u] == seq!['h'] {
        assert(seq![u][0] == seq!['h'][0]);
    }
    if seq![u] == seq!['d'] {
        assert(seq![u][0] == seq!['d'][0]);
    }
    if u == 's' {
        assert(seq![u] =~= seq!['s']);
    }
    if u == 'm' {
        assert(seq![u] =~= seq!['m']);
    }
    if u == 'h' {
        assert(seq![u] =~= seq!['h']);
    }
    if u == 'd' {
        assert(seq![u] =~= seq!['d']);
    }
}

enum UnitTry {
    NoMatch,
    TooBig,
    Val(u64),
}

fn try_unit(t: &Vec<char>, suf: &str, mult: u64) -> (r: UnitTry)
    requires
        1 <= mult <= GIB,
    ensures
        match r {
            UnitTry::NoMatch => unit_value(t@, suf@, mult) is None,
            UnitTry::TooBig => unit_value(t@, suf@, mult) matches Some(v) && v > u64::MAX,
            UnitTry::Val(n) => unit_value(t@, suf@, mult) == Some(n as int),
        },
{
    let sufc = str_chars(suf);
    if t.len() < sufc.len() {
        return UnitTry::NoMatch;
    }
    let start = t.len() - sufc.len();
    let mut i: usize = 0;
    while i < sufc.len()
        invariant
            i <= sufc@.len() <= t@.len(),
            t@.len() <= usize::MAX,
            start == t@.len() - sufc@.len(),
            sufc@ == suf@,
            forall|j: int| 0 <= j < i ==> t@[start + j] == suf@[j],
        decreases sufc@.len() - i,
    {
        proof {
            assert(start + i < t@.len());
        }
        if t[start + i] != sufc[i] {
            proof {
                assert(t@.skip(start as int).len() == suf@.len());
                assert(t@.skip(start as int)[i as int] != suf@[i as int]);
            }
            return UnitTry::NoMatch;
        }
        i += 1;
    }
    proof {
        assert(t@.skip(start as int) =~= suf@);
    }
    let mut head: Vec<char> = Vec::new();
    let mut k: usize = 0;
    while k < start
        invariant
            k <= start <= t@.len(),
            head@ == t@.subrange(0, k as int),
        decreases start - k,
    {
        head.push(t[k]);
        k += 1;
        proof {
            assert(t@.subrange(0, k - 1).push(t@[k - 1]) =~= t@.subrange(0, k as int));
        }
    }
    let num = trim_chars(&head);
    decimal(&num, mult)
}

fn decimal(ns: &Vec<char>, mult: u64) -> (r: UnitTry)
    requires
        1 <= mult <= GIB,
    ensures
        match r {
            UnitTry::NoMatch => decimal_value(ns@, mult) is None,
            UnitTry::TooBig => decimal_value(ns@, mult) matches Some(v) && v > u64::MAX,
            UnitTry::Val(n) => decimal_value(ns@, mult) == Some(n as int),
        },
{
    let d = crate::text::find_char(ns, '.');
    proof {
        crate::text::lemma_find_from_bounds(ns@, '.', 0);
    }
    if d == ns.len() {
        match parse_u64_range(ns, 0, ns.len()) {
            Some(v) => {
                proof {
                    assert(ns@.subrange(0, ns@.len() as int) =~= ns@);
                }
                proof {
                    lemma_prod_small(v, mult);
                }
                let wide: u128 = (v as u128) * (mult as u128);
                if wide > u64::MAX as u128 {
                    UnitTry::TooBig
                } else {
                    UnitTry::Val(wide as u64)
                }
            },
            None => {
                proof {
                    assert(ns@.subrange(0, ns@.len() as int) =~= ns@);
                    if ns@.len() > 0 && all_digits(ns@) {
                        lemma_digits_val_nonneg(ns@);
                    }
                }
                UnitTry::NoMatch
            },
        }
    } else {
        let ghost ip = ns@.subrange(0, d as int);
        let ghost fp = ns@.subrange(d + 1, ns@.len() as int);
        if ns.len() == 1 {
            // the numeral is a bare dot
            return UnitTry::NoMatch;
        }
        let iv = match parse_u64_range(ns, 0, d) {
            Some(v) => v,
            None => {
                if d == 0 {
                    0u64
                } else {
                    return UnitTry::NoMatch;
                }
            },
        };
        let fv = match parse_u64_range(ns, d + 1, ns.len()) {
            Some(v) => v,
            None => {
                if d + 1 == ns.len() {
                    0u64
                } else {
                    return UnitTry::NoMatch;
                }
            },
        };
        proof {
            assert(ip.len() + fp.len() > 0);
            assert(all_digits(ip) && digits_val(ip) == iv);
            assert(all_digits(fp) && digits_val(fp) == fv);
            lemma_digits_val_nonneg(ip);
            lemma_digits_val_nonneg(fp);
        }
        let flen = ns.len() - (d + 1);
        let frac: u128 = frac_scaled(fv, mult, flen, Ghost(fp));
        proof {
            lemma_prod_small(iv, mult);
        }
        let wide: u128 = (iv as u128) * (mult as u128) + frac;
        if wide > u64::MAX as u128 {
            UnitTry::TooBig
        } else {
            UnitTry::Val(wide as u64)
        }
    }
}

/// `fv * mult / 10^flen`, where `fv` is the value of the digit run `fp` of
/// length `flen`.
fn frac_scaled(fv: u64, mult: u64, flen: usize, fp: Ghost<Seq<char>>) -> (r: u128)
    requires
        1 <= mult <= GIB,
        all_digits(fp@),
        fp@.len() == flen,
        digits_val(fp@) == fv,
    ensures
        r == (fv * mult) / crate::text::pow10(flen as nat),
        r <= (u64::MAX as int) * (GIB as int),
{
    proof {
        lemma_prod_small(fv, mult);
    }
    let prod: u128 = (fv as u128) * (mult as u128);
    if flen >= 30 {
        proof {
            lemma_pow10_big(flen as nat);
            assert((fv as int) * (mult as int) < 1000000000000000000000000000000int)
                by (nonlinear_arith)
                requires
                    fv <= u64::MAX,
                    mult <= GIB,
            ;
            assert((prod as int) / crate::text::pow10(flen as nat) == 0) by (nonlinear_arith)
                requires
                    0 <= (prod as int),
                    (prod as int) < crate::text::pow10(flen as nat),
            ;
        }
        0
    } else {
        let p = pow10_u128(flen);
        proof {
            lemma_pow10_pos(flen as nat);
            assert((prod as int) / (p as int) <= (prod as int)) by (nonlinear_arith)
                requires
                    (p as int) >= 1,
                    (prod as int) >= 0,
            ;
        }
        prod / p
    }
}

/// The product of a `u64` and a value at most one GiB stays far below the
/// `u128` range.
proof fn lemma_prod_small(a: u64, b: u64)
    requires
        b <= GIB,
    ensures
        0 <= (a as int) * (b as int) <= (u64::MAX as int) * (GIB as int),
{
    assert(0 <= (a as int) * (b as int) <= (u64::MAX as int) * (GIB as int))
        by (nonlinear_arith)
        requires
            a <= u64::MAX,
            b <= GIB,
    ;
}

proof fn lemma_pow10_mono(a: nat, b: nat)
    requires
        a <= b,
    ensures
        crate::text::pow10(a) <= crate::text::pow10(b),
    decreases b - a,
{
    lemma_pow10_pos(a);
    if a < b {
        lemma_pow10_mono(a, (b - 1) as nat);
        lemma_pow10_pos((b - 1) as nat);
    }
}

proof fn lemma_pow10_pos(k: nat)
    ensures
        crate::text::pow10(k) >= 1,
    decreases k,
{
    if k > 0 {
        lemma_pow10_pos((k - 1) as nat);
    }
}

proof fn lemma_pow10_big(k: nat)
    requires
        k >= 30,
    ensures
        crate::text::pow10(k) >= 1000000000000000000000000000000int,
{
    lemma_pow10_mono(30, k);
    assert(crate::text::pow10(30) == 1000000000000000000000000000000int) by {
        reveal_with_fuel(crate::text::pow10, 31);
    }
}

fn pow10_u128(k: usize) -> (r: u128)
    requires
        k < 30,
    ensures
        r == crate::text::pow10(k as nat),
{
    let mut r: u128 = 1;
    let mut i: usize = 0;
    while i < k
        invariant
            i <= k < 30,
            r == crate::text::pow10(i as nat),
        decreases k - i,
    {
        proof {
            lemma_pow10_mono(i as nat, 29);
            assert(crate::text::pow10(29) < u128::MAX / 10) by {
                reveal_with_fuel(crate::text::pow10, 30);
            }
        }
        r = r * 10;
        i += 1;
    }
    r
}

fn scaled(bytes: u64, unit: u64, suffix: &str) -> (r: String)
    requires
        unit == KIB || unit == MIB || unit == GIB,
    ensures
        r@ == scaled_rep(bytes, unit, suffix@),
{
    let prod: u128 = (bytes as u128) * 100;
    let q: u128 = prod / (unit as u128);
    let rem: u128 = prod % (unit as u128);
    let h_wide: u128 = if 2 * rem > unit as u128 {
        q + 1
    } else if 2 * rem < unit as u128 {
        q
    } else if q % 2 == 0 {
        q
    } else {
        q + 1
    };
    proof {
        assert(h_wide == hundredths(bytes, unit));
        assert(q <= u64::MAX as int - 1) by (nonlinear_arith)
            requires
                q == ((bytes as int) * 100) / (unit as int),
                bytes <= u64::MAX,
                1024 <= unit,
        ;
        assert(h_wide <= u64::MAX);
    }
    let h = h_wide as u64;
    let hh = h % 100;
    let mut r = u64_dec(h / 100);
    r.push('.');
    let tens: u8 = (hh / 10) as u8;
    let ones: u8 = (hh % 10) as u8;
    r.push((('0' as u32 as u8) + tens) as char);
    r.push((('0' as u32 as u8) + ones) as char);
    r.append(suffix);
    proof {
        assert(r@ =~= scaled_rep(bytes, unit, suffix@));
    }
    r
}

} // verus!
