//! Canonical directory derivation and path expansion.
//!
//! Path strings may reference environment variables (`$VAR`) and the user's
//! home directory (a leading `~`).  The process environment itself is not
//! read here: callers hand in the variable bindings they observed, and every
//! function is a total function of those values.

use vstd::prelude::*;

use crate::error::SoarError;
use crate::text::{chars_to_string, is_var_char, str_chars, var_char};

verus! {

/// The first binding in `env` whose name is `name`, if any.
pub open spec fn env_lookup_spec(env: Seq<(String, String)>, name: Seq<char>) -> Option<
    Seq<char>,
>
    decreases env.len(),
{
    if env.len() == 0 {
        None
    } else if env[0].0@ == name {
        Some(env[0].1@)
    } else {
        env_lookup_spec(env.skip(1), name)
    }
}

proof fn lemma_env_lookup_step(env: Seq<(String, String)>, name: Seq<char>, i: int)
    requires
        0 <= i <= env.len(),
        forall|j: int| 0 <= j < i ==> (#[trigger] env[j]).0@ != name,
    ensures
        env_lookup_spec(env, name) == env_lookup_spec(env.skip(i), name),
    decreases i,
{
    assert(env.skip(0) =~= env);
    if i > 0 {
        lemma_env_lookup_step(env, name, i - 1);
        let tail = env.skip(i - 1);
        assert(tail.len() > 0);
        assert(tail[0] == env[i - 1]);
        assert(tail.skip(1) =~= env.skip(i));
        assert(env_lookup_spec(tail, name) == env_lookup_spec(tail.skip(1), name));
    }
}

/// Looks `name` up in the observed environment, first binding wins.
pub fn env_lookup(env: &Vec<(String, String)>, name: &str) -> (r: Option<String>)
    ensures
        match r {
            Some(v) => env_lookup_spec(env@, name@) == Some(v@),
            None => env_lookup_spec(env@, name@) is None,
        },
{
    let name_s = String::from_str(name);
    let mut i: usize = 0;
    while i < env.len()
        invariant
            i <= env@.len(),
            name_s@ == name@,
            forall|j: int| 0 <= j < i ==> (#[trigger] env@[j]).0@ != name@,
        decreases env@.len() - i,
    {
        if env[i].0.eq(&name_s) {
            proof {
                lemma_env_lookup_step(env@, name@, i as int);
                assert(env@.skip(i as int)[0] == env@[i as int]);
            }
            return Some(env[i].1.clone());
        }
        i += 1;
    }
    proof {
        if env@.len() > 0 {
            lemma_env_lookup_step(env@, name@, env@.len() as int);
        }
    }
    None
}

/// The user's home directory: `$HOME` when set, else `/home/<user>` from
/// the first of `$USER` and `$LOGNAME` that is set, else the account name
/// the caller looked up, if any.
pub open spec fn home_path_spec(env: Seq<(String, String)>, account: Option<String>) -> Option<
    Seq<char>,
> {
    match env_lookup_spec(env, "HOME"@) {
        Some(h) => Some(h),
        None => {
            let user = if env_lookup_spec(env, "USER"@) is Some {
                env_lookup_spec(env, "USER"@)
            } else if env_lookup_spec(env, "LOGNAME"@) is Some {
                env_lookup_spec(env, "LOGNAME"@)
            } else if account is Some {
                Some(account->0@)
            } else {
                None
            };
            match user {
                Some(u) => Some("/home/"@ + u),
                None => None,
            }
        },
    }
}

/// Computes the home directory from the observed environment.
///
/// `account` is the login name of the invoking user as the caller looked it
/// up from the system, used only when no relevant variable is set.
pub fn home_path(env: &Vec<(String, String)>, account: Option<String>) -> (r: Option<String>)
    ensures
        match r {
            Some(v) => home_path_spec(env@, account) == Some(v@),
            None => home_path_spec(env@, account) is None,
        },
{
    if let Some(h) = env_lookup(env, "HOME") {
        return Some(h);
    }
    let user: Option<String> = match env_lookup(env, "USER") {
        Some(u) => Some(u),
        None => match env_lookup(env, "LOGNAME") {
            Some(u) => Some(u),
            None => account,
        },
    };
    match user {
        Some(u) => {
            let mut r = String::new();
            r.append("/home/");
            r.append(u.as_str());
            proof {
                assert(r@ =~= "/home/"@ + u@);
            }
            Some(r)
        },
        None => None,
    }
}

/// The first position at or after `k` that ends a `$VAR` name: the index of
/// the first character that may not appear in a variable name, or the end.
pub open spec fn var_end(s: Seq<char>, k: int) -> int
    decreases s.len() - k,
{
    if k < 0 {
        k
    } else if k >= s.len() {
        s.len() as int
    } else if !is_var_char(s[k]) {
        k
    } else {
        var_end(s, k + 1)
    }
}

/// `var_end` never moves backwards and never passes the end.
pub proof fn lemma_var_end_bounds(s: Seq<char>, k: int)
    requires
        0 <= k <= s.len(),
    ensures
        k <= var_end(s, k) <= s.len(),
    decreases s.len() - k,
{
    if k < s.len() && is_var_char(s[k]) {
        lemma_var_end_bounds(s, k + 1);
    }
}

proof fn lemma_var_end_at(s: Seq<char>, k: int, j: int)
    requires
        0 <= k <= j <= s.len(),
        forall|m: int| k <= m < j ==> is_var_char(#[trigger] s[m]),
        j == s.len() || !is_var_char(s[j]),
    ensures
        var_end(s, k) == j,
    decreases j - k,
{
    if k < j {
        lemma_var_end_at(s, k + 1, j);
    }
}

/// One pass of expansion from position `i`, with `acc` already produced.
///
/// `$VAR` is replaced by the variable's value (`$HOME` always by `home`);
/// an undefined variable aborts the expansion; a `$` not followed by a name
/// character stands for itself; `~` stands for `home` while nothing has
/// been produced yet.
pub open spec fn expand_from(
    s: Seq<char>,
    i: int,
    acc: Seq<char>,
    env: Seq<(String, String)>,
    home: Seq<char>,
) -> Option<Seq<char>>
    decreases s.len() - i,
    via expand_from_decreases
{
    if i < 0 {
        None
    } else if i >= s.len() {
        Some(acc)
    } else if s[i] == '$' {
        let j = var_end(s, i + 1);
        let name = s.subrange(i + 1, j);
        if name.len() == 0 {
            expand_from(s, i + 1, acc.push('$'), env, home)
        } else if name == "HOME"@ {
            expand_from(s, j, acc + home, env, home)
        } else {
            match env_lookup_spec(env, name) {
                Some(v) => expand_from(s, j, acc + v, env, home),
                None => None,
            }
        }
    } else if s[i] == '~' && acc.len() == 0 {
        expand_from(s, i + 1, acc + home, env, home)
    } else {
        expand_from(s, i + 1, acc.push(s[i]), env, home)
    }
}

#[via_fn]
proof fn expand_from_decreases(
    s: Seq<char>,
    i: int,
    acc: Seq<char>,
    env: Seq<(String, String)>,
    home: Seq<char>,
) {
    if 0 <= i < s.len() && s[i] == '$' {
        lemma_var_end_bounds(s, i + 1);
    }
}

/// Full expansion of a path string against an observed environment.
pub open spec fn expand_path_spec(
    s: Seq<char>,
    env: Seq<(String, String)>,
    home: Seq<char>,
) -> Option<Seq<char>> {
    expand_from(s, 0, Seq::empty(), env, home)
}

fn append_chars(dst: &mut Vec<char>, src: &Vec<char>)
    ensures
        final(dst)@ == old(dst)@ + src@,
{
    let mut i: usize = 0;
    while i < src.len()
        invariant
            i <= src@.len(),
            dst@ == old(dst)@ + src@.subrange(0, i as int),
        decreases src@.len() - i,
    {
        dst.push(src[i]);
        i += 1;
        proof {
            assert(old(dst)@ + src@.subrange(0, i - 1) + seq![src@[i - 1]] =~= old(dst)@
                + src@.subrange(0, i as int));
        }
    }
    proof {
        assert(src@.subrange(0, src@.len() as int) =~= src@);
    }
}

/// Expands environment variables and a leading `~` in `path`.
///
/// `env` is the observed environment and `home` the computed home
/// directory, which `$HOME` and `~` always resolve to.  A reference to an
/// undefined variable is a configuration error.
pub fn build_path(path: &str, env: &Vec<(String, String)>, home: &str) -> (r: Result<
    String,
    SoarError,
>)
    ensures
        match r {
            Ok(p) => expand_path_spec(path@, env@, home@) == Some(p@),
            Err(e) => expand_path_spec(path@, env@, home@) is None && e == SoarError::Config,
        },
{
    let s = str_chars(path);
    let home_chars = str_chars(home);
    let n = s.len();
    let mut acc: Vec<char> = Vec::new();
    let mut i: usize = 0;
    while i < n
        invariant
            i <= n,
            n == s@.len(),
            s@ == path@,
            home_chars@ == home@,
            expand_path_spec(path@, env@, home@) == expand_from(
                s@,
                i as int,
                acc@,
                env@,
                home@,
            ),
        decreases n - i,
    {
        let c = s[i];
        if c == '$' {
            let mut j = i + 1;
            while j < n && var_char(s[j])
                invariant
                    i + 1 <= j <= n,
                    n == s@.len(),
                    forall|m: int| i + 1 <= m < j ==> is_var_char(#[trigger] s@[m]),
                decreases n - j,
            {
                j += 1;
            }
            proof {
                lemma_var_end_at(s@, i + 1, j as int);
            }
            if j == i + 1 {
                acc.push('$');
                i += 1;
            } else {
                let mut name: Vec<char> = Vec::new();
                let mut m = i + 1;
                while m < j
                    invariant
                        i + 1 <= m <= j <= n,
                        n == s@.len(),
                        name@ == s@.subrange(i + 1, m as int),
                    decreases j - m,
                {
                    name.push(s[m]);
                    m += 1;
                    proof {
                        assert(s@.subrange(i + 1, m - 1).push(s@[m - 1]) =~= s@.subrange(
                            i + 1,
                            m as int,
                        ));
                    }
                }
                let name_str = chars_to_string(&name);
                let home_lit = String::from_str("HOME");
                if name_str.eq(&home_lit) {
                    append_chars(&mut acc, &home_chars);
                    i = j;
                } else {
                    match env_lookup(env, name_str.as_str()) {
                        Some(v) => {
                            let v_chars = str_chars(v.as_str());
                            append_chars(&mut acc, &v_chars);
                            i = j;
                        },
                        None => {
                            return Err(SoarError::Config);
                        },
                    }
                }
            }
        } else if c == '~' && acc.len() == 0 {
            proof {
                assert(acc@ + home@ =~= home@);
                assert(acc@.len() == 0 ==> acc@ =~= Seq::<char>::empty());
            }
            append_chars(&mut acc, &home_chars);
            i += 1;
        } else {
            acc.push(c);
            i += 1;
        }
    }
    Ok(chars_to_string(&acc))
}

/// `$XDG_CONFIG_HOME`, or `<home>/.config`.
pub fn home_config_path(env: &Vec<(String, String)>, home: &str) -> (r: String)
    ensures
        env_lookup_spec(env@, "XDG_CONFIG_HOME"@) matches Some(v) ==> r@ == v,
        env_lookup_spec(env@, "XDG_CONFIG_HOME"@) is None ==> r@ == home@ + "/.config"@,
{
    xdg_or(env, "XDG_CONFIG_HOME", home, "/.config")
}

/// `$XDG_CACHE_HOME`, or `<home>/.cache`.
pub fn home_cache_path(env: &Vec<(String, String)>, home: &str) -> (r: String)
    ensures
        env_lookup_spec(env@, "XDG_CACHE_HOME"@) matches Some(v) ==> r@ == v,
        env_lookup_spec(env@, "XDG_CACHE_HOME"@) is None ==> r@ == home@ + "/.cache"@,
{
    xdg_or(env, "XDG_CACHE_HOME", home, "/.cache")
}

/// `$XDG_DATA_HOME`, or `<home>/.local/share`.
pub fn home_data_path(env: &Vec<(String, String)>, home: &str) -> (r: String)
    ensures
        env_lookup_spec(env@, "XDG_DATA_HOME"@) matches Some(v) ==> r@ == v,
        env_lookup_spec(env@, "XDG_DATA_HOME"@) is None ==> r@ == home@ + "/.local/share"@,
{
    xdg_or(env, "XDG_DATA_HOME", home, "/.local/share")
}

/// The platform string `<arch>-<Os>`: the architecture, a dash, and the
/// operating system with its first letter upper-cased.
pub fn get_platform(arch: &str, os: &str) -> (r: String)
    requires
        os@.len() >= 1,
    ensures
        r@ == arch@ + seq!['-'] + seq![crate::text::upper_char(os@[0])] + os@.subrange(
            1,
            os@.len() as int,
        ),
{
    let mut r = String::from_str(arch);
    r.push('-');
    let oc = crate::text::str_chars(os);
    r.push(crate::text::to_upper_char(oc[0]));
    proof {
        assert(arch@ + seq!['-'] + seq![crate::text::upper_char(os@[0])] + os@.subrange(1, 1)
            =~= (arch@ + seq!['-']).push(crate::text::upper_char(os@[0])));
        assert((arch@ + seq!['-']) =~= arch@.push('-'));
    }
    let mut i: usize = 1;
    while i < oc.len()
        invariant
            1 <= i <= oc@.len(),
            oc@ == os@,
            r@ == arch@ + seq!['-'] + seq![crate::text::upper_char(os@[0])] + os@.subrange(
                1,
                i as int,
            ),
        decreases oc@.len() - i,
    {
        r.push(oc[i]);
        i += 1;
        proof {
            assert((arch@ + seq!['-'] + seq![crate::text::upper_char(os@[0])] + os@.subrange(
                1,
                i - 1,
            )).push(os@[i - 1]) =~= arch@ + seq!['-'] + seq![crate::text::upper_char(os@[0])]
                + os@.subrange(1, i as int));
        }
    }
    proof {
        assert(os@.subrange(1, os@.len() as int) =~= os@.subrange(1, oc@.len() as int));
    }
    r
}

fn xdg_or(env: &Vec<(String, String)>, var: &str, home: &str, suffix: &str) -> (r: String)
    ensures
        env_lookup_spec(env@, var@) matches Some(v) ==> r@ == v,
        env_lookup_spec(env@, var@) is None ==> r@ == home@ + suffix@,
{
    match env_lookup(env, var) {
        Some(v) => v,
        None => {
            let mut r = String::new();
            r.append(home);
            r.append(suffix);
            r
        },
    }
}

} // verus!
