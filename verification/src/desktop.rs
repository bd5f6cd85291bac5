//! Desktop integration: icon dimension normalization and desktop-entry
//! rewriting.
//!
//! Icons are normalized to the nearest of the standard square dimensions;
//! desktop entries are rewritten so their icon name carries the `-soar`
//! suffix and their launch lines point at the managed launcher, with
//! comment lines stripped and everything else kept verbatim in order.

use vstd::prelude::*;

use crate::like::starts_with;
use crate::text::find_from;

verus! {

/// The standard icon dimensions, ascending.
pub open spec fn supported_dims() -> Seq<(u32, u32)> {
    seq![
        (16u32, 16u32),
        (24u32, 24u32),
        (32u32, 32u32),
        (48u32, 48u32),
        (64u32, 64u32),
        (72u32, 72u32),
        (80u32, 80u32),
        (96u32, 96u32),
        (128u32, 128u32),
        (192u32, 192u32),
        (256u32, 256u32),
        (512u32, 512u32),
    ]
}

/// The L1 distance between a candidate dimension and the icon's.
pub open spec fn dim_dist(d: (u32, u32), w: u32, h: u32) -> int {
    abs_diff(d.0 as int, w as int) + abs_diff(d.1 as int, h as int)
}

/// The absolute difference of two integers.
pub open spec fn abs_diff(a: int, b: int) -> int {
    if a >= b {
        a - b
    } else {
        b - a
    }
}

/// The best dimension among the candidates from index `i` on, given the
/// best seen so far; an earlier candidate wins ties.
pub open spec fn nearest_from(i: int, cur: (u32, u32), w: u32, h: u32) -> (u32, u32)
    decreases supported_dims().len() - i,
{
    if i < 0 || i >= supported_dims().len() {
        cur
    } else if dim_dist(supported_dims()[i], w, h) < dim_dist(cur, w, h) {
        nearest_from(i + 1, supported_dims()[i], w, h)
    } else {
        nearest_from(i + 1, cur, w, h)
    }
}

/// The supported dimension nearest to `(w, h)` in L1 distance, the
/// smaller dimension on ties.
pub open spec fn nearest_dim(w: u32, h: u32) -> (u32, u32) {
    nearest_from(1, supported_dims()[0], w, h)
}

/// Picks the icon dimension to normalize to, matching [`nearest_dim`].
pub fn find_nearest_supported_dimension(width: u32, height: u32) -> (r: (u32, u32))
    ensures
        r == nearest_dim(width, height),
{
    let mut cur: (u32, u32) = dim_at(0);
    let mut i: usize = 1;
    while i < 12
        invariant
            1 <= i <= 12,
            nearest_dim(width, height) == nearest_from(i as int, cur, width, height),
        decreases 12 - i,
    {
        let d = dim_at(i);
        if dist_u32(d, width, height) < dist_u32(cur, width, height) {
            cur = d;
        }
        i += 1;
    }
    cur
}

fn dim_at(i: usize) -> (r: (u32, u32))
    requires
        i < 12,
    ensures
        r == supported_dims()[i as int],
{
    if i == 0 {
        (16u32, 16u32)
    } else if i == 1 {
        (24u32, 24u32)
    } else if i == 2 {
        (32u32, 32u32)
    } else if i == 3 {
        (48u32, 48u32)
    } else if i == 4 {
        (64u32, 64u32)
    } else if i == 5 {
        (72u32, 72u32)
    } else if i == 6 {
        (80u32, 80u32)
    } else if i == 7 {
        (96u32, 96u32)
    } else if i == 8 {
        (128u32, 128u32)
    } else if i == 9 {
        (192u32, 192u32)
    } else if i == 10 {
        (256u32, 256u32)
    } else {
        (512u32, 512u32)
    }
}

fn dist_u32(d: (u32, u32), w: u32, h: u32) -> (r: u64)
    ensures
        r == dim_dist(d, w, h),
{
    let dw: u64 = if d.0 >= w {
        (d.0 - w) as u64
    } else {
        (w - d.0) as u64
    };
    let dh: u64 = if d.1 >= h {
        (d.1 - h) as u64
    } else {
        (h - d.1) as u64
    };
    dw + dh
}

/// Every result of the nearest-dimension search is a supported dimension
/// with minimal L1 distance.
pub proof fn lemma_nearest_dim_minimal(w: u32, h: u32)
    ensures
        exists|i: int|
            0 <= i < supported_dims().len() && #[trigger] supported_dims()[i] == nearest_dim(
                w,
                h,
            ),
        forall|i: int|
            0 <= i < supported_dims().len() ==> dim_dist(nearest_dim(w, h), w, h) <= dim_dist(
                #[trigger] supported_dims()[i],
                w,
                h,
            ),
{
    lemma_nearest_from(1, supported_dims()[0], w, h);
}

proof fn lemma_nearest_from(i: int, cur: (u32, u32), w: u32, h: u32)
    requires
        0 <= i <= supported_dims().len(),
        exists|j: int|
            0 <= j < supported_dims().len() && #[trigger] supported_dims()[j] == cur,
        forall|j: int|
            0 <= j < i ==> dim_dist(cur, w, h) <= dim_dist(#[trigger] supported_dims()[j], w, h),
    ensures
        exists|j: int|
            0 <= j < supported_dims().len() && #[trigger] supported_dims()[j] == nearest_from(
                i,
                cur,
                w,
                h,
            ),
        forall|j: int|
            0 <= j < supported_dims().len() ==> dim_dist(nearest_from(i, cur, w, h), w, h)
                <= dim_dist(#[trigger] supported_dims()[j], w, h),
    decreases supported_dims().len() - i,
{
    if i < supported_dims().len() {
        if dim_dist(supported_dims()[i], w, h) < dim_dist(cur, w, h) {
            lemma_nearest_from(i + 1, supported_dims()[i], w, h);
        } else {
            lemma_nearest_from(i + 1, cur, w, h);
        }
    }
}

/// The lines of `s`, split on newline characters.
pub open spec fn split_lines(s: Seq<char>) -> Seq<Seq<char>>
    decreases s.len(),
    via split_lines_decreases
{
    let d = find_from(s, '\n', 0);
    if d == s.len() {
        seq![s]
    } else {
        seq![s.subrange(0, d)] + split_lines(s.subrange(d + 1, s.len() as int))
    }
}

#[via_fn]
proof fn split_lines_decreases(s: Seq<char>) {
    crate::text::lemma_find_from_bounds(s, '\n', 0);
}

/// Whether a desktop-entry line is kept: comment lines are stripped.
pub open spec fn line_kept(l: Seq<char>) -> bool {
    !(l.len() > 0 && l[0] == '#')
}

/// One rewritten desktop-entry line: `Icon=` lines name the suffixed
/// icon, `Exec=` and `TryExec=` lines point at the managed launcher, and
/// every other line is kept verbatim.
pub open spec fn rewrite_line(l: Seq<char>, pkg: Seq<char>, bin_dir: Seq<char>) -> Seq<char> {
    if starts_with(l, "Icon="@) {
        "Icon="@ + pkg + "-soar"@
    } else if starts_with(l, "Exec="@) {
        "Exec="@ + bin_dir + seq!['/'] + pkg
    } else if starts_with(l, "TryExec="@) {
        "TryExec="@ + bin_dir + seq!['/'] + pkg
    } else {
        l
    }
}

/// The kept lines, rewritten, in order.
pub open spec fn rewritten_lines(
    ls: Seq<Seq<char>>,
    pkg: Seq<char>,
    bin_dir: Seq<char>,
) -> Seq<Seq<char>>
    decreases ls.len(),
{
    if ls.len() == 0 {
        Seq::empty()
    } else if line_kept(ls[0]) {
        seq![rewrite_line(ls[0], pkg, bin_dir)] + rewritten_lines(ls.skip(1), pkg, bin_dir)
    } else {
        rewritten_lines(ls.skip(1), pkg, bin_dir)
    }
}

/// Lines joined with newlines.
pub open spec fn join_lines(ls: Seq<Seq<char>>) -> Seq<char>
    decreases ls.len(),
{
    if ls.len() == 0 {
        Seq::empty()
    } else if ls.len() == 1 {
        ls[0]
    } else {
        ls[0] + seq!['\n'] + join_lines(ls.skip(1))
    }
}

/// The rewritten desktop entry: comments stripped, icon and launch lines
/// redirected, everything else verbatim, line order kept.
pub open spec fn rewrite_desktop_spec(
    content: Seq<char>,
    pkg: Seq<char>,
    bin_dir: Seq<char>,
) -> Seq<char> {
    join_lines(rewritten_lines(split_lines(content), pkg, bin_dir))
}

/// Rewrites a desktop entry before it is linked into the applications
/// directory, matching [`rewrite_desktop_spec`].
pub fn rewrite_desktop_content(content: &str, pkg_name: &str, bin_dir: &str) -> (r: String)
    ensures
        r@ == rewrite_desktop_spec(content@, pkg_name@, bin_dir@),
{
    let cs = crate::text::str_chars(content);
    let lines = split_exec(&cs);
    let mut out: Vec<String> = Vec::new();
    let ghost all = split_lines(content@);
    let mut i: usize = 0;
    while i < lines.len()
        invariant
            i <= lines@.len(),
            lines@.len() == all.len(),
            forall|j: int| 0 <= j < all.len() ==> (#[trigger] lines@[j])@ == all[j],
            out_matches(out@, rewritten_lines(all.subrange(0, i as int), pkg_name@, bin_dir@)),
        decreases lines@.len() - i,
    {
        let l = &lines[i];
        proof {
            let pre = all.subrange(0, i as int);
            let now = all.subrange(0, i + 1);
            lemma_rewritten_snoc(pre, all[i as int], pkg_name@, bin_dir@);
            assert(now =~= pre.push(all[i as int]));
        }
        let keep = !(l.unicode_len() > 0 && l.get_char(0) == '#');
        if keep {
            out.push(rewrite_one(l, pkg_name, bin_dir));
        }
        i += 1;
    }
    proof {
        assert(all.subrange(0, all.len() as int) =~= all);
    }
    let joined = join_exec(&out);
    proof {
        lemma_join_matches(out@, rewritten_lines(all, pkg_name@, bin_dir@));
    }
    joined
}

/// Where an icon is linked and whether it is resized first: an SVG is
/// never resized and goes under the canonical 128x128 directory; a
/// raster icon goes under the supported dimension nearest its own and
/// is resized exactly when its dimensions differ from that target.
pub fn icon_placement(is_svg: bool, width: u32, height: u32) -> (r: ((u32, u32), bool))
    ensures
        is_svg ==> r.0 == (128u32, 128u32) && !r.1,
        !is_svg ==> r.0 == nearest_dim(width, height) && r.1 == (r.0 != (width, height)),
{
    if is_svg {
        ((128, 128), false)
    } else {
        let d = find_nearest_supported_dimension(width, height);
        let resize = !(d.0 == width && d.1 == height);
        proof {
            if d.0 == width && d.1 == height {
                assert(d == (width, height));
            }
        }
        (d, resize)
    }
}

/// The icon symlink placed in the user's data directory:
/// `<data>/icons/hicolor/<W>x<H>/apps/<pkg_name>-soar.<ext>`.
pub fn icon_link_path(data_dir: &str, w: u32, h: u32, pkg_name: &str, ext: &str) -> (r: String)
    ensures
        r@ == data_dir@ + "/icons/hicolor/"@ + crate::text::dec_rep(w as nat) + seq!['x']
            + crate::text::dec_rep(h as nat) + "/apps/"@ + pkg_name@ + "-soar."@ + ext@,
{
    let mut r = String::from_str(data_dir);
    r.append("/icons/hicolor/");
    let ws = crate::text::u64_dec(w as u64);
    r.append(ws.as_str());
    r.push('x');
    let hs = crate::text::u64_dec(h as u64);
    r.append(hs.as_str());
    r.append("/apps/");
    r.append(pkg_name);
    r.append("-soar.");
    r.append(ext);
    proof {
        assert(r@ =~= data_dir@ + "/icons/hicolor/"@ + crate::text::dec_rep(w as nat)
            + seq!['x'] + crate::text::dec_rep(h as nat) + "/apps/"@ + pkg_name@ + "-soar."@
            + ext@);
    }
    r
}

/// The desktop-entry symlink placed in the user's data directory:
/// `<data>/applications/<pkg_name>-soar.desktop`.
pub fn desktop_link_path(data_dir: &str, pkg_name: &str) -> (r: String)
    ensures
        r@ == data_dir@ + "/applications/"@ + pkg_name@ + "-soar.desktop"@,
{
    let mut r = String::from_str(data_dir);
    r.append("/applications/");
    r.append(pkg_name);
    r.append("-soar.desktop");
    proof {
        assert(r@ =~= data_dir@ + "/applications/"@ + pkg_name@ + "-soar.desktop"@);
    }
    r
}

/// The minimal desktop entry synthesized when a package brings none:
/// an application entry named and launched after the package.
pub open spec fn default_desktop_entry_spec(name: Seq<char>, categories: Seq<char>) -> Seq<
    char,
> {
    "[Desktop Entry]\nType=Application\nName="@ + name + "\nIcon="@ + name + "\nExec="@ + name
        + "\nCategories="@ + categories + ";\n"@
}

/// Synthesizes the minimal desktop entry, matching
/// [`default_desktop_entry_spec`].
pub fn create_default_desktop_entry(name: &str, categories: &str) -> (r: String)
    ensures
        r@ == default_desktop_entry_spec(name@, categories@),
{
    let mut r = String::from_str("[Desktop Entry]\nType=Application\nName=");
    r.append(name);
    r.append("\nIcon=");
    r.append(name);
    r.append("\nExec=");
    r.append(name);
    r.append("\nCategories=");
    r.append(categories);
    r.append(";\n");
    r
}

/// Whether the strings in `ss` read exactly the lines `cs`.
pub open spec fn out_matches(ss: Seq<String>, cs: Seq<Seq<char>>) -> bool {
    ss.len() == cs.len() && forall|i: int| 0 <= i < ss.len() ==> (#[trigger] ss[i])@ == cs[i]
}

proof fn lemma_rewritten_snoc(ls: Seq<Seq<char>>, l: Seq<char>, pkg: Seq<char>, bin: Seq<char>)
    ensures
        rewritten_lines(ls.push(l), pkg, bin) == rewritten_lines(ls, pkg, bin) + (if line_kept(
            l,
        ) {
            seq![rewrite_line(l, pkg, bin)]
        } else {
            Seq::empty()
        }),
    decreases ls.len(),
{
    let t = ls.push(l);
    if ls.len() == 0 {
        assert(t[0] == l);
        assert(t.skip(1) =~= Seq::<Seq<char>>::empty());
        assert(rewritten_lines(t.skip(1), pkg, bin) == Seq::<Seq<char>>::empty());
        if line_kept(l) {
            assert(rewritten_lines(t, pkg, bin) =~= rewritten_lines(ls, pkg, bin) + seq![
                rewrite_line(l, pkg, bin),
            ]);
        } else {
            assert(rewritten_lines(t, pkg, bin) =~= rewritten_lines(ls, pkg, bin));
        }
    } else {
        assert(t[0] == ls[0]);
        assert(t.skip(1) =~= ls.skip(1).push(l));
        lemma_rewritten_snoc(ls.skip(1), l, pkg, bin);
        let x = if line_kept(l) {
            seq![rewrite_line(l, pkg, bin)]
        } else {
            Seq::<Seq<char>>::empty()
        };
        assert(rewritten_lines(ls.skip(1).push(l), pkg, bin) == rewritten_lines(
            ls.skip(1),
            pkg,
            bin,
        ) + x);
        if line_kept(ls[0]) {
            assert(rewritten_lines(t, pkg, bin) == seq![rewrite_line(t[0], pkg, bin)]
                + rewritten_lines(t.skip(1), pkg, bin));
            assert(rewritten_lines(ls, pkg, bin) == seq![rewrite_line(ls[0], pkg, bin)]
                + rewritten_lines(ls.skip(1), pkg, bin));
            assert(seq![rewrite_line(ls[0], pkg, bin)] + (rewritten_lines(ls.skip(1), pkg, bin)
                + x) =~= (seq![rewrite_line(ls[0], pkg, bin)] + rewritten_lines(
                ls.skip(1),
                pkg,
                bin,
            )) + x);
        } else {
            assert(rewritten_lines(t, pkg, bin) == rewritten_lines(t.skip(1), pkg, bin));
            assert(rewritten_lines(ls, pkg, bin) == rewritten_lines(ls.skip(1), pkg, bin));
        }
    }
}

proof fn lemma_join_matches(ss: Seq<String>, cs: Seq<Seq<char>>)
    requires
        out_matches(ss, cs),
    ensures
        join_strings_spec(ss) == join_lines(cs),
    decreases ss.len(),
{
    if ss.len() > 1 {
        assert(forall|i: int|
            0 <= i < ss.len() - 1 ==> (#[trigger] ss.skip(1)[i])@ == cs.skip(1)[i] && ss.skip(
                1,
            )[i] == ss[i + 1]);
        lemma_join_matches(ss.skip(1), cs.skip(1));
    }
}

/// The strings joined with newlines, at the text level.
pub open spec fn join_strings_spec(ss: Seq<String>) -> Seq<char>
    decreases ss.len(),
{
    if ss.len() == 0 {
        Seq::empty()
    } else if ss.len() == 1 {
        ss[0]@
    } else {
        ss[0]@ + seq!['\n'] + join_strings_spec(ss.skip(1))
    }
}

fn rewrite_one(l: &String, pkg_name: &str, bin_dir: &str) -> (r: String)
    ensures
        r@ == rewrite_line(l@, pkg_name@, bin_dir@),
{
    if starts_with_lit(l, "Icon=") {
        let mut r = String::from_str("Icon=");
        r.append(pkg_name);
        r.append("-soar");
        r
    } else if starts_with_lit(l, "Exec=") {
        let mut r = String::from_str("Exec=");
        r.append(bin_dir);
        r.push('/');
        r.append(pkg_name);
        proof {
            assert(r@ =~= "Exec="@ + bin_dir@ + seq!['/'] + pkg_name@);
        }
        r
    } else if starts_with_lit(l, "TryExec=") {
        let mut r = String::from_str("TryExec=");
        r.append(bin_dir);
        r.push('/');
        r.append(pkg_name);
        proof {
            assert(r@ =~= "TryExec="@ + bin_dir@ + seq!['/'] + pkg_name@);
        }
        r
    } else {
        l.clone()
    }
}

fn starts_with_lit(l: &String, pre: &str) -> (r: bool)
    ensures
        r == starts_with(l@, pre@),
{
    let lc = crate::text::str_chars(l.as_str());
    let pc = crate::text::str_chars(pre);
    if lc.len() < pc.len() {
        return false;
    }
    let mut i: usize = 0;
    while i < pc.len()
        invariant
            i <= pc@.len() <= lc@.len(),
            lc@ == l@,
            pc@ == pre@,
            forall|j: int| 0 <= j < i ==> lc@[j] == pc@[j],
        decreases pc@.len() - i,
    {
        if lc[i] != pc[i] {
            proof {
                assert(l@.subrange(0, pre@.len() as int)[i as int] == l@[i as int]);
            }
            return false;
        }
        i += 1;
    }
    proof {
        assert(l@.subrange(0, pre@.len() as int) =~= pre@);
    }
    true
}

fn split_exec(cs: &Vec<char>) -> (r: Vec<String>)
    ensures
        r@.len() == split_lines(cs@).len(),
        forall|j: int|
            0 <= j < r@.len() ==> (#[trigger] r@[j])@ == split_lines(cs@)[j],
    decreases cs@.len(),
{
    let d = crate::text::find_char(cs, '\n');
    proof {
        crate::text::lemma_find_from_bounds(cs@, '\n', 0);
    }
    let mut head: Vec<char> = Vec::new();
    let mut i: usize = 0;
    while i < d
        invariant
            i <= d <= cs@.len(),
            head@ == cs@.subrange(0, i as int),
        decreases d - i,
    {
        head.push(cs[i]);
        i += 1;
        proof {
            assert(cs@.subrange(0, i - 1).push(cs@[i - 1]) =~= cs@.subrange(0, i as int));
        }
    }
    if d == cs.len() {
        proof {
            assert(head@ =~= cs@);
        }
        let mut r: Vec<String> = Vec::new();
        r.push(crate::text::chars_to_string(&head));
        return r;
    }
    let mut rest: Vec<char> = Vec::new();
    let mut j: usize = d + 1;
    while j < cs.len()
        invariant
            d + 1 <= j <= cs@.len(),
            rest@ == cs@.subrange(d + 1, j as int),
        decreases cs@.len() - j,
    {
        rest.push(cs[j]);
        j += 1;
        proof {
            assert(cs@.subrange(d + 1, j - 1).push(cs@[j - 1]) =~= cs@.subrange(
                d + 1,
                j as int,
            ));
        }
    }
    proof {
        assert(rest@ =~= cs@.subrange(d + 1, cs@.len() as int));
    }
    let tail = split_exec(&rest);
    let mut r: Vec<String> = Vec::new();
    r.push(crate::text::chars_to_string(&head));
    let mut k: usize = 0;
    while k < tail.len()
        invariant
            k <= tail@.len(),
            r@.len() == k + 1,
            r@[0]@ == cs@.subrange(0, d as int),
            forall|m: int| 0 <= m < k ==> (#[trigger] r@[m + 1])@ == tail@[m]@,
            tail@.len() == split_lines(rest@).len(),
            forall|m: int|
                0 <= m < tail@.len() ==> (#[trigger] tail@[m])@ == split_lines(rest@)[m],
            rest@ == cs@.subrange(d + 1, cs@.len() as int),
        decreases tail@.len() - k,
    {
        r.push(tail[k].clone());
        k += 1;
    }
    proof {
        let ls = split_lines(cs@);
        assert(ls == seq![cs@.subrange(0, d as int)] + split_lines(rest@));
        assert(r@.len() == ls.len());
        assert forall|m: int| 0 <= m < r@.len() implies (#[trigger] r@[m])@ == ls[m] by {
            if m == 0 {
                assert(ls[0] == cs@.subrange(0, d as int));
            } else {
                assert(r@[(m - 1) + 1]@ == tail@[m - 1]@);
                assert(ls[m] == split_lines(rest@)[m - 1]);
            }
        }
    }
    r
}

fn join_exec(out: &Vec<String>) -> (r: String)
    ensures
        r@ == join_strings_spec(out@),
{
    if out.len() == 0 {
        return String::new();
    }
    let mut r = out[0].clone();
    let mut i: usize = 1;
    while i < out.len()
        invariant
            1 <= i <= out@.len(),
            r@ == join_strings_spec(out@.subrange(0, i as int)),
        decreases out@.len() - i,
    {
        r.push('\n');
        r.append(out[i].as_str());
        i += 1;
        proof {
            lemma_join_snoc(out@.subrange(0, i - 1), out@[i - 1]);
            assert(out@.subrange(0, i - 1).push(out@[i - 1]) =~= out@.subrange(0, i as int));
        }
    }
    proof {
        assert(out@.subrange(0, out@.len() as int) =~= out@);
    }
    r
}

proof fn lemma_join_snoc(ss: Seq<String>, x: String)
    requires
        ss.len() >= 1,
    ensures
        join_strings_spec(ss.push(x)) == join_strings_spec(ss) + seq!['\n'] + x@,
    decreases ss.len(),
{
    let t = ss.push(x);
    if ss.len() == 1 {
        assert(t.skip(1) =~= seq![x]);
        assert(join_strings_spec(t.skip(1)) == x@);
    } else {
        assert(t.skip(1) =~= ss.skip(1).push(x));
        lemma_join_snoc(ss.skip(1), x);
        assert(t[0] == ss[0]);
    }
}

} // verus!
