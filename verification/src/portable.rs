//! Portable-data wiring: per-package private home and config
//! directories.
//!
//! `portable` is shorthand for both knobs at once; an empty knob asks
//! for a fresh directory right next to the binary, and a non-empty one
//! for a directory under the given path, symlinked next to the binary.
//! Paths are taken as the caller resolved them.

use vstd::prelude::*;

verus! {

/// One filesystem action of the portable wiring.
pub enum PortableAction {
    /// Create this directory (and its parents).
    CreateDir(String),
    /// Create a symlink at `link` pointing to `target`.
    LinkDir { target: String, link: String },
}

/// What the actions for one knob must look like: nothing without the
/// knob; a fresh sibling directory `<bin>.<ext>` for an empty knob; a
/// directory `<path>/<pkg>.<ext>` symlinked from `<bin>.<ext>` for a
/// path.
pub open spec fn knob_planned(
    actions: Seq<PortableAction>,
    bin_path: Seq<char>,
    pkg: Seq<char>,
    knob: Option<Seq<char>>,
    ext: Seq<char>,
) -> bool {
    match knob {
        None => actions.len() == 0,
        Some(p) => if p.len() == 0 {
            actions.len() == 1 && (actions[0] matches PortableAction::CreateDir(d) && d@
                == bin_path + seq!['.'] + ext)
        } else {
            &&& actions.len() == 2
            &&& (actions[0] matches PortableAction::CreateDir(d) && d@ == p + seq!['/'] + pkg
                + seq!['.'] + ext)
            &&& (actions[1] matches PortableAction::LinkDir { target, link } && target@ == p
                + seq!['/'] + pkg + seq!['.'] + ext && link@ == bin_path + seq!['.'] + ext)
        },
    }
}

/// The effective knob value: `portable` stands for both.
pub open spec fn effective_knob(portable: Option<Seq<char>>, knob: Option<Seq<char>>) -> Option<
    Seq<char>,
> {
    if portable is Some {
        portable
    } else {
        knob
    }
}

/// The view of an optional string.
pub open spec fn opt_view(o: Option<String>) -> Option<Seq<char>> {
    match o {
        Some(s) => Some(s@),
        None => None,
    }
}

/// Plans the portable-data wiring for one installed binary: first the
/// home actions, then the config actions.
pub fn setup_portable_dir(
    bin_path: &str,
    pkg_name: &str,
    portable: Option<String>,
    portable_home: Option<String>,
    portable_config: Option<String>,
) -> (r: Vec<PortableAction>)
    ensures
        exists|h: int|
            0 <= h <= r@.len() && knob_planned(
                #[trigger] r@.subrange(0, h),
                bin_path@,
                pkg_name@,
                effective_knob(opt_view(portable), opt_view(portable_home)),
                "home"@,
            ) && knob_planned(
                r@.subrange(h, r@.len() as int),
                bin_path@,
                pkg_name@,
                effective_knob(opt_view(portable), opt_view(portable_config)),
                "config"@,
            ),
{
    let (eff_home, eff_config): (Option<String>, Option<String>) = match portable {
        Some(p) => (Some(p.clone()), Some(p)),
        None => (portable_home, portable_config),
    };
    let mut r: Vec<PortableAction> = Vec::new();
    push_knob_actions(&mut r, bin_path, pkg_name, &eff_home, "home");
    let h = r.len();
    let ghost head = r@;
    push_knob_actions(&mut r, bin_path, pkg_name, &eff_config, "config");
    proof {
        assert(r@.subrange(0, h as int) =~= head);
        assert(r@.subrange(h as int, r@.len() as int) =~= r@.skip(h as int));
        assert(knob_planned(
            r@.subrange(0, h as int),
            bin_path@,
            pkg_name@,
            effective_knob(opt_view(portable), opt_view(portable_home)),
            "home"@,
        ));
    }
    r
}

/// Plans the portable-data wiring for a container-style bundle variant:
/// only the config directory is writable there, so the home knob is
/// ignored and only the config knob takes effect.
pub fn setup_portable_dir_container(
    bin_path: &str,
    pkg_name: &str,
    portable_config: Option<String>,
) -> (r: Vec<PortableAction>)
    ensures
        knob_planned(r@, bin_path@, pkg_name@, opt_view(portable_config), "config"@),
{
    let mut r: Vec<PortableAction> = Vec::new();
    push_knob_actions(&mut r, bin_path, pkg_name, &portable_config, "config");
    proof {
        assert(r@.skip(0) =~= r@);
    }
    r
}

fn push_knob_actions(
    r: &mut Vec<PortableAction>,
    bin_path: &str,
    pkg_name: &str,
    knob: &Option<String>,
    ext: &str,
)
    ensures
        final(r)@.len() >= old(r)@.len(),
        final(r)@.subrange(0, old(r)@.len() as int) == old(r)@,
        knob_planned(
            final(r)@.skip(old(r)@.len() as int),
            bin_path@,
            pkg_name@,
            opt_view(*knob),
            ext@,
        ),
{
    let ghost base = old(r)@;
    match knob {
        None => {
            proof {
                assert(r@.subrange(0, base.len() as int) =~= base);
                assert(r@.skip(base.len() as int) =~= Seq::<PortableAction>::empty());
            }
        },
        Some(p) => {
            if p.as_str().unicode_len() == 0 {
                let mut d = String::from_str(bin_path);
                d.push('.');
                d.append(ext);
                proof {
                    assert(d@ =~= bin_path@ + seq!['.'] + ext@);
                }
                r.push(PortableAction::CreateDir(d));
                proof {
                    assert(r@.subrange(0, base.len() as int) =~= base);
                    assert(r@.skip(base.len() as int) =~= seq![r@[base.len() as int]]);
                }
            } else {
                let mut target_dir = p.clone();
                target_dir.push('/');
                target_dir.append(pkg_name);
                target_dir.push('.');
                target_dir.append(ext);
                let mut link = String::from_str(bin_path);
                link.push('.');
                link.append(ext);
                proof {
                    assert(target_dir@ =~= p@ + seq!['/'] + pkg_name@ + seq!['.'] + ext@);
                    assert(link@ =~= bin_path@ + seq!['.'] + ext@);
                }
                r.push(PortableAction::CreateDir(target_dir.clone()));
                r.push(PortableAction::LinkDir { target: target_dir, link });
                proof {
                    assert(r@.subrange(0, base.len() as int) =~= base);
                    assert(r@.skip(base.len() as int) =~= seq![
                        r@[base.len() as int],
                        r@[base.len() as int + 1],
                    ]);
                }
            }
        },
    }
}

} // verus!
