//! Coordination of a package's desktop resources: which icon and desktop
//! entry to integrate, and under what names.
//!
//! When the catalog carries an explicit icon or desktop URL, the remote
//! resource is preferred over anything found in the bundle; when neither
//! a remote nor an in-bundle desktop entry exists, a minimal one is
//! synthesized.  The downloads themselves happen outside; this function
//! decides from their observed outcomes.

use vstd::prelude::*;

use crate::bundle::{icon_ext_spec, BundleResources};
use crate::desktop::default_desktop_entry_spec;

verus! {

/// What the integration step must do for one package.
pub struct IntegrationPlan {
    /// The file name the icon takes in the install directory, when any
    /// icon is integrated at all.
    pub icon_name: Option<String>,
    /// Whether the icon's content is the catalog's remote resource
    /// rather than the bundle's.
    pub icon_remote: bool,
    /// The desktop entry's file name in the install directory.
    pub desktop_name: String,
    /// Whether the desktop entry's content is the catalog's remote
    /// resource rather than the bundle's.
    pub desktop_remote: bool,
    /// The minimal entry to write when neither a remote nor an in-bundle
    /// desktop entry exists.
    pub synthesized_desktop: Option<String>,
}

/// Decides the integration for one package: the catalog's remote icon
/// and desktop URLs are preferred over the bundle's resources, a fetched
/// remote icon is named by its magic bytes, and a missing desktop entry
/// is synthesized.
///
/// `fetched_icon_magic` is the leading bytes of the remote icon as the
/// caller downloaded it, when the catalog named one and the download
/// produced anything.
pub fn plan_integration(
    pkg_name: &str,
    icon_url: Option<&String>,
    desktop_url: Option<&String>,
    bundle: &BundleResources,
    fetched_icon_magic: Option<&Vec<u8>>,
) -> (r: IntegrationPlan)
    ensures
        r.icon_remote == (icon_url is Some),
        icon_url is Some ==> (match fetched_icon_magic {
            Some(m) => r.icon_name matches Some(n) && n@ == pkg_name@ + seq!['.']
                + icon_ext_spec(m@),
            None => r.icon_name is None,
        }),
        icon_url is None ==> (match bundle.icon {
            Some(p) => r.icon_name == Some(p.0),
            None => r.icon_name is None,
        }),
        r.desktop_name@ == pkg_name@ + ".desktop"@,
        r.desktop_remote == (desktop_url is Some),
        desktop_url is None && bundle.desktop is None ==> (r.synthesized_desktop
            matches Some(c) && c@ == default_desktop_entry_spec(pkg_name@, "Utility"@)),
        desktop_url is Some || bundle.desktop is Some ==> r.synthesized_desktop is None,
{
    let icon_remote = icon_url.is_some();
    let icon_name: Option<String> = if icon_remote {
        match fetched_icon_magic {
            Some(m) => {
                let ext = crate::bundle::icon_extension(m);
                let mut n = String::from_str(pkg_name);
                n.push('.');
                n.append(ext);
                Some(n)
            },
            None => None,
        }
    } else {
        match &bundle.icon {
            Some(p) => Some(p.0.clone()),
            None => None,
        }
    };
    let mut desktop_name = String::from_str(pkg_name);
    desktop_name.append(".desktop");
    let desktop_remote = desktop_url.is_some();
    let synthesized_desktop: Option<String> = if !desktop_remote && bundle.desktop.is_none() {
        Some(crate::desktop::create_default_desktop_entry(pkg_name, "Utility"))
    } else {
        None
    };
    IntegrationPlan { icon_name, icon_remote, desktop_name, desktop_remote, synthesized_desktop }
}

} // verus!
