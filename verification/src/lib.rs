//! A user-space package manager for self-contained application binaries.
//!
//! Packages are discovered from remote catalogs, installed under a
//! content-addressed layout in the user's data directory, exposed through
//! launcher symlinks, and integrated into desktop menus.  This crate holds
//! the lifecycle engine: query parsing and resolution, catalog filtering,
//! the install ledger, bundle inspection, desktop integration and the
//! symlink ownership policy.  Everything here is verified; the thin shell
//! that performs process, network and filesystem work lives outside.

pub mod args;
pub mod bundle;
pub mod catalog;
pub mod checksum;
pub mod config;
pub mod desktop;
pub mod error;
pub mod integrate;
pub mod ledger;
pub mod lifecycle;
pub mod like;
pub mod links;
pub mod package;
pub mod paths;
pub mod portable;
pub mod query;
pub mod text;
pub mod units;
