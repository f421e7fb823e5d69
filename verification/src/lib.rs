//! Compiles librnp and everything it links from source, as a build script's work.
//!
//! A build is planned before it is carried out. [`builder::build`] turns what is
//! known of the machine and of the caller's wishes into a [`plan::Plan`], a list of
//! steps of which some are taken only where a file is not yet there, and into the
//! places where the results will be. [`plan::Runner`] walks through a plan, one step
//! at a time. What has to be decided while a step is carried out is decided here as
//! well: which sources to patch and how, which files to copy, when to give up on a
//! download, what to report of a command that failed.
//!
//! Built are
//!
//! - librnp, the 0.18.1 release or a pinned upstream commit ([`flavor`])
//! - Botan, by way of the `botan-src` crate ([`botan`])
//! - json-c and zlib ([`cmake`])
//! - bzip2 ([`bzip2`])

pub mod aliases;
pub mod botan;
pub mod builder;
pub mod bzip2;
pub mod cmake;
pub mod command;
pub mod download;
pub mod flavor;
pub mod host;
pub mod includes;
pub mod laws;
pub mod librnp;
pub mod links;
pub mod location;
pub mod outside;
pub mod plan;
pub mod process;
pub mod text;
pub mod tree;
pub mod words;

pub use builder::{build, Installed};
pub use flavor::{Flavor, RNP_VERSION};
