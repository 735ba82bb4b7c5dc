//! Decision logic of a PackageKit backend for the moss package manager.

pub mod bitfield;
pub mod cstrings;
pub mod details;
pub mod emit;
pub mod files;
pub mod info;
pub mod local;
pub mod package;
pub mod package_id;
pub mod repos;
pub mod search;
pub mod signals;
pub mod text;
pub mod transaction;
pub mod updates;
