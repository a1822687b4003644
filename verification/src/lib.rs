//! Verified core of a save-data backup tool.
//!
//! The library translates between portable, placeholder-bearing paths and
//! concrete filesystem paths (the resolver), decides which files an
//! incremental backup must copy, and checks archived files against their
//! manifest before a restore.  All filesystem, network and UI work is left
//! to the surrounding application, which feeds this library plain values.

pub mod backup;
pub mod commands;
pub mod config;
pub mod context;
pub mod discovery;
pub mod errors;
pub mod gamedb;
pub mod games;
pub mod hashing;
pub mod manifest;
pub mod paths;
pub mod resolver;
pub mod restore;
pub mod strings;
pub mod template;
pub mod updater;
pub mod utils;

use vstd::prelude::*;

verus! {

} // verus!
