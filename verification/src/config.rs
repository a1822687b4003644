//! The tool's persistent settings, as the engines consume them.
//!
//! Reading and writing the settings file is the surrounding application's
//! work; the engines only ever see this value.

use vstd::prelude::*;

verus! {

/// The settings one run works under.
pub struct Config {
    /// Addresses of user-supplied rule catalogs.
    pub custom_databases: Vec<String>,
    /// The archive directory's components.
    pub save_dir: Vec<String>,
    /// The platform account id disambiguating per-user cloud saves.
    pub steam_account_id: Option<String>,
}

} // verus!
