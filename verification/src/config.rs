//! Resolved CLI configuration. Reading the TOML file belongs to the program
//! around the library; a missing file falls back to these defaults.
use vstd::prelude::*;

use std::path::PathBuf;

verus! {

/// Resolved configuration. Fields use the same names as the matching CLI
/// option.
#[derive(Debug, Clone)]
pub struct Config {
    pub port: String,
    pub config_path: Option<PathBuf>,
}

impl Default for Config {
    fn default() -> (r: Self)
        ensures
            r.port@ == "ML10X"@,
            r.config_path is None,
    {
        Config { port: String::from_str("ML10X"), config_path: None }
    }
}

} // verus!
