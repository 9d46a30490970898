//! Shared pieces of the CLI's subcommands.
use vstd::prelude::*;

use std::path::PathBuf;

pub mod dump;
pub mod helpers;
pub mod lint;
pub mod list;
pub mod sync;

verus! {

/// The options every subcommand accepts.
#[derive(Debug, Clone)]
pub struct GlobalArgs {
    pub verbose: bool,
    pub quiet: bool,
    pub json_mode: bool,
    pub config_path: Option<PathBuf>,
    pub port: Option<String>,
}

} // verus!
