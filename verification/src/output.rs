//! Output verbosity of the CLI.
use vstd::prelude::*;

verus! {

#[derive(Copy, Clone, Debug, Eq, PartialEq, Structural)]
pub enum Verbosity {
    Quiet,
    Normal,
    Verbose,
}

impl Default for Verbosity {
    fn default() -> (r: Self)
        ensures
            r == Verbosity::Normal,
    {
        Verbosity::Normal
    }
}

impl Verbosity {
    /// The verbosity chosen by the `--verbose`, `--quiet` and `--json`
    /// flags: verbose wins, JSON output is quiet; `None` when both
    /// `--verbose` and `--quiet` are given, which is a usage error.
    pub fn from_flags(verbose: bool, quiet: bool, json_mode: bool) -> (r: Option<Verbosity>)
        ensures
            verbose && quiet ==> r is None,
            !(verbose && quiet) ==> r == Some(
                if verbose {
                    Verbosity::Verbose
                } else if quiet || json_mode {
                    Verbosity::Quiet
                } else {
                    Verbosity::Normal
                },
            ),
    {
        if verbose && quiet {
            return None;
        }
        if verbose {
            Some(Verbosity::Verbose)
        } else if quiet || json_mode {
            Some(Verbosity::Quiet)
        } else {
            Some(Verbosity::Normal)
        }
    }
}

} // verus!
