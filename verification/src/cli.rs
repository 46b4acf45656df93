//! The command-line surface: the subcommands and the shells that exports are
//! written for.  Parsing the command line happens in the program around the
//! library; these are the values it produces.

use vstd::prelude::*;

verus! {

/// The parsed command line.
#[derive(Debug)]
pub struct Cli {
    pub command: Commands,
}

/// The subcommands.
#[derive(Debug)]
pub enum Commands {
    /// Initialize a new manifest (accounts.toml) by inspecting existing git/gh setup
    Init { force: bool },
    /// Generate git & ssh configs and shell integrations from the manifest
    Apply { config: Option<String> },
    /// Resolve account for current directory and emit shell exports (for direnv / wrapper)
    Env { shell: Shell },
    /// Inspect environment, permissions, and detect configuration mismatches
    Doctor,
}

/// The shells that environment exports are written for.
#[derive(Clone, Copy, Debug, PartialEq, Eq, Structural)]
pub enum Shell {
    Bash,
    Zsh,
    Fish,
}

} // verus!
