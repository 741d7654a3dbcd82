//! The command line, once it has been read.

use vstd::prelude::*;
use vstd::string::*;

verus! {

/// What the command line asks for.
#[derive(Debug, Clone, PartialEq, Eq)]
pub struct Cli {
    /// Open the terminal interface.
    pub tui: bool,
    /// Bring the installed plugins up to date.
    pub update: bool,
    /// The subcommand, if one was given.
    pub commands: Option<Commands>,
}

/// The subcommands.
#[derive(Debug, Clone, PartialEq, Eq)]
pub enum Commands {
    /// Install plugin
    Install {
        /// Path to install from
        path: String,
        /// Branch to use (optional)
        branch: Option<String>,
    },
}

/// What the program does in one run.
#[derive(Debug, Clone, Copy, PartialEq, Eq, Structural)]
pub enum RunMode {
    /// Show the terminal interface.
    Tui,
    /// Set up the files, clear stale clones, clone what the plugin list
    /// names and read the configuration.
    Sync,
    /// The same, pulling the clones instead of cloning.
    Update,
    /// Clone the one plugin that the subcommand names.
    Install,
}

impl Cli {
    /// Whether the options can stand together: the two flags exclude each
    /// other, and a subcommand excludes both.
    pub open spec fn consistent(&self) -> bool {
        !(self.tui && self.update) && (self.commands is Some ==> !self.tui && !self.update)
    }

    /// Whether the options can stand together.
    pub fn is_consistent(&self) -> (consistent: bool)
        ensures
            consistent == self.consistent(),
    {
        !(self.tui && self.update) && (self.commands.is_none() || (!self.tui && !self.update))
    }

    /// What to do. The terminal interface goes before everything else, then
    /// a subcommand, then an update.
    pub fn mode(&self) -> (mode: RunMode)
        ensures
            mode == if self.tui {
                RunMode::Tui
            } else if self.commands is Some {
                RunMode::Install
            } else if self.update {
                RunMode::Update
            } else {
                RunMode::Sync
            },
    {
        if self.tui {
            RunMode::Tui
        } else if self.commands.is_some() {
            RunMode::Install
        } else if self.update {
            RunMode::Update
        } else {
            RunMode::Sync
        }
    }
}

} // verus!
