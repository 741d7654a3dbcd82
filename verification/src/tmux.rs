//! The tmux commands that the program runs.

use vstd::prelude::*;
use vstd::string::*;

verus! {

/// A tmux command that takes file paths.
#[derive(Debug, Clone, Copy, PartialEq, Eq, Structural)]
pub enum TmuxCommand {
    /// Reads a configuration file.
    SourceFile,
    /// Runs a shell command; here, the script of a plugin.
    RunShell,
    /// The short form of `RunShell`.
    Run,
}

impl TmuxCommand {
    /// The name of the command on tmux's command line.
    pub open spec fn name(self) -> Seq<char> {
        match self {
            TmuxCommand::SourceFile => "source-file"@,
            TmuxCommand::RunShell => "run-shell"@,
            TmuxCommand::Run => "run"@,
        }
    }

    /// The name of the command on tmux's command line.
    pub fn command(&self) -> (name: String)
        ensures
            name@ == self.name(),
    {
        match self {
            Self::SourceFile => "source-file".to_owned(),
            Self::RunShell => "run-shell".to_owned(),
            Self::Run => "run".to_owned(),
        }
    }

    /// The arguments to call tmux with: the name of the command, then the
    /// given arguments in their order.
    pub fn arguments(&self, args: Vec<String>) -> (all: Vec<String>)
        ensures
            all@.len() == args@.len() + 1,
            all@[0]@ == self.name(),
            forall|i: int| 0 <= i < args@.len() ==> (#[trigger] all@[i + 1]) == args@[i],
    {
        let mut all = args;
        all.insert(0, self.command());
        all
    }
}

} // verus!
