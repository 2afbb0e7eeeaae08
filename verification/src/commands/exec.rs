//! The `exec` command.
use vstd::prelude::*;
use crate::exec::runner::ExecMode;

verus! {

/// Runs the external commands of the configuration.
pub struct ExecCmd {
    /// The command to execute. Defaults to 'all' if not passed.
    pub name: Option<String>,
    /// Execute in regular mode (no flagged commands).
    pub regular: bool,
    /// Execute flagged commands only.
    pub flagged: bool,
}

impl ExecCmd {
    /// The mode of a run of all commands: flagged ones with `--flagged`,
    /// regular ones with `--regular`, else all.
    pub fn mode(&self) -> (r: ExecMode)
        ensures
            self.flagged ==> r is Flagged,
            !self.flagged && self.regular ==> r is Regular,
            !self.flagged && !self.regular ==> r is All,
    {
        if self.flagged {
            ExecMode::Flagged
        } else if self.regular {
            ExecMode::Regular
        } else {
            ExecMode::All
        }
    }
}

} // verus!
