//! The `completion` command.
use vstd::prelude::*;
use crate::cli::Shell;

verus! {

/// Prints a completion script for a shell.
pub struct CompletionCmd {
    /// Your shell type.
    pub shell: Shell,
}

} // verus!
