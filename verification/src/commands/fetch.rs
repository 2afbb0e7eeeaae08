//! The `fetch` command: syncing the configuration from its remote.
use vstd::prelude::*;

verus! {

/// Fetches the remote configuration.
pub struct FetchCmd {
    /// Fetches the configuration regardless of whether the configuration is
    /// equal value-wise.
    pub force: bool,
}

impl FetchCmd {
    /// Whether the remote configuration is written over the local one: when
    /// forced; else when it differs and the user agreed, or a dry run only
    /// reports it. `changes` is how many tables differ; `confirmed` the
    /// answer to the question asked when not forced, something differs and
    /// this is no dry run.
    pub fn overwrites(&self, changes: usize, dry_run: bool, confirmed: bool) -> (r: bool)
        ensures
            r == (self.force || (changes > 0 && (dry_run || confirmed))),
    {
        self.force || (changes > 0 && (dry_run || confirmed))
    }
}

} // verus!
