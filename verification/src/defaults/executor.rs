//! `defaults write` and `defaults delete` as steps to run.
use vstd::prelude::*;
use crate::defaults::{defaults_step_ok, execute_defaults_delete, execute_defaults_write, DefaultsStep};

verus! {

/// The step of writing `key` in `domain` with a type flag and value; the
/// runner serializes the steps of one domain.
pub fn write(domain: &str, key: &str, flag: &str, value: &str, action: &str, verbose: bool, dry_run: bool) -> (r: DefaultsStep)
    ensures
        defaults_step_ok(r, "write"@, domain@, key@, seq![flag@, value@], action@, verbose, dry_run),
{
    execute_defaults_write(domain, key, flag, value, action, verbose, dry_run)
}

/// The step of deleting `key` from `domain`.
pub fn delete(domain: &str, key: &str, action: &str, verbose: bool, dry_run: bool) -> (r: DefaultsStep)
    ensures
        defaults_step_ok(r, "delete"@, domain@, key@, Seq::empty(), action@, verbose, dry_run),
{
    execute_defaults_delete(domain, key, action, verbose, dry_run)
}

} // verus!
