//! The configuration commands: showing, deleting, locking and unlocking
//! the configuration, and initializing a new one.
use vstd::prelude::*;
use crate::brew::types::names_view;

verus! {

/// Shows the configuration in `$EDITOR`, or prints it.
pub struct ConfigCmd {}

/// Shows the configuration.
pub struct ConfigShowCmd {
    /// Show your configuration in $EDITOR.
    pub editor: bool,
}

/// Deletes the configuration (and the snapshot).
pub struct ConfigDeleteCmd;

/// Locks the configuration.
pub struct ConfigLockCmd;

/// Unlocks the configuration.
pub struct ConfigUnlockCmd;

/// Locks the configuration.
pub struct LockCmd;

/// Unlocks the configuration.
pub struct UnlockCmd;

/// Writes a new configuration from the template.
pub struct InitCmd;

/// How `shell_words` splits a text into words, if it can.
pub uninterp spec fn shell_split(s: Seq<char>) -> Option<Seq<Seq<char>>>;

/// `shell_words::split`: the words of a text as a Unix shell splits them;
/// `None` where the crate reports an error. Claimed: the result depends on
/// the text alone (named [`shell_split`]).
#[verifier::external_body]
fn split_words(s: &str) -> (r: Option<Vec<String>>)
    ensures
        match r {
            Some(v) => shell_split(s@) == Some(names_view(v@)),
            None => shell_split(s@) is None,
        },
{
    shell_words::split(s).ok()
}

/// Why `$EDITOR` cannot be run.
pub enum EditorError {
    /// "EDITOR environment variable is empty."
    Empty,
    /// "Failed to parse EDITOR"
    Unparsable,
}

/// The program and arguments of an editor command split into words: the
/// first word and the others.
pub fn editor_parts(words: Option<Vec<String>>) -> (r: Result<(String, Vec<String>), EditorError>)
    ensures
        match words {
            None => r matches Err(EditorError::Unparsable),
            Some(v) => if v@.len() == 0 {
                r matches Err(EditorError::Empty)
            } else {
                r matches Ok(p) && p.0@ == v@[0]@ && names_view(p.1@) == names_view(v@).drop_first()
            },
        },
{
    match words {
        None => Err(EditorError::Unparsable),
        Some(mut v) => {
            if v.len() == 0 {
                Err(EditorError::Empty)
            } else {
                let ghost before = v@;
                let program = v.remove(0);
                assert(names_view(v@) =~= names_view(before).drop_first());
                Ok((program, v))
            }
        },
    }
}

impl ConfigCmd {
    /// Splits the editor command into program and arguments, respecting
    /// quoted arguments.
    pub fn editor_command(&self, editor: &str) -> (r: Result<(String, Vec<String>), EditorError>)
        ensures
            match shell_split(editor@) {
                None => r matches Err(EditorError::Unparsable),
                Some(w) => if w.len() == 0 {
                    r matches Err(EditorError::Empty)
                } else {
                    r matches Ok(p) && p.0@ == w[0] && names_view(p.1@) == w.drop_first()
                },
            },
    {
        let words = split_words(editor);
        proof {
            if words is Some {
                let v = words->0;
                if v@.len() > 0 {
                    assert(names_view(v@)[0] == v@[0]@);
                }
            }
        }
        editor_parts(words)
    }
}

/// Why locking or unlocking has nothing to do.
pub enum LockError {
    /// "Already locked."
    AlreadyLocked,
    /// "Already unlocked."
    AlreadyUnlocked,
}

/// What locking does with the `lock` the configuration holds: refuses when
/// it is already locked; else nothing in a dry run (`None`), or the new
/// `lock`, `Some(true)`.
pub fn lock_change(lock: Option<bool>, dry_run: bool) -> (r: Result<Option<Option<bool>>, LockError>)
    ensures
        lock == Some(true) ==> r matches Err(LockError::AlreadyLocked),
        lock != Some(true) && dry_run ==> r == Ok::<Option<Option<bool>>, LockError>(None),
        lock != Some(true) && !dry_run ==> r == Ok::<Option<Option<bool>>, LockError>(Some(Some(true))),
{
    let locked = match lock {
        Some(b) => b,
        None => false,
    };
    if locked {
        Err(LockError::AlreadyLocked)
    } else if dry_run {
        Ok(None)
    } else {
        Ok(Some(Some(true)))
    }
}

/// What unlocking does: refuses unless it is locked; else nothing in a
/// dry run (`None`), or the `lock` removed (`Some(None)`).
pub fn unlock_change(lock: Option<bool>, dry_run: bool) -> (r: Result<Option<Option<bool>>, LockError>)
    ensures
        lock != Some(true) ==> r matches Err(LockError::AlreadyUnlocked),
        lock == Some(true) && dry_run ==> r == Ok::<Option<Option<bool>>, LockError>(None),
        lock == Some(true) && !dry_run ==> r == Ok::<Option<Option<bool>>, LockError>(Some(None::<bool>)),
{
    let locked = match lock {
        Some(b) => b,
        None => false,
    };
    if !locked {
        Err(LockError::AlreadyUnlocked)
    } else if dry_run {
        Ok(None)
    } else {
        Ok(Some(None))
    }
}

} // verus!
