//! The `mas` commands: the Mac App Store apps of the configuration.
use vstd::prelude::*;
use crate::brew::types::names_view;
use crate::config::model::Mas;

verus! {

/// Backs up the installed App Store apps.
pub struct MasBackupCmd;

/// Lists the installed App Store apps.
pub struct MasListCmd;

/// The `[mas]` table a backup writes: the ids of the listed apps, in order.
pub fn mas_backup(ids: Vec<String>) -> (r: Mas)
    ensures
        names_view(r.ids@) == names_view(ids@),
{
    Mas { ids }
}

} // verus!
