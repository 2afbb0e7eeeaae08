//! The command line: global switches and the commands they select.
use vstd::prelude::*;
use crate::commands::apply::ApplyCmd;
use crate::commands::brew::{BrewBackupCmd, BrewInstallCmd};
use crate::commands::config::{ConfigCmd, InitCmd, LockCmd, UnlockCmd};
use crate::commands::exec::ExecCmd;
use crate::commands::fetch::FetchCmd;
use crate::commands::mas::MasBackupCmd;
use crate::commands::completion::CompletionCmd;
use crate::commands::status::StatusCmd;
use crate::commands::unapply::UnapplyCmd;
use crate::commands::update::{CheckUpdateCmd, SelfUpdateCmd};
use crate::commands::{CookbookCmd, ResetCmd};

verus! {

/// The command line of the older layout.
pub struct Cli {
    pub verbose: bool,
    pub no_restart_services: bool,
    pub dry_run: bool,
    pub command: Commands,
}

/// The commands of the older layout.
pub enum Commands {
    Apply,
    Cmd,
    Init { force: bool },
    Unapply,
    Reset { force: bool },
    Status,
    Config { command: ConfigCommand },
    Completion { shell: Shell },
    CheckUpdate,
}

/// Subcommands of `config`.
pub enum ConfigCommand {
    Show,
    Delete,
}

/// Represents the shell types to generate completions for.
pub enum Shell {
    Bash,
    Zsh,
    Fish,
    Elvish,
    PowerShell,
}

/// The command line.
pub struct Args {
    pub verbose: bool,
    pub quiet: bool,
    pub no_restart_services: bool,
    pub no_sync: bool,
    pub dry_run: bool,
    pub accept_all: bool,
    pub command: Command,
}

/// The commands.
pub enum Command {
    Apply(ApplyCmd),
    Cookbook(CookbookCmd),
    Exec(ExecCmd),
    Init(InitCmd),
    Lock(LockCmd),
    Unlock(UnlockCmd),
    Unapply(UnapplyCmd),
    Reset(ResetCmd),
    Status(StatusCmd),
    Brew { command: BrewSubcmd },
    Mas { command: MasSubcmd },
    Config(ConfigCmd),
    CheckUpdate(CheckUpdateCmd),
    SelfUpdate(SelfUpdateCmd),
    Completion(CompletionCmd),
    Fetch(FetchCmd),
}

/// Subcommands of `mas`.
pub enum MasSubcmd {
    Backup(MasBackupCmd),
}

/// Subcommands of `brew`.
pub enum BrewSubcmd {
    Backup(BrewBackupCmd),
    Install(BrewInstallCmd),
}

/// The commands that never sync the remote configuration first: those that
/// fetch or back up themselves, update or describe cutler, or start over.
pub open spec fn skips_sync(cmd: Command) -> bool {
    match cmd {
        Command::Fetch(_) | Command::SelfUpdate(_) | Command::CheckUpdate(_) | Command::Cookbook(_)
        | Command::Completion(_) | Command::Reset(_) | Command::Init(_) | Command::Config(_) => true,
        Command::Brew { command } => command is Backup,
        _ => false,
    }
}

/// Whether a command skips the remote auto-sync.
pub fn skips_auto_sync(cmd: &Command) -> (r: bool)
    ensures
        r == skips_sync(*cmd),
{
    match cmd {
        Command::Fetch(_) | Command::SelfUpdate(_) | Command::CheckUpdate(_) | Command::Cookbook(_)
        | Command::Completion(_) | Command::Reset(_) | Command::Init(_) | Command::Config(_) => true,
        Command::Brew { command } => match command {
            BrewSubcmd::Backup(_) => true,
            BrewSubcmd::Install(_) => false,
        },
        _ => false,
    }
}

} // verus!
