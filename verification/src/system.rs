//! What the library reads from the programs it runs, and small decisions
//! around them: a `defaults read`, a yes/no answer, the services to restart,
//! the tools Homebrew needs.
use vstd::prelude::*;
use crate::brew::{trim_chars, trimmed};
use crate::domains::opt_view;
use crate::logging::LogLevel;
use crate::text::{chars_of, lowercase, owned, push_str_chars, string_of, to_lower};

verus! {

/// What a `defaults read` gave: its output trimmed, when it succeeded and
/// printed something.
pub open spec fn read_value(success: bool, stdout: Seq<char>) -> Option<Seq<char>> {
    if success && trimmed(stdout).len() > 0 {
        Some(trimmed(stdout))
    } else {
        None
    }
}

/// The current value from the output of `defaults read <domain> <key>`.
pub fn get_current_value(success: bool, stdout: &str) -> (r: Option<String>)
    ensures
        opt_view(r) == read_value(success, stdout@),
{
    if !success {
        return None;
    }
    let t = trim_chars(&chars_of(stdout));
    if t.len() == 0 {
        None
    } else {
        Some(string_of(&t))
    }
}

/// Whether a domain exists, from whether `defaults read <domain>` succeeded:
/// the error that aborts otherwise.
pub fn check_domain_exists(full_domain: &str, success: bool) -> (r: Result<(), String>)
    ensures
        success ==> r is Ok,
        !success ==> (r matches Err(m) && m@ == "Domain '"@ + full_domain@ + "' does not exist. Aborting."@),
{
    if success {
        Ok(())
    } else {
        let mut out: Vec<char> = Vec::new();
        push_str_chars(&mut out, "Domain '");
        push_str_chars(&mut out, full_domain);
        push_str_chars(&mut out, "' does not exist. Aborting.");
        let m = string_of(&out);
        assert(m@ =~= "Domain '"@ + full_domain@ + "' does not exist. Aborting."@);
        Err(m)
    }
}

/// A yes to a `[y/N]` question: the trimmed answer is `y` or `Y`.
pub fn confirm_action(input: &str) -> (r: bool)
    ensures
        r == (trimmed(input@) == "y"@ || trimmed(input@) == "Y"@),
{
    let t = trim_chars(&chars_of(input));
    let s = string_of(&t);
    crate::text::str_eq(s.as_str(), "y") || crate::text::str_eq(s.as_str(), "Y")
}

/// A yes as the older layout reads it: the trimmed answer, lower-cased, is `y`.
pub fn answered_yes(input: &str) -> (r: bool)
    ensures
        r == (lowercase(trimmed(input@)) == "y"@),
{
    let t = trim_chars(&chars_of(input));
    let s = string_of(&t);
    let l = to_lower(s.as_str());
    crate::text::str_eq(l.as_str(), "y")
}

/// The services restarted after preferences change.
pub open spec fn services() -> Seq<Seq<char>> {
    seq!["Finder"@, "Dock"@, "SystemUIServer"@]
}

pub fn system_services() -> (r: Vec<&'static str>)
    ensures
        r@.map_values(|s: &str| s@) == services(),
{
    let r = vec!["Finder", "Dock", "SystemUIServer"];
    assert(r@.map_values(|s: &str| s@) =~= services());
    r
}

/// What restarting a service logs: in a dry run, that it would restart (when
/// verbose); else its failure, or its restart (when verbose).
pub fn restart_message(service: &str, restarted: bool, verbose: bool, dry_run: bool) -> (r: Option<(LogLevel, String)>)
    ensures
        dry_run ==> (if verbose { r matches Some(m) && m.0 is Info && m.1@ == "Dry-run: Would restart "@ + service@ } else { r is None }),
        !dry_run && !restarted ==> (r matches Some(m) && m.0 is Error && m.1@ == "Failed to restart "@ + service@ + ", try restarting manually."@),
        !dry_run && restarted ==> (if verbose { r matches Some(m) && m.0 is Success && m.1@ == service@ + " restarted."@ } else { r is None }),
{
    let mut out: Vec<char> = Vec::new();
    if dry_run {
        if !verbose {
            return None;
        }
        push_str_chars(&mut out, "Dry-run: Would restart ");
        push_str_chars(&mut out, service);
        let m = string_of(&out);
        assert(m@ =~= "Dry-run: Would restart "@ + service@);
        Some((LogLevel::Info, m))
    } else if !restarted {
        push_str_chars(&mut out, "Failed to restart ");
        push_str_chars(&mut out, service);
        push_str_chars(&mut out, ", try restarting manually.");
        let m = string_of(&out);
        assert(m@ =~= "Failed to restart "@ + service@ + ", try restarting manually."@);
        Some((LogLevel::Error, m))
    } else if verbose {
        push_str_chars(&mut out, service);
        push_str_chars(&mut out, " restarted.");
        let m = string_of(&out);
        assert(m@ =~= service@ + " restarted."@);
        Some((LogLevel::Success, m))
    } else {
        None
    }
}

/// The `PATH` after Homebrew was installed: its `bin` directory in front,
/// under `/opt/homebrew` if the binary is there, else under `/usr/local`;
/// unchanged (`None`) when neither holds it.
pub fn brew_path_update(existing: &str, opt_has_brew: bool, usr_local_has_brew: bool) -> (r: Option<String>)
    ensures
        opt_has_brew ==> (r matches Some(p) && p@ == "/opt/homebrew/bin:"@ + existing@),
        !opt_has_brew && usr_local_has_brew ==> (r matches Some(p) && p@ == "/usr/local/bin:"@ + existing@),
        !opt_has_brew && !usr_local_has_brew ==> r is None,
{
    let mut out: Vec<char> = Vec::new();
    if opt_has_brew {
        push_str_chars(&mut out, "/opt/homebrew/bin:");
    } else if usr_local_has_brew {
        push_str_chars(&mut out, "/usr/local/bin:");
    } else {
        return None;
    }
    push_str_chars(&mut out, existing);
    Some(string_of(&out))
}

/// Whether the Command Line Tools are installed, from `xcode-select -p`: it
/// succeeded and printed a path.
pub fn clt_installed(success: bool, stdout: &str) -> (r: bool)
    ensures
        r == (success && trimmed(stdout@).len() > 0),
{
    success && trim_chars(&chars_of(stdout)).len() > 0
}

/// What ensuring the Command Line Tools does next.
pub enum CltStep {
    /// They are there.
    Ready,
    /// A dry run: they would be installed.
    WouldInstall,
    /// Ask the user whether to install them.
    Ask,
}

pub fn clt_step(installed: bool, dry_run: bool) -> (r: CltStep)
    ensures
        installed ==> r is Ready,
        !installed && dry_run ==> r is WouldInstall,
        !installed && !dry_run ==> r is Ask,
{
    if installed {
        CltStep::Ready
    } else if dry_run {
        CltStep::WouldInstall
    } else {
        CltStep::Ask
    }
}

} // verus!
