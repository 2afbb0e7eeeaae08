//! Writing and deleting `defaults` settings.
use vstd::prelude::*;
use crate::logging::LogLevel;
use crate::text::{chars_of, push_str_chars, string_of, owned, to_lower, lowercase};
use crate::value::{value_view, ConfigValue};
use crate::defaults::flags::{flag_of, normalized, FlagError};

pub mod executor;
pub mod flags;

verus! {

/// A run of the `defaults` program.
pub struct DefaultsInvocation {
    /// The program's arguments.
    pub args: Vec<String>,
    /// The command line as it is shown to the user.
    pub display: String,
}

/// What executing a `defaults` command amounts to.
pub enum DefaultsStep {
    /// A dry run: only this message is logged, at the info level.
    DryRun(String),
    /// Run the program; the message, when present, is logged at the info
    /// level first.
    Run(DefaultsInvocation, Option<String>),
}

pub open spec fn strs_view(v: Seq<&str>) -> Seq<Seq<char>> {
    v.map_values(|a: &str| a@)
}

pub open spec fn strings_view(v: Seq<String>) -> Seq<Seq<char>> {
    v.map_values(|a: String| a@)
}

/// ` "<arg>"` for each extra argument.
pub open spec fn extra_display(extra: Seq<Seq<char>>) -> Seq<char>
    decreases extra.len(),
{
    if extra.len() == 0 {
        Seq::empty()
    } else {
        extra_display(extra.drop_last()) + " \""@ + extra.last() + "\""@
    }
}

/// `defaults <command> <domain> "<key>"` followed by the quoted extra arguments.
pub open spec fn command_display(command: Seq<char>, domain: Seq<char>, key: Seq<char>, extra: Seq<Seq<char>>) -> Seq<char> {
    "defaults "@ + command + " "@ + domain + " \""@ + key + "\""@ + extra_display(extra)
}

/// What executing `defaults <command>` with these arguments does, as the
/// step it amounts to.
pub open spec fn defaults_step_ok(r: DefaultsStep, command: Seq<char>, domain: Seq<char>, key: Seq<char>, extra: Seq<Seq<char>>, action: Seq<char>, verbose: bool, dry_run: bool) -> bool {
    let display = command_display(command, domain, key, extra);
    if dry_run {
        r matches DefaultsStep::DryRun(m) && m@ == "Dry-run: Would execute: "@ + display
    } else {
        &&& r matches DefaultsStep::Run(inv, ann)
        &&& strings_view(inv.args@) == seq![command, domain, key] + extra
        &&& inv.display@ == display
        &&& (ann is Some <==> verbose)
        &&& (ann matches Some(a) ==> a@ == action + ": "@ + display)
    }
}

/// Executes a defaults command with the given parameters and handles logging.
fn execute_defaults_command(
    command: &str,
    eff_domain: &str,
    eff_key: &str,
    extra_args: Vec<&str>,
    action: &str,
    verbose: bool,
    dry_run: bool,
) -> (r: DefaultsStep)
    ensures
        defaults_step_ok(r, command@, eff_domain@, eff_key@, strs_view(extra_args@), action@, verbose, dry_run),
{
    let ghost extra = strs_view(extra_args@);
    let mut display: Vec<char> = Vec::new();
    push_str_chars(&mut display, "defaults ");
    push_str_chars(&mut display, command);
    push_str_chars(&mut display, " ");
    push_str_chars(&mut display, eff_domain);
    push_str_chars(&mut display, " \"");
    push_str_chars(&mut display, eff_key);
    push_str_chars(&mut display, "\"");
    let ghost head = display@;
    let mut i: usize = 0;
    while i < extra_args.len()
        invariant
            i <= extra_args.len(),
            extra == strs_view(extra_args@),
            display@ == head + extra_display(extra.take(i as int)),
        decreases extra_args.len() - i,
    {
        push_str_chars(&mut display, " \"");
        push_str_chars(&mut display, extra_args[i]);
        push_str_chars(&mut display, "\"");
        i = i + 1;
        assert(extra.take(i as int).drop_last() =~= extra.take(i - 1));
    }
    assert(extra.take(extra_args.len() as int) =~= extra);
    assert(display@ =~= command_display(command@, eff_domain@, eff_key@, extra));
    if dry_run {
        let mut m: Vec<char> = Vec::new();
        push_str_chars(&mut m, "Dry-run: Would execute: ");
        let m2 = crate::text::concat(&m, &display);
        return DefaultsStep::DryRun(string_of(&m2));
    }
    let mut args: Vec<String> = Vec::new();
    args.push(owned(command));
    args.push(owned(eff_domain));
    args.push(owned(eff_key));
    let mut j: usize = 0;
    while j < extra_args.len()
        invariant
            j <= extra_args.len(),
            extra == strs_view(extra_args@),
            strings_view(args@) == seq![command@, eff_domain@, eff_key@] + extra.take(j as int),
        decreases extra_args.len() - j,
    {
        let ghost prev = args@;
        let a = owned(extra_args[j]);
        args.push(a);
        j = j + 1;
        assert(args@ == prev.push(a));
        assert(strings_view(args@) =~= strings_view(prev).push(a@));
        assert(extra.take(j as int) =~= extra.take(j - 1).push(extra[j - 1]));
        assert(strings_view(args@) =~= seq![command@, eff_domain@, eff_key@] + extra.take(j as int));
    }
    assert(extra.take(extra_args.len() as int) =~= extra);
    let announce = if verbose {
        let mut a = chars_of(action);
        push_str_chars(&mut a, ": ");
        Some(string_of(&crate::text::concat(&a, &display)))
    } else {
        None
    };
    DefaultsStep::Run(DefaultsInvocation { args, display: string_of(&display) }, announce)
}

/// What is logged once a `defaults` command has run: an error when it
/// failed, a success notice when it succeeded and the output is verbose.
pub open spec fn outcome_ok(r: Option<(LogLevel, String)>, action: Seq<char>, key: Seq<char>, domain: Seq<char>, success: bool, verbose: bool) -> bool {
    if !success {
        r matches Some(p) && p.0 is Error && p.1@ == "Failed to "@ + lowercase(action) + " setting '"@ + key + "' for "@ + domain + "."@
    } else if verbose {
        r matches Some(p) && p.0 is Success && p.1@ == action + " setting '"@ + key + "' for "@ + domain + "."@
    } else {
        r is None
    }
}

/// The message logged after a `defaults` command ran.
pub fn outcome_message(action: &str, eff_key: &str, eff_domain: &str, success: bool, verbose: bool) -> (r: Option<(LogLevel, String)>)
    ensures
        outcome_ok(r, action@, eff_key@, eff_domain@, success, verbose),
{
    if !success {
        let mut m: Vec<char> = Vec::new();
        push_str_chars(&mut m, "Failed to ");
        let low = to_lower(action);
        push_str_chars(&mut m, low.as_str());
        push_str_chars(&mut m, " setting '");
        push_str_chars(&mut m, eff_key);
        push_str_chars(&mut m, "' for ");
        push_str_chars(&mut m, eff_domain);
        push_str_chars(&mut m, ".");
        Some((LogLevel::Error, string_of(&m)))
    } else if verbose {
        let mut m: Vec<char> = Vec::new();
        push_str_chars(&mut m, action);
        push_str_chars(&mut m, " setting '");
        push_str_chars(&mut m, eff_key);
        push_str_chars(&mut m, "' for ");
        push_str_chars(&mut m, eff_domain);
        push_str_chars(&mut m, ".");
        Some((LogLevel::Success, string_of(&m)))
    } else {
        None
    }
}

/// Executes a "defaults write" command with the given parameters.
pub fn execute_defaults_write(
    eff_domain: &str,
    eff_key: &str,
    flag: &str,
    value_str: &str,
    action: &str,
    verbose: bool,
    dry_run: bool,
) -> (r: DefaultsStep)
    ensures
        defaults_step_ok(r, "write"@, eff_domain@, eff_key@, seq![flag@, value_str@], action@, verbose, dry_run),
{
    let extra = vec![flag, value_str];
    assert(strs_view(extra@) =~= seq![flag@, value_str@]);
    execute_defaults_command("write", eff_domain, eff_key, extra, action, verbose, dry_run)
}

/// Executes a "defaults delete" command with the specified parameters.
pub fn execute_defaults_delete(
    eff_domain: &str,
    eff_key: &str,
    action: &str,
    verbose: bool,
    dry_run: bool,
) -> (r: DefaultsStep)
    ensures
        defaults_step_ok(r, "delete"@, eff_domain@, eff_key@, Seq::empty(), action@, verbose, dry_run),
{
    let extra: Vec<&str> = Vec::new();
    assert(strs_view(extra@) =~= Seq::empty());
    execute_defaults_command("delete", eff_domain, eff_key, extra, action, verbose, dry_run)
}

/// For a given TOML value, returns the flag and string. Booleans become "-bool" with "true"/"false".
pub fn get_flag_and_value(value: &ConfigValue) -> (r: Result<(&'static str, String), FlagError>)
    ensures
        match flag_of(value_view(*value)) {
            Some(p) => r matches Ok(q) && (q.0@, q.1@) == p,
            None => r is Err,
        },
{
    crate::defaults::flags::to_flag(value)
}

/// Normalizes the desired value for comparison.
/// For booleans: maps true → "1" and false → "0". For strings, simply returns the inner string.
pub fn normalize_desired(value: &ConfigValue) -> (r: String)
    ensures
        r@ == normalized(value_view(*value)),
{
    crate::defaults::flags::normalize(value)
}

} // verus!
