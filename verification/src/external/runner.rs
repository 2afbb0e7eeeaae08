//! Commands of the `[commands]` table, each a `run` line with the
//! variables of `[vars]` and of the environment substituted.
use vstd::prelude::*;
use crate::external::{sudo_of, table_vars, variables_of};
use crate::text::{owned, push_str_chars, string_of};
use crate::value::{entries_view, lemma_entries_view, value_get, value_view, vget, entry_lookup, ConfigValue, ValueView};
use crate::vars::{pairs_view, subst, substitute_text};

verus! {

/// A command to run: its line, under `sudo` or not.
pub struct RunState {
    pub run: String,
    pub sudo: bool,
}

pub open spec fn run_view(s: RunState) -> (Seq<char>, bool) {
    (s.run@, s.sudo)
}

pub open spec fn runs_view(s: Seq<RunState>) -> Seq<(Seq<char>, bool)> {
    s.map_values(|x: RunState| run_view(x))
}

/// A command table with a string `run`: its line substituted, and `sudo`.
pub open spec fn run_state(item: ValueView, vars: Option<Seq<(Seq<char>, Seq<char>)>>, env: Seq<(Seq<char>, Seq<char>)>) -> Option<(Seq<char>, bool)> {
    match item {
        ValueView::Table(_, _) => match vget(item, "run"@) {
            Some(ValueView::Text(t)) => Some((subst(t, 0, vars, env), sudo_of(item))),
            _ => None,
        },
        _ => None,
    }
}

pub open spec fn run_states(es: Seq<(Seq<char>, ValueView)>, vars: Option<Seq<(Seq<char>, Seq<char>)>>, env: Seq<(Seq<char>, Seq<char>)>) -> Seq<(Seq<char>, bool)>
    decreases es.len(),
{
    if es.len() == 0 {
        Seq::empty()
    } else {
        let r = run_states(es.drop_last(), vars, env);
        match run_state(es.last().1, vars, env) {
            Some(s) => r.push(s),
            None => r,
        }
    }
}

/// The commands of the `[commands]` table, in order.
pub open spec fn extracted(config: ValueView, env: Seq<(Seq<char>, Seq<char>)>) -> Seq<(Seq<char>, bool)> {
    match vget(config, "commands"@) {
        Some(ValueView::Table(es, _)) => run_states(es, table_vars(vget(config, "vars"@)), env),
        _ => Seq::empty(),
    }
}

fn run_of(item: &ConfigValue, vars: Option<&Vec<(String, String)>>, env: &Vec<(String, String)>) -> (r: Option<RunState>)
    ensures
        match r {
            Some(s) => run_state(value_view(*item), crate::vars::opt_pairs_view(vars), pairs_view(env@)) == Some(run_view(s)),
            None => run_state(value_view(*item), crate::vars::opt_pairs_view(vars), pairs_view(env@)) is None,
        },
{
    match item {
        ConfigValue::Table(_, _) => match value_get(item, "run") {
            Some(ConfigValue::Text(t)) => {
                let run = substitute_text(t.as_str(), vars, env);
                let sudo = match value_get(item, "sudo") {
                    Some(ConfigValue::Boolean(b)) => *b,
                    _ => false,
                };
                Some(RunState { run, sudo })
            },
            _ => None,
        },
        _ => None,
    }
}

/// Pull all commands into state objects; `env` holds the environment's name
/// and value pairs.
pub fn extract(config: &ConfigValue, env: &Vec<(String, String)>) -> (r: Vec<RunState>)
    ensures
        runs_view(r@) == extracted(value_view(*config), pairs_view(env@)),
{
    let mut r: Vec<RunState> = Vec::new();
    assert(runs_view(r@) =~= Seq::<(Seq<char>, bool)>::empty());
    let vars = variables_of(value_get(config, "vars"));
    let vref = match &vars {
        Some(v) => Some(v),
        None => None,
    };
    let ghost vv = table_vars(vget(value_view(*config), "vars"@));
    assert(vv == crate::vars::opt_pairs_view(vref));
    let cmds = value_get(config, "commands");
    let es = match cmds {
        Some(ConfigValue::Table(es, _)) => es,
        _ => return r,
    };
    let ghost ev = entries_view(es@);
    proof {
        lemma_entries_view(es@);
    }
    assert(extracted(value_view(*config), pairs_view(env@)) == run_states(ev, vv, pairs_view(env@)));
    let mut i: usize = 0;
    while i < es.len()
        invariant
            i <= es.len(),
            ev == entries_view(es@),
            ev.len() == es@.len(),
            forall|k: int| 0 <= k < es@.len() ==> #[trigger] ev[k] == (es@[k].0@, value_view(es@[k].1)),
            vv == crate::vars::opt_pairs_view(vref),
            extracted(value_view(*config), pairs_view(env@)) == run_states(ev, vv, pairs_view(env@)),
            runs_view(r@) == run_states(ev.take(i as int), vv, pairs_view(env@)),
        decreases es.len() - i,
    {
        assert(ev.take(i + 1).drop_last() =~= ev.take(i as int));
        assert(ev.take(i + 1).last() == ev[i as int]);
        match run_of(&es[i].1, vref, env) {
            Some(s) => {
                let ghost before = runs_view(r@);
                let ghost sv = run_view(s);
                r.push(s);
                assert(runs_view(r@) =~= before.push(sv));
            },
            None => {},
        }
        i = i + 1;
    }
    assert(ev.take(es.len() as int) =~= ev);
    r
}

/// The lines `run_all` runs: each extracted line substituted once more.
pub open spec fn run_all_lines(config: ValueView, env: Seq<(Seq<char>, Seq<char>)>) -> Seq<(Seq<char>, bool)> {
    extracted(config, env).map_values(|s: (Seq<char>, bool)| (subst(s.0, 0, table_vars(vget(config, "vars"@)), env), s.1))
}

/// The commands to run concurrently, as `run_all` substitutes them.
pub fn run_all_commands(config: &ConfigValue, env: &Vec<(String, String)>) -> (r: Vec<RunState>)
    ensures
        runs_view(r@) == run_all_lines(value_view(*config), pairs_view(env@)),
{
    let states = extract(config, env);
    let vars = variables_of(value_get(config, "vars"));
    let vref = match &vars {
        Some(v) => Some(v),
        None => None,
    };
    let ghost vv = table_vars(vget(value_view(*config), "vars"@));
    assert(vv == crate::vars::opt_pairs_view(vref));
    let ghost sv = runs_view(states@);
    let mut r: Vec<RunState> = Vec::new();
    let mut i: usize = 0;
    while i < states.len()
        invariant
            i <= states.len(),
            sv == runs_view(states@),
            vv == crate::vars::opt_pairs_view(vref),
            runs_view(r@) =~= sv.take(i as int).map_values(|s: (Seq<char>, bool)| (subst(s.0, 0, vv, pairs_view(env@)), s.1)),
        decreases states.len() - i,
    {
        let ghost before = runs_view(r@);
        let run = substitute_text(states[i].run.as_str(), vref, env);
        let st = RunState { run, sudo: states[i].sudo };
        r.push(st);
        assert(runs_view(r@) =~= before.push(run_view(st)));
        assert(sv.take(i + 1).map_values(|s: (Seq<char>, bool)| (subst(s.0, 0, vv, pairs_view(env@)), s.1))
            =~= sv.take(i as int).map_values(|s: (Seq<char>, bool)| (subst(s.0, 0, vv, pairs_view(env@)), s.1)).push((subst(sv[i as int].0, 0, vv, pairs_view(env@)), sv[i as int].1)));
        i = i + 1;
    }
    assert(sv.take(states.len() as int) =~= sv);
    r
}

/// Why a named command cannot run.
pub enum RunError {
    /// "no such command '<name>'"
    NoSuchCommand(String),
    /// "command '<name>': missing `run` field"
    MissingRun(String),
}

/// The command table of a name, if `[commands]` has one.
pub open spec fn command_table(config: ValueView, which: Seq<char>) -> Option<ValueView> {
    match vget(config, "commands"@) {
        Some(ValueView::Table(es, _)) => match entry_lookup(es, which) {
            Some(ValueView::Table(x, t)) => Some(ValueView::Table(x, t)),
            _ => None,
        },
        _ => None,
    }
}

/// Run exactly one command entry, given its name: its line substituted,
/// and `sudo`.
pub fn run_one(config: &ConfigValue, which: &str, env: &Vec<(String, String)>) -> (r: Result<RunState, RunError>)
    ensures
        match command_table(value_view(*config), which@) {
            None => r matches Err(RunError::NoSuchCommand(n)) && n@ == which@,
            Some(t) => match vget(t, "run"@) {
                Some(ValueView::Text(line)) => r matches Ok(s) && run_view(s) == (subst(line, 0, table_vars(vget(value_view(*config), "vars"@)), pairs_view(env@)), sudo_of(t)),
                _ => r matches Err(RunError::MissingRun(n)) && n@ == which@,
            },
        },
{
    let table = match value_get(config, "commands") {
        Some(cmds) => match cmds {
            ConfigValue::Table(_, _) => match value_get(cmds, which) {
                Some(t) => match t {
                    ConfigValue::Table(_, _) => t,
                    _ => return Err(RunError::NoSuchCommand(owned(which))),
                },
                None => return Err(RunError::NoSuchCommand(owned(which))),
            },
            _ => return Err(RunError::NoSuchCommand(owned(which))),
        },
        None => return Err(RunError::NoSuchCommand(owned(which))),
    };
    let template = match value_get(table, "run") {
        Some(ConfigValue::Text(t)) => t,
        _ => return Err(RunError::MissingRun(owned(which))),
    };
    let vars = variables_of(value_get(config, "vars"));
    let vref = match &vars {
        Some(v) => Some(v),
        None => None,
    };
    let run = substitute_text(template.as_str(), vref, env);
    let sudo = match value_get(table, "sudo") {
        Some(ConfigValue::Boolean(b)) => *b,
        _ => false,
    };
    Ok(RunState { run, sudo })
}

/// What is logged for a command: `Would exec <program> <line>` in a dry
/// run, else `Exec <program> <line>`.
pub fn exec_message(s: &RunState, dry_run: bool) -> (r: String)
    ensures
        r@ == (if dry_run { "Would exec "@ } else { "Exec "@ }) + (if s.sudo { "sudo"@ } else { "sh"@ }) + " "@ + s.run@,
{
    let mut out: Vec<char> = Vec::new();
    if dry_run {
        push_str_chars(&mut out, "Would exec ");
    } else {
        push_str_chars(&mut out, "Exec ");
    }
    if s.sudo {
        push_str_chars(&mut out, "sudo");
    } else {
        push_str_chars(&mut out, "sh");
    }
    push_str_chars(&mut out, " ");
    push_str_chars(&mut out, s.run.as_str());
    let r = string_of(&out);
    assert(r@ =~= (if dry_run { "Would exec "@ } else { "Exec "@ }) + (if s.sudo { "sudo"@ } else { "sh"@ }) + " "@ + s.run@);
    r
}

} // verus!
