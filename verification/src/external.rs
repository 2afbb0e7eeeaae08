//! External commands of the `[external]` table: extracting them for the
//! snapshot, and the shell lines that run them, variables substituted.
use vstd::prelude::*;
use crate::brew::types::names_view;
use crate::number::{decimal_string, int_decimal};
use crate::snapshot::ExternalCommandState;
use crate::text::{chars_of, concat_all, join_with, joined, owned, push_str_chars, string_of};
use crate::value::{entries_view, lemma_entries_view, lemma_values_view_len, text_items, texts, value_get, value_view, values_view, vget, ConfigValue, ValueView};
use crate::vars::{pairs_view, subst, substitute_text};

pub mod runner;

verus! {

pub open spec fn bool_text(b: bool) -> Seq<char> {
    if b { "true"@ } else { "false"@ }
}

/// The text a variable stands for: a string itself, the strings of an
/// array joined by spaces, and the TOML text of any other value.
pub open spec fn var_text(v: ValueView) -> Seq<char> {
    match v {
        ValueView::Text(s) => s,
        ValueView::Array(xs, _) => joined(texts(xs), " "@),
        ValueView::Boolean(b) => bool_text(b),
        ValueView::Integer(n) => int_decimal(n as int),
        ValueView::Float(t) => t,
        ValueView::Datetime(t) => t,
        ValueView::Table(_, t) => t,
    }
}

/// The variables of a table, each by the text it stands for; none unless
/// the value is a table.
pub open spec fn table_vars(v: Option<ValueView>) -> Option<Seq<(Seq<char>, Seq<char>)>> {
    match v {
        Some(ValueView::Table(es, _)) => Some(es.map_values(|e: (Seq<char>, ValueView)| (e.0, var_text(e.1)))),
        _ => None,
    }
}

/// The text a variable stands for.
pub fn variable_text(v: &ConfigValue) -> (r: String)
    ensures
        r@ == var_text(value_view(*v)),
{
    match v {
        ConfigValue::Text(s) => s.clone(),
        ConfigValue::Array(xs, _) => {
            let ts = text_items(xs);
            join_with(&ts, " ")
        },
        ConfigValue::Boolean(b) => if *b { owned("true") } else { owned("false") },
        ConfigValue::Integer(n) => decimal_string(*n),
        ConfigValue::Float(t) => t.clone(),
        ConfigValue::Datetime(t) => t.clone(),
        ConfigValue::Table(_, t) => t.clone(),
    }
}

/// The variables of a table value, by the text each stands for.
pub fn variables_of(v: Option<&ConfigValue>) -> (r: Option<Vec<(String, String)>>)
    ensures
        match r {
            Some(p) => table_vars(match v { Some(x) => Some(value_view(*x)), None => None }) == Some(pairs_view(p@)),
            None => table_vars(match v { Some(x) => Some(value_view(*x)), None => None }) is None,
        },
{
    match v {
        Some(ConfigValue::Table(es, _)) => {
            let ghost ev = entries_view(es@);
            proof {
                lemma_entries_view(es@);
            }
            let mut r: Vec<(String, String)> = Vec::new();
            let mut i: usize = 0;
            while i < es.len()
                invariant
                    i <= es.len(),
                    ev == entries_view(es@),
                    ev.len() == es@.len(),
                    forall|k: int| 0 <= k < es@.len() ==> #[trigger] ev[k] == (es@[k].0@, value_view(es@[k].1)),
                    pairs_view(r@) =~= ev.take(i as int).map_values(|e: (Seq<char>, ValueView)| (e.0, var_text(e.1))),
                decreases es.len() - i,
            {
                let ghost before = r@;
                let t = variable_text(&es[i].1);
                r.push((es[i].0.clone(), t));
                assert(pairs_view(r@) =~= pairs_view(before).push((es@[i as int].0@, var_text(value_view(es@[i as int].1)))));
                assert(ev.take(i + 1).map_values(|e: (Seq<char>, ValueView)| (e.0, var_text(e.1)))
                    =~= ev.take(i as int).map_values(|e: (Seq<char>, ValueView)| (e.0, var_text(e.1))).push((ev[i as int].0, var_text(ev[i as int].1))));
                i = i + 1;
            }
            assert(ev.take(es.len() as int) =~= ev);
            Some(r)
        },
        _ => None,
    }
}

/// An external command by content: command, arguments, sudo.
pub type ExternalView = (Seq<char>, Seq<Seq<char>>, bool);

pub open spec fn external_view(s: ExternalCommandState) -> ExternalView {
    (s.cmd@, names_view(s.args@), s.sudo)
}

pub open spec fn externals_view(s: Seq<ExternalCommandState>) -> Seq<ExternalView> {
    s.map_values(|x: ExternalCommandState| external_view(x))
}

/// The string arguments of a command table; none unless `args` is an array.
pub open spec fn args_of(item: ValueView) -> Seq<Seq<char>> {
    match vget(item, "args"@) {
        Some(ValueView::Array(xs, _)) => texts(xs),
        _ => Seq::empty(),
    }
}

/// `sudo` of a command table; off unless it is a boolean.
pub open spec fn sudo_of(item: ValueView) -> bool {
    match vget(item, "sudo"@) {
        Some(ValueView::Boolean(b)) => b,
        _ => false,
    }
}

/// A command table with a string `cmd`, as the snapshot records it.
pub open spec fn command_state(item: ValueView) -> Option<ExternalView> {
    match item {
        ValueView::Table(_, _) => match vget(item, "cmd"@) {
            Some(ValueView::Text(c)) => Some((c, args_of(item), sudo_of(item))),
            _ => None,
        },
        _ => None,
    }
}

pub open spec fn command_states(items: Seq<ValueView>) -> Seq<ExternalView>
    decreases items.len(),
{
    if items.len() == 0 {
        Seq::empty()
    } else {
        let r = command_states(items.drop_last());
        match command_state(items.last()) {
            Some(s) => r.push(s),
            None => r,
        }
    }
}

/// The `command` array of the `[external]` table.
pub open spec fn command_items(config: ValueView) -> Option<Seq<ValueView>> {
    match vget(config, "external"@) {
        Some(ext) => match vget(ext, "command"@) {
            Some(ValueView::Array(xs, _)) => Some(xs),
            _ => None,
        },
        None => None,
    }
}

pub open spec fn external_states(config: ValueView) -> Seq<ExternalView> {
    match command_items(config) {
        Some(xs) => command_states(xs),
        None => Seq::empty(),
    }
}

fn copy_names(v: &Vec<String>) -> (r: Vec<String>)
    ensures
        names_view(r@) == names_view(v@),
{
    crate::brew::opt_list(&Some(v.clone()))
}

/// Extracts external commands from the config into [`ExternalCommandState`]
/// objects: each table of `external.command` with a string `cmd`.
pub fn extract_external_commands(config: &ConfigValue) -> (r: Vec<ExternalCommandState>)
    ensures
        externals_view(r@) == external_states(value_view(*config)),
{
    let mut r: Vec<ExternalCommandState> = Vec::new();
    assert(externals_view(r@) =~= Seq::<ExternalView>::empty());
    let ext = match value_get(config, "external") {
        Some(e) => e,
        None => return r,
    };
    let items = match value_get(ext, "command") {
        Some(ConfigValue::Array(xs, _)) => xs,
        _ => return r,
    };
    let ghost iv = values_view(items@);
    proof {
        lemma_values_view_len(items@);
    }
    let mut i: usize = 0;
    while i < items.len()
        invariant
            i <= items.len(),
            iv == values_view(items@),
            iv.len() == items@.len(),
            forall|k: int| 0 <= k < items@.len() ==> #[trigger] iv[k] == value_view(items@[k]),
            externals_view(r@) == command_states(iv.take(i as int)),
        decreases items.len() - i,
    {
        assert(iv.take(i + 1).drop_last() =~= iv.take(i as int));
        assert(iv.take(i + 1).last() == value_view(items@[i as int]));
        let item = &items[i];
        if let ConfigValue::Table(_, _) = item {
            if let Some(ConfigValue::Text(c)) = value_get(item, "cmd") {
                let args = match value_get(item, "args") {
                    Some(ConfigValue::Array(xs, _)) => text_items(xs),
                    _ => {
                        let e: Vec<String> = Vec::new();
                        assert(e@.map_values(|s: String| s@) =~= Seq::<Seq<char>>::empty());
                        e
                    },
                };
                let sudo = match value_get(item, "sudo") {
                    Some(ConfigValue::Boolean(b)) => *b,
                    _ => false,
                };
                assert(names_view(args@) =~= args@.map_values(|s: String| s@));
                let ghost before = r@;
                let st = ExternalCommandState { cmd: c.clone(), args, sudo };
                r.push(st);
                assert(externals_view(r@) =~= externals_view(before).push(external_view(st)));
            }
        }
        i = i + 1;
    }
    assert(iv.take(items.len() as int) =~= iv);
    r
}

/// An argument as it is appended to the command line: after a space, and
/// in double quotes when it holds a space and is not already quoted.
pub open spec fn quoted_arg(a: Seq<char>) -> Seq<char> {
    let quoted = a.len() > 0 && ((a[0] == '"' && a.last() == '"') || (a[0] == '\'' && a.last() == '\''));
    if a.contains(' ') && !quoted {
        " \""@ + a + "\""@
    } else {
        " "@ + a
    }
}

/// The shell line of a command table: `cmd` followed by its string
/// arguments, each substituted and quoted, then substituted as a whole.
pub open spec fn shell_line(item: ValueView, cmd: Seq<char>, vars: Option<Seq<(Seq<char>, Seq<char>)>>, env: Seq<(Seq<char>, Seq<char>)>) -> Seq<char> {
    let full = match vget(item, "args"@) {
        Some(ValueView::Array(xs, _)) => cmd + concat_all(texts(xs).map_values(|a: Seq<char>| quoted_arg(subst(a, 0, vars, env)))),
        _ => cmd,
    };
    subst(full, 0, vars, env)
}

/// Why the external commands stopped.
pub enum ExternalError {
    /// "Invalid external command format: expected a table"
    NotATable,
    /// "Missing 'cmd' in external command"
    MissingCmd,
}

/// The shell lines of the command tables in order, with their `sudo`,
/// until an item that is not a table or has no string `cmd`.
pub open spec fn plan_steps(items: Seq<ValueView>, vars: Option<Seq<(Seq<char>, Seq<char>)>>, env: Seq<(Seq<char>, Seq<char>)>) -> (Seq<(Seq<char>, bool)>, Option<ExternalError>)
    decreases items.len(),
{
    if items.len() == 0 {
        (Seq::empty(), None)
    } else {
        let p = plan_steps(items.drop_last(), vars, env);
        let item = items.last();
        if p.1 is Some {
            p
        } else {
            match item {
                ValueView::Table(_, _) => match vget(item, "cmd"@) {
                    Some(ValueView::Text(c)) => (p.0.push((shell_line(item, c, vars, env), sudo_of(item))), None),
                    _ => (p.0, Some(ExternalError::MissingCmd)),
                },
                _ => (p.0, Some(ExternalError::NotATable)),
            }
        }
    }
}

pub open spec fn external_plan_of(config: ValueView, env: Seq<(Seq<char>, Seq<char>)>) -> (Seq<(Seq<char>, bool)>, Option<ExternalError>) {
    match vget(config, "external"@) {
        None => (Seq::empty(), None),
        Some(ext) => match vget(ext, "command"@) {
            Some(ValueView::Array(xs, _)) => plan_steps(xs, table_vars(vget(ext, "variables"@)), env),
            _ => (Seq::empty(), None),
        },
    }
}

/// A shell line to run, under `sudo` or not.
pub struct ShellCommand {
    pub line: String,
    pub sudo: bool,
}

/// The shell lines to run in order, and the error that stops the run after them.
pub struct ExternalPlan {
    pub commands: Vec<ShellCommand>,
    pub error: Option<ExternalError>,
}

pub open spec fn shells_view(s: Seq<ShellCommand>) -> Seq<(Seq<char>, bool)> {
    s.map_values(|c: ShellCommand| (c.line@, c.sudo))
}

fn quote_arg(out: &mut Vec<char>, a: &String)
    ensures
        final(out)@ == old(out)@ + quoted_arg(a@),
{
    let v = chars_of(a.as_str());
    let n = v.len();
    let mut has_space = false;
    let mut i: usize = 0;
    while i < n
        invariant
            i <= n,
            n == v.len(),
            v@ == a@,
            has_space == exists|k: int| 0 <= k < i && v@[k] == ' ',
        decreases n - i,
    {
        if v[i] == ' ' {
            has_space = true;
        }
        i = i + 1;
    }
    assert(has_space == a@.contains(' '));
    let quoted = n > 0 && ((v[0] == '"' && v[n - 1] == '"') || (v[0] == '\'' && v[n - 1] == '\''));
    if has_space && !quoted {
        push_str_chars(out, " \"");
        push_str_chars(out, a.as_str());
        push_str_chars(out, "\"");
        assert(final(out)@ =~= old(out)@ + quoted_arg(a@));
    } else {
        push_str_chars(out, " ");
        push_str_chars(out, a.as_str());
        assert(final(out)@ =~= old(out)@ + quoted_arg(a@));
    }
}

fn line_of(item: &ConfigValue, cmd: &String, vars: Option<&Vec<(String, String)>>, env: &Vec<(String, String)>) -> (r: String)
    ensures
        r@ == shell_line(value_view(*item), cmd@, match vars { Some(v) => Some(pairs_view(v@)), None => None }, pairs_view(env@)),
{
    let ghost vv = match vars { Some(v) => Some(pairs_view(v@)), None => None };
    let ghost ev = pairs_view(env@);
    let mut full = chars_of(cmd.as_str());
    match value_get(item, "args") {
        Some(ConfigValue::Array(xs, _)) => {
            let ts = text_items(xs);
            let ghost tv = ts@.map_values(|s: String| s@);
            let ghost f = |a: Seq<char>| quoted_arg(subst(a, 0, vv, ev));
            let mut i: usize = 0;
            while i < ts.len()
                invariant
                    i <= ts.len(),
                    tv == ts@.map_values(|s: String| s@),
                    vv == match vars { Some(v) => Some(pairs_view(v@)), None => None },
                    ev == pairs_view(env@),
                    full@ == cmd@ + concat_all(tv.take(i as int).map_values(|a: Seq<char>| quoted_arg(subst(a, 0, vv, ev)))),
                decreases ts.len() - i,
            {
                let p = substitute_text(ts[i].as_str(), vars, env);
                let ghost before = full@;
                quote_arg(&mut full, &p);
                let ghost m0 = tv.take(i as int).map_values(|a: Seq<char>| quoted_arg(subst(a, 0, vv, ev)));
                let ghost x = quoted_arg(subst(tv[i as int], 0, vv, ev));
                assert(tv[i as int] == ts@[i as int]@);
                assert(tv.take(i + 1).map_values(|a: Seq<char>| quoted_arg(subst(a, 0, vv, ev))) =~= m0.push(x));
                assert(m0.push(x).drop_last() =~= m0);
                assert(concat_all(m0.push(x)) == concat_all(m0) + x);
                assert(full@ =~= cmd@ + concat_all(tv.take(i + 1).map_values(|a: Seq<char>| quoted_arg(subst(a, 0, vv, ev)))));
                i = i + 1;
            }
            assert(tv.take(ts.len() as int) =~= tv);
        },
        _ => {},
    }
    let s = string_of(&full);
    substitute_text(s.as_str(), vars, env)
}

/// Plans the external commands: the shell lines to run in order, each with
/// `sudo` or not, and the error met at a malformed item, which stops the run
/// after the lines before it. `env` holds the environment's name and value pairs.
pub fn external_plan(config: &ConfigValue, env: &Vec<(String, String)>) -> (r: ExternalPlan)
    ensures
        (shells_view(r.commands@), r.error) == external_plan_of(value_view(*config), pairs_view(env@)),
{
    let mut commands: Vec<ShellCommand> = Vec::new();
    assert(shells_view(commands@) =~= Seq::<(Seq<char>, bool)>::empty());
    let ext = match value_get(config, "external") {
        Some(e) => e,
        None => return ExternalPlan { commands, error: None },
    };
    let items = match value_get(ext, "command") {
        Some(ConfigValue::Array(xs, _)) => xs,
        _ => return ExternalPlan { commands, error: None },
    };
    let vars = variables_of(value_get(ext, "variables"));
    let vref = match &vars {
        Some(v) => Some(v),
        None => None,
    };
    let ghost vv = table_vars(vget(value_view(*ext), "variables"@));
    assert(vv == match vref { Some(v) => Some(pairs_view(v@)), None => None });
    let ghost iv = values_view(items@);
    proof {
        lemma_values_view_len(items@);
    }
    assert(external_plan_of(value_view(*config), pairs_view(env@)) == plan_steps(iv, vv, pairs_view(env@)));
    let mut i: usize = 0;
    while i < items.len()
        invariant
            i <= items.len(),
            iv == values_view(items@),
            iv.len() == items@.len(),
            external_plan_of(value_view(*config), pairs_view(env@)) == plan_steps(iv, vv, pairs_view(env@)),
            forall|k: int| 0 <= k < items@.len() ==> #[trigger] iv[k] == value_view(items@[k]),
            vv == match vref { Some(v) => Some(pairs_view(v@)), None => None },
            (shells_view(commands@), None::<ExternalError>) == plan_steps(iv.take(i as int), vv, pairs_view(env@)),
        decreases items.len() - i,
    {
        assert(iv.take(i + 1).drop_last() =~= iv.take(i as int));
        assert(iv.take(i + 1).last() == value_view(items@[i as int]));
        let item = &items[i];
        let err = match item {
            ConfigValue::Table(_, _) => match value_get(item, "cmd") {
                Some(ConfigValue::Text(c)) => {
                    let line = line_of(item, c, vref, env);
                    let sudo = match value_get(item, "sudo") {
                        Some(ConfigValue::Boolean(b)) => *b,
                        _ => false,
                    };
                    let ghost before = shells_view(commands@);
                    commands.push(ShellCommand { line, sudo });
                    assert(shells_view(commands@) =~= before.push((line@, sudo)));
                    None
                },
                _ => Some(ExternalError::MissingCmd),
            },
            _ => Some(ExternalError::NotATable),
        };
        if err.is_some() {
            proof {
                assert(plan_steps(iv.take(i + 1), vv, pairs_view(env@)) == (shells_view(commands@), err));
                lemma_plan_stopped(iv, vv, pairs_view(env@), i + 1, items.len() as int);
                assert(iv.take(items.len() as int) =~= iv);
            }
            return ExternalPlan { commands, error: err };
        }
        i = i + 1;
    }
    assert(iv.take(items.len() as int) =~= iv);
    ExternalPlan { commands, error: None }
}

proof fn lemma_plan_stopped(items: Seq<ValueView>, vars: Option<Seq<(Seq<char>, Seq<char>)>>, env: Seq<(Seq<char>, Seq<char>)>, n: int, m: int)
    requires
        0 <= n <= m <= items.len(),
        plan_steps(items.take(n), vars, env).1 is Some,
    ensures
        plan_steps(items.take(m), vars, env) == plan_steps(items.take(n), vars, env),
    decreases m - n,
{
    if m > n {
        lemma_plan_stopped(items, vars, env, n, m - 1);
        assert(items.take(m).drop_last() =~= items.take(m - 1));
    }
}

/// The shell run of a line: `sh -c <line>`, under `sudo` when asked.
pub fn shell_invocation(cmd: &ShellCommand) -> (r: (String, Vec<String>))
    ensures
        r.0@ == if cmd.sudo { "sudo"@ } else { "sh"@ },
        names_view(r.1@) == if cmd.sudo { seq!["sh"@, "-c"@, cmd.line@] } else { seq!["-c"@, cmd.line@] },
{
    if cmd.sudo {
        let args = vec![owned("sh"), owned("-c"), cmd.line.clone()];
        assert(names_view(args@) =~= seq!["sh"@, "-c"@, cmd.line@]);
        (owned("sudo"), args)
    } else {
        let args = vec![owned("-c"), cmd.line.clone()];
        assert(names_view(args@) =~= seq!["-c"@, cmd.line@]);
        (owned("sh"), args)
    }
}

/// What is logged before a line runs (verbose) or instead of running it
/// (dry run).
pub fn shell_message(cmd: &ShellCommand, dry_run: bool) -> (r: String)
    ensures
        r@ == (if dry_run { "Dry-run: Would execute shell command"@ } else { "Executing shell command"@ })
            + (if cmd.sudo { " with sudo"@ } else { Seq::empty() }) + ": "@ + cmd.line@,
{
    let mut out: Vec<char> = Vec::new();
    if dry_run {
        push_str_chars(&mut out, "Dry-run: Would execute shell command");
    } else {
        push_str_chars(&mut out, "Executing shell command");
    }
    if cmd.sudo {
        push_str_chars(&mut out, " with sudo");
    }
    push_str_chars(&mut out, ": ");
    push_str_chars(&mut out, cmd.line.as_str());
    let r = string_of(&out);
    assert(r@ =~= (if dry_run { "Dry-run: Would execute shell command"@ } else { "Executing shell command"@ })
            + (if cmd.sudo { " with sudo"@ } else { Seq::empty() }) + ": "@ + cmd.line@);
    r
}

} // verus!
