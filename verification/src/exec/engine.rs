//! The job runner with pattern-based substitution: `$name` and `${name}`
//! references, where a name is a letter or `_` followed by letters, digits
//! and `_`, found with the `regex` crate.
use vstd::prelude::*;
use crate::domains::opt_view;
use crate::text::{chars_of, owned, push_str_chars, string_of};
use crate::vars::{lookup, lookup_pair, opt_pairs_view, pairs_view};

pub use crate::exec::runner::{ExecJob, ExecMode};

verus! {

#[verifier::external_type_specification]
#[verifier::external_body]
pub struct ExRegex(regex::Regex);

/// A compiled pattern and the text it was compiled from. Its fields are
/// private, so that only [`compile`] builds one: the regex is always the
/// one compiled from the text.
pub struct VarPattern {
    source: String,
    re: regex::Regex,
}

impl View for VarPattern {
    type V = Seq<char>;

    /// The pattern's source text.
    closed spec fn view(&self) -> Seq<char> {
        self.source@
    }
}

/// The pattern of a variable reference.
pub const VAR_PATTERN: &'static str = "\\$([A-Za-z_][A-Za-z0-9_]*)|\\$\\{([A-Za-z_][A-Za-z0-9_]*)\\}";

/// Whether the `regex` crate accepts a pattern.
pub uninterp spec fn pattern_compiles(pattern: Seq<char>) -> bool;

/// `regex::Regex::new`: compiles a pattern; `None` where the crate refuses
/// it (an invalid pattern, or one over the size limit). Claimed: the
/// outcome depends on the pattern alone, and a compiled pattern keeps its
/// source text.
#[verifier::external_body]
fn compile(pattern: &str) -> (r: Option<VarPattern>)
    ensures
        r is Some <==> pattern_compiles(pattern@),
        r matches Some(p) ==> p@ == pattern@,
{
    match regex::Regex::new(pattern) {
        Ok(re) => Some(VarPattern { source: pattern.to_string(), re }),
        Err(_) => None,
    }
}

/// What replacing every match of `pattern` in `text`, leftmost first and
/// without overlap, with [`resolve_var`] of the match's captured name gives.
pub uninterp spec fn replaced_by_pattern(
    pattern: Seq<char>,
    text: Seq<char>,
    vars: Option<Seq<(Seq<char>, Seq<char>)>>,
    env: Seq<(Seq<char>, Seq<char>)>,
) -> Seq<char>;

/// `regex::Regex::replace_all` with a closure that hands the name the
/// first or second group captured to [`resolve_var`]. Claimed: the result
/// is a function of the pattern, the text, the variables and the
/// environment pairs, named [`replaced_by_pattern`].
#[verifier::external_body]
fn replace_vars(p: &VarPattern, text: &str, vars: Option<&Vec<(String, String)>>, env: &Vec<(String, String)>) -> (r: String)
    ensures
        r@ == replaced_by_pattern(p@, text@, opt_pairs_view(vars), pairs_view(env@)),
{
    p.re.replace_all(text, |caps: &regex::Captures| {
        resolve_var(vars, env, caps.get(1).or_else(|| caps.get(2)).map_or("", |m| m.as_str()))
    }).into_owned()
}

/// What replaces the reference to `name`: the configured variable, else the
/// environment variable, else `${name}`.
pub open spec fn resolved_var(vars: Option<Seq<(Seq<char>, Seq<char>)>>, env: Seq<(Seq<char>, Seq<char>)>, name: Seq<char>) -> Seq<char> {
    let configured = match vars {
        Some(v) => lookup(v, name),
        None => None,
    };
    match configured {
        Some(x) => x,
        None => match lookup(env, name) {
            Some(x) => x,
            None => "${"@ + name + "}"@,
        },
    }
}

/// Resolves a variable name.
pub fn resolve_var(vars: Option<&Vec<(String, String)>>, env: &Vec<(String, String)>, name: &str) -> (r: String)
    ensures
        r@ == resolved_var(opt_pairs_view(vars), pairs_view(env@), name@),
{
    let n = chars_of(name);
    let configured = match vars {
        Some(v) => lookup_pair(v, &n),
        None => None,
    };
    match configured {
        Some(x) => x,
        None => match lookup_pair(env, &n) {
            Some(x) => x,
            None => {
                let mut out: Vec<char> = Vec::new();
                push_str_chars(&mut out, "${");
                push_str_chars(&mut out, name);
                push_str_chars(&mut out, "}");
                string_of(&out)
            },
        },
    }
}

/// A text with its variable references substituted: every match of
/// [`VAR_PATTERN`] replaced by [`resolved_var`] of its name, or the text as it
/// is where the pattern does not compile.
pub open spec fn substituted(text: Seq<char>, vars: Option<Seq<(Seq<char>, Seq<char>)>>, env: Seq<(Seq<char>, Seq<char>)>) -> Seq<char> {
    if pattern_compiles(VAR_PATTERN@) {
        replaced_by_pattern(VAR_PATTERN@, text, vars, env)
    } else {
        text
    }
}

/// Perform variable substitution (env + `[vars]`) in a text: every match of
/// [`VAR_PATTERN`] is replaced by [`resolve_var`] of its name. Where the
/// pattern does not compile, the text is returned as it is.
pub fn substitute(text: &str, vars: Option<&Vec<(String, String)>>, env: &Vec<(String, String)>) -> (r: String)
    ensures
        r@ == substituted(text@, opt_pairs_view(vars), pairs_view(env@)),
{
    match compile(VAR_PATTERN) {
        Some(p) => replace_vars(&p, text, vars, env),
        None => owned(text),
    }
}

/// The warning that closes a run of all jobs: how many failed, or that
/// none ran when none succeeded.
pub fn run_all_summary(successes: u32, failures: u32) -> (r: Option<String>)
    ensures
        failures > 0 ==> (r matches Some(m) && m@ == crate::number::int_decimal(failures as int) + " external commands failed"@),
        failures == 0 && successes == 0 ==> (r matches Some(m) && m@ == "No regular external commands found. Maybe you meant flagged or all?"@),
        failures == 0 && successes > 0 ==> r is None,
{
    if failures > 0 {
        let d = crate::number::decimal_string(failures as i64);
        let mut out = chars_of(d.as_str());
        push_str_chars(&mut out, " external commands failed");
        Some(string_of(&out))
    } else if successes == 0 {
        Some(owned("No regular external commands found. Maybe you meant flagged or all?"))
    } else {
        None
    }
}


/// A configured variable wins over the environment: a name among the
/// configured variables resolves to the value of its first definition there,
/// whatever the environment holds.
pub proof fn law_configured_var_wins(vars: Seq<(Seq<char>, Seq<char>)>, env: Seq<(Seq<char>, Seq<char>)>, name: Seq<char>, i: int)
    requires
        0 <= i < vars.len(),
        vars[i].0 == name,
        forall|j: int| 0 <= j < i ==> vars[j].0 != name,
    ensures
        resolved_var(Some(vars), env, name) == vars[i].1,
{
    crate::vars::lemma_lookup_first(vars, name);
}

/// The environment is consulted only for names that are not configured: such
/// a name resolves to the value of its first definition in the environment,
/// and a name defined in neither stays a `${name}` reference.
pub proof fn law_unconfigured_var_from_env(vars: Option<Seq<(Seq<char>, Seq<char>)>>, env: Seq<(Seq<char>, Seq<char>)>, name: Seq<char>)
    requires
        vars matches Some(v) ==> forall|j: int| 0 <= j < v.len() ==> #[trigger] v[j].0 != name,
    ensures
        forall|i: int| 0 <= i < env.len() && #[trigger] env[i].0 == name && (forall|j: int| 0 <= j < i ==> env[j].0 != name)
            ==> resolved_var(vars, env, name) == env[i].1,
        (forall|i: int| 0 <= i < env.len() ==> #[trigger] env[i].0 != name) ==> resolved_var(vars, env, name) == "${"@ + name + "}"@,
{
    if let Some(v) = vars {
        crate::vars::lemma_lookup_first(v, name);
    }
    crate::vars::lemma_lookup_first(env, name);
}

} // verus!
