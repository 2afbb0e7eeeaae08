//! The configuration file: its model, where it lives, and how it loads.
use vstd::prelude::*;
use crate::config::model::{Brew, Command, Config, Mas, Remote};
use crate::domains::{groups_view, Group};
use crate::value::same_entries;
use crate::domains::opt_view;
use crate::text::{chars_of, owned, push_str_chars, string_of};
use crate::vars::{lookup, pairs_view};

pub mod document;
pub mod model;

verus! {

/// `PathBuf::join` of a relative part: the part after a `/`, which is left
/// out where the base is empty or already ends in one.
pub open spec fn join_path(base: Seq<char>, part: Seq<char>) -> Seq<char> {
    if base.len() == 0 {
        part
    } else if base.last() == '/' {
        base + part
    } else {
        base + "/"@ + part
    }
}

pub fn join(base: &str, part: &str) -> (r: String)
    ensures
        r@ == join_path(base@, part@),
{
    let b = chars_of(base);
    let mut out = chars_of(base);
    if b.len() > 0 && b[b.len() - 1] != '/' {
        push_str_chars(&mut out, "/");
    }
    push_str_chars(&mut out, part);
    let r = string_of(&out);
    assert(r@ =~= join_path(base@, part@));
    r
}

/// The places a configuration may live, in the order they are tried:
/// `$HOME/.config/cutler/config.toml`, `$HOME/.config/cutler.toml`,
/// `$XDG_CONFIG_HOME/cutler/config.toml`, `$XDG_CONFIG_HOME/cutler.toml`.
pub open spec fn candidates_of(home: Option<Seq<char>>, xdg: Option<Seq<char>>) -> Seq<Seq<char>> {
    (match home {
        Some(h) => seq![
            join_path(join_path(join_path(h, ".config"@), "cutler"@), "config.toml"@),
            join_path(join_path(h, ".config"@), "cutler.toml"@),
        ],
        None => Seq::empty(),
    }) + (match xdg {
        Some(x) => seq![
            join_path(join_path(x, "cutler"@), "config.toml"@),
            join_path(x, "cutler.toml"@),
        ],
        None => Seq::empty(),
    })
}

pub fn config_candidates(home: Option<&str>, xdg: Option<&str>) -> (r: Vec<String>)
    ensures
        r@.map_values(|s: String| s@) == candidates_of(match home { Some(h) => Some(h@), None => None }, match xdg { Some(x) => Some(x@), None => None }),
{
    let mut r: Vec<String> = Vec::new();
    match home {
        Some(h) => {
            let a = join(h, ".config");
            let b = join(a.as_str(), "cutler");
            r.push(join(b.as_str(), "config.toml"));
            r.push(join(a.as_str(), "cutler.toml"));
        },
        None => {},
    }
    match xdg {
        Some(x) => {
            let a = join(x, "cutler");
            r.push(join(a.as_str(), "config.toml"));
            r.push(join(x, "cutler.toml"));
        },
        None => {},
    }
    assert(r@.map_values(|s: String| s@) =~= candidates_of(match home { Some(h) => Some(h@), None => None }, match xdg { Some(x) => Some(x@), None => None }));
    r
}

/// The first candidate that exists, else the first candidate; none when
/// there is no candidate.
pub open spec fn chosen_path(candidates: Seq<Seq<char>>, exists: Seq<bool>) -> Option<Seq<char>> {
    if exists_first(exists, candidates.len() as int) is Some {
        Some(candidates[exists_first(exists, candidates.len() as int)->0])
    } else if candidates.len() > 0 {
        Some(candidates[0])
    } else {
        None
    }
}

/// The first position before `n` whose candidate exists.
pub open spec fn exists_first(exists: Seq<bool>, n: int) -> Option<int>
    decreases n,
{
    if n <= 0 {
        None
    } else {
        match exists_first(exists, n - 1) {
            Some(i) => Some(i),
            None => if exists[n - 1] { Some(n - 1) } else { None },
        }
    }
}

/// Picks the configuration path among the candidates; `exists[i]` says
/// whether `candidates[i]` exists.
pub fn choose_config_path(candidates: &Vec<String>, exists: &Vec<bool>) -> (r: Option<String>)
    requires
        exists.len() == candidates.len(),
    ensures
        opt_view(r) == chosen_path(candidates@.map_values(|s: String| s@), exists@),
{
    let ghost cv = candidates@.map_values(|s: String| s@);
    let mut i: usize = 0;
    while i < candidates.len()
        invariant
            i <= candidates.len(),
            exists.len() == candidates.len(),
            cv == candidates@.map_values(|s: String| s@),
            exists_first(exists@, i as int) is None,
        decreases candidates.len() - i,
    {
        if exists[i] {
            proof {
                lemma_exists_first_stays(exists@, i as int + 1, candidates.len() as int);
            }
            return Some(candidates[i].clone());
        }
        i = i + 1;
    }
    if candidates.len() > 0 {
        Some(candidates[0].clone())
    } else {
        None
    }
}

proof fn lemma_exists_first_stays(exists: Seq<bool>, n: int, m: int)
    requires
        0 <= n <= m,
        exists_first(exists, n) is Some,
    ensures
        exists_first(exists, m) == exists_first(exists, n),
    decreases m - n,
{
    if m > n {
        lemma_exists_first_stays(exists, n, m - 1);
    }
}

/// The places the older layout tries: `$XDG_CONFIG_HOME/cutler/config.toml`,
/// `$HOME/.config/cutler/config.toml`, `$HOME/.config/cutler.toml`, then
/// `config.toml`.
pub open spec fn legacy_candidates_of(home: Option<Seq<char>>, xdg: Option<Seq<char>>) -> Seq<Seq<char>> {
    (match xdg {
        Some(x) => seq![join_path(join_path(x, "cutler"@), "config.toml"@)],
        None => Seq::empty(),
    }) + (match home {
        Some(h) => seq![
            join_path(join_path(join_path(h, ".config"@), "cutler"@), "config.toml"@),
            join_path(join_path(h, ".config"@), "cutler.toml"@),
        ],
        None => Seq::empty(),
    }) + seq!["config.toml"@]
}

pub fn legacy_config_candidates(home: Option<&str>, xdg: Option<&str>) -> (r: Vec<String>)
    ensures
        r@.map_values(|s: String| s@) == legacy_candidates_of(match home { Some(h) => Some(h@), None => None }, match xdg { Some(x) => Some(x@), None => None }),
{
    let mut r: Vec<String> = Vec::new();
    match xdg {
        Some(x) => {
            let a = join(x, "cutler");
            r.push(join(a.as_str(), "config.toml"));
        },
        None => {},
    }
    match home {
        Some(h) => {
            let a = join(h, ".config");
            let b = join(a.as_str(), "cutler");
            r.push(join(b.as_str(), "config.toml"));
            r.push(join(a.as_str(), "cutler.toml"));
        },
        None => {},
    }
    r.push(owned("config.toml"));
    assert(r@.map_values(|s: String| s@) =~= legacy_candidates_of(match home { Some(h) => Some(h@), None => None }, match xdg { Some(x) => Some(x@), None => None }));
    r
}

/// Returns the path to the config file, respecting `XDG_CONFIG_HOME` if
/// available, else under `HOME`, else `config.toml`.
pub fn get_config_path(home: Option<&str>, xdg: Option<&str>) -> (r: String)
    ensures
        r@ == match xdg {
            Some(x) => join_path(join_path(x@, "cutler"@), "config.toml"@),
            None => match home {
                Some(h) => join_path(join_path(join_path(h@, ".config"@), "cutler"@), "config.toml"@),
                None => "config.toml"@,
            },
        },
{
    match xdg {
        Some(x) => {
            let a = join(x, "cutler");
            join(a.as_str(), "config.toml")
        },
        None => match home {
            Some(h) => {
                let a = join(h, ".config");
                let b = join(a.as_str(), "cutler");
                join(b.as_str(), "config.toml")
            },
            None => owned("config.toml"),
        },
    }
}

/// Returns the path for the snapshot file: `.cutler_snapshot` under `HOME`,
/// or in the working directory.
pub fn get_snapshot_path(home: Option<&str>) -> (r: String)
    ensures
        r@ == match home {
            Some(h) => join_path(h@, ".cutler_snapshot"@),
            None => ".cutler_snapshot"@,
        },
{
    match home {
        Some(h) => join(h, ".cutler_snapshot"),
        None => owned(".cutler_snapshot"),
    }
}

/// Why a configuration cannot be used.
pub enum ConfigError {
    /// "Config path does not exist!"
    NotFound,
    /// "Config is locked. Run `cutler unlock` to unlock."
    Locked,
}

impl Config {
    /// A configuration with nothing set, for a path.
    pub fn new(path: String) -> (r: Config)
        ensures
            r.path@ == path@,
            r.lock is None && r.set is None && r.vars is None && r.command is None,
            r.brew is None && r.mas is None && r.remote is None,
    {
        Config { lock: None, set: None, vars: None, command: None, brew: None, mas: None, remote: None, path }
    }

    /// Whether the configuration can be loaded: its path is set and exists.
    pub fn is_loadable(&self, exists: bool) -> (r: bool)
        ensures
            r == (self.path@.len() > 0 && exists),
    {
        chars_of(self.path.as_str()).len() > 0 && exists
    }
}

/// The check made when a configuration loads: a missing file, or a locked
/// one where locked configurations are refused.
pub fn load_check(loadable: bool, lock: Option<bool>, not_if_locked: bool) -> (r: Result<(), ConfigError>)
    ensures
        !loadable ==> r matches Err(ConfigError::NotFound),
        loadable && lock == Some(true) && not_if_locked ==> r matches Err(ConfigError::Locked),
        loadable && !(lock == Some(true) && not_if_locked) ==> r is Ok,
{
    if !loadable {
        return Err(ConfigError::NotFound);
    }
    let locked = match lock {
        Some(b) => b,
        None => false,
    };
    if locked && not_if_locked {
        Err(ConfigError::Locked)
    } else {
        Ok(())
    }
}

/// Two optional lists of names are equal.
pub open spec fn same_names(a: Option<Vec<String>>, b: Option<Vec<String>>) -> bool {
    match (a, b) {
        (Some(x), Some(y)) => x@.map_values(|s: String| s@) == y@.map_values(|s: String| s@),
        (None, None) => true,
        _ => false,
    }
}

/// Two `[brew]` tables are equal, field by field.
pub open spec fn same_brew(a: Option<Brew>, b: Option<Brew>) -> bool {
    match (a, b) {
        (Some(x), Some(y)) => same_names(x.formulae, y.formulae) && same_names(x.casks, y.casks)
            && same_names(x.taps, y.taps) && x.no_deps == y.no_deps,
        (None, None) => true,
        _ => false,
    }
}

/// Two `[remote]` tables are equal.
pub open spec fn same_remote(a: Option<Remote>, b: Option<Remote>) -> bool {
    match (a, b) {
        (Some(x), Some(y)) => x.url@ == y.url@ && x.autosync == y.autosync,
        (None, None) => true,
        _ => false,
    }
}

/// Two variable tables hold the same variables: every name of each has the
/// same value in the other, and they are as long.
pub open spec fn same_vars(a: Option<Vec<(String, String)>>, b: Option<Vec<(String, String)>>) -> bool {
    match (a, b) {
        (Some(x), Some(y)) => {
            let xv = pairs_view(x@);
            let yv = pairs_view(y@);
            xv.len() == yv.len()
                && (forall|i: int| 0 <= i < xv.len() ==> lookup(yv, (#[trigger] xv[i]).0) == Some(xv[i].1))
                && (forall|i: int| 0 <= i < yv.len() ==> lookup(xv, (#[trigger] yv[i]).0) == Some(yv[i].1))
        },
        (None, None) => true,
        _ => false,
    }
}

/// Two lists of names are equal, item by item.
fn strings_equal(x: &Vec<String>, y: &Vec<String>) -> (r: bool)
    ensures
        r == (x@.map_values(|s: String| s@) == y@.map_values(|s: String| s@)),
{
    if x.len() != y.len() {
        assert(x@.map_values(|s: String| s@).len() != y@.map_values(|s: String| s@).len());
        return false;
    }
    let mut i: usize = 0;
    while i < x.len()
        invariant
            i <= x.len(),
            x.len() == y.len(),
            forall|k: int| 0 <= k < i ==> x@[k]@ == y@[k]@,
        decreases x.len() - i,
    {
        if !crate::text::str_eq(x[i].as_str(), y[i].as_str()) {
            assert(x@.map_values(|s: String| s@)[i as int] != y@.map_values(|s: String| s@)[i as int]);
            return false;
        }
        i = i + 1;
    }
    assert(x@.map_values(|s: String| s@) =~= y@.map_values(|s: String| s@));
    true
}

fn names_equal(a: &Option<Vec<String>>, b: &Option<Vec<String>>) -> (r: bool)
    ensures
        r == same_names(*a, *b),
{
    match (a, b) {
        (Some(x), Some(y)) => strings_equal(x, y),
        (None, None) => true,
        _ => false,
    }
}

fn brew_equal(a: &Option<Brew>, b: &Option<Brew>) -> (r: bool)
    ensures
        r == same_brew(*a, *b),
{
    match (a, b) {
        (Some(x), Some(y)) => names_equal(&x.formulae, &y.formulae) && names_equal(&x.casks, &y.casks)
            && names_equal(&x.taps, &y.taps) && x.no_deps == y.no_deps,
        (None, None) => true,
        _ => false,
    }
}

fn remote_equal(a: &Option<Remote>, b: &Option<Remote>) -> (r: bool)
    ensures
        r == same_remote(*a, *b),
{
    match (a, b) {
        (Some(x), Some(y)) => crate::text::str_eq(x.url.as_str(), y.url.as_str()) && x.autosync == y.autosync,
        (None, None) => true,
        _ => false,
    }
}

/// Every pair of `x` has its value under its name in `y`.
fn all_found(x: &Vec<(String, String)>, y: &Vec<(String, String)>) -> (r: bool)
    ensures
        r == forall|i: int| 0 <= i < x@.len() ==> lookup(pairs_view(y@), (#[trigger] pairs_view(x@)[i]).0) == Some(pairs_view(x@)[i].1),
{
    let ghost xv = pairs_view(x@);
    let ghost yv = pairs_view(y@);
    let mut i: usize = 0;
    while i < x.len()
        invariant
            i <= x.len(),
            xv == pairs_view(x@),
            yv == pairs_view(y@),
            forall|k: int| 0 <= k < i ==> lookup(yv, (#[trigger] xv[k]).0) == Some(xv[k].1),
        decreases x.len() - i,
    {
        let name = chars_of(x[i].0.as_str());
        let found = crate::vars::lookup_pair(y, &name);
        assert(xv[i as int] == (x@[i as int].0@, x@[i as int].1@));
        let ok = match &found {
            Some(v) => crate::text::str_eq(v.as_str(), x[i].1.as_str()),
            None => false,
        };
        if !ok {
            return false;
        }
        i = i + 1;
    }
    true
}

fn vars_equal(a: &Option<Vec<(String, String)>>, b: &Option<Vec<(String, String)>>) -> (r: bool)
    ensures
        r == same_vars(*a, *b),
{
    match (a, b) {
        (Some(x), Some(y)) => x.len() == y.len() && all_found(x, y) && all_found(y, x),
        (None, None) => true,
        _ => false,
    }
}

/// Two `[set]` tables hold the same domains, keys and values, in the same
/// (sorted) order.
pub open spec fn same_set(a: Option<Vec<Group>>, b: Option<Vec<Group>>) -> bool {
    match (a, b) {
        (Some(x), Some(y)) => groups_view(x@) == groups_view(y@),
        (None, None) => true,
        _ => false,
    }
}

/// Two `[command.*]` entries are equal, field by field.
pub open spec fn same_command(a: Command, b: Command) -> bool {
    a.run@ == b.run@ && a.ensure_first == b.ensure_first && same_names(a.required, b.required)
        && a.flag == b.flag && a.sudo == b.sudo
}

/// Two `[command]` tables hold the same commands under the same names, in
/// the same (sorted) order.
pub open spec fn same_commands(a: Option<Vec<(String, Command)>>, b: Option<Vec<(String, Command)>>) -> bool {
    match (a, b) {
        (Some(x), Some(y)) => x.len() == y.len() && forall|i: int| 0 <= i < x.len() ==>
            (#[trigger] x@[i]).0@ == y@[i].0@ && same_command(x@[i].1, y@[i].1),
        (None, None) => true,
        _ => false,
    }
}

/// Two `[mas]` tables list the same ids.
pub open spec fn same_mas(a: Option<Mas>, b: Option<Mas>) -> bool {
    match (a, b) {
        (Some(x), Some(y)) => x.ids@.map_values(|s: String| s@) == y.ids@.map_values(|s: String| s@),
        (None, None) => true,
        _ => false,
    }
}

fn set_equal(a: &Option<Vec<Group>>, b: &Option<Vec<Group>>) -> (r: bool)
    ensures
        r == same_set(*a, *b),
{
    match (a, b) {
        (Some(x), Some(y)) => {
            if x.len() != y.len() {
                assert(groups_view(x@).len() != groups_view(y@).len());
                return false;
            }
            let mut i: usize = 0;
            while i < x.len()
                invariant
                    *a == Some(*x),
                    *b == Some(*y),
                    i <= x.len(),
                    x.len() == y.len(),
                    forall|k: int| 0 <= k < i ==> #[trigger] groups_view(x@)[k] == groups_view(y@)[k],
                decreases x.len() - i,
            {
                if !crate::text::str_eq(x[i].0.as_str(), y[i].0.as_str()) || !same_entries(&x[i].1, &y[i].1) {
                    assert(groups_view(x@)[i as int] != groups_view(y@)[i as int]);
                    return false;
                }
                assert(groups_view(x@)[i as int] == groups_view(y@)[i as int]);
                i = i + 1;
            }
            assert(groups_view(x@) =~= groups_view(y@));
            true
        },
        (None, None) => true,
        _ => false,
    }
}

fn command_equal(a: &Command, b: &Command) -> (r: bool)
    ensures
        r == same_command(*a, *b),
{
    crate::text::str_eq(a.run.as_str(), b.run.as_str()) && a.ensure_first == b.ensure_first
        && names_equal(&a.required, &b.required) && a.flag == b.flag && a.sudo == b.sudo
}

fn commands_equal(a: &Option<Vec<(String, Command)>>, b: &Option<Vec<(String, Command)>>) -> (r: bool)
    ensures
        r == same_commands(*a, *b),
{
    match (a, b) {
        (Some(x), Some(y)) => {
            if x.len() != y.len() {
                return false;
            }
            let mut i: usize = 0;
            while i < x.len()
                invariant
                    *a == Some(*x),
                    *b == Some(*y),
                    i <= x.len(),
                    x.len() == y.len(),
                    forall|k: int| 0 <= k < i ==> (#[trigger] x@[k]).0@ == y@[k].0@ && same_command(x@[k].1, y@[k].1),
                decreases x.len() - i,
            {
                if !crate::text::str_eq(x[i].0.as_str(), y[i].0.as_str()) || !command_equal(&x[i].1, &y[i].1) {
                    return false;
                }
                i = i + 1;
            }
            true
        },
        (None, None) => true,
        _ => false,
    }
}

fn mas_equal(a: &Option<Mas>, b: &Option<Mas>) -> (r: bool)
    ensures
        r == same_mas(*a, *b),
{
    match (a, b) {
        (Some(x), Some(y)) => strings_equal(&x.ids, &y.ids),
        (None, None) => true,
        _ => false,
    }
}

pub open spec fn change_text(table: Seq<char>) -> Seq<char> {
    crate::logging::BOLD@ + table + crate::logging::RESET@ + ": (changed)"@
}

/// The differences `fetch` reports between the local and the remote
/// configuration: each part of the file (`brew`, `remote`, `vars`, `set`,
/// `command`, `mas`, `lock`) that is not equal value for value.
pub open spec fn changes_of(local: Config, remote: Config) -> Seq<Seq<char>> {
    (if !same_brew(local.brew, remote.brew) { seq![change_text("brew"@)] } else { Seq::empty() })
    + (if !same_remote(local.remote, remote.remote) { seq![change_text("remote"@)] } else { Seq::empty() })
    + (if !same_vars(local.vars, remote.vars) { seq![change_text("vars"@)] } else { Seq::empty() })
    + (if !same_set(local.set, remote.set) { seq![change_text("set"@)] } else { Seq::empty() })
    + (if !same_commands(local.command, remote.command) { seq![change_text("command"@)] } else { Seq::empty() })
    + (if !same_mas(local.mas, remote.mas) { seq![change_text("mas"@)] } else { Seq::empty() })
    + (if local.lock != remote.lock { seq![change_text("lock"@)] } else { Seq::empty() })
}

fn change_line(table: &str) -> (r: String)
    ensures
        r@ == change_text(table@),
{
    let mut out: Vec<char> = Vec::new();
    push_str_chars(&mut out, crate::logging::BOLD);
    push_str_chars(&mut out, table);
    push_str_chars(&mut out, crate::logging::RESET);
    push_str_chars(&mut out, ": (changed)");
    let r = string_of(&out);
    assert(r@ =~= change_text(table@));
    r
}

/// Compares the local configuration with the fetched one.
pub fn config_changes(local: &Config, remote: &Config) -> (r: Vec<String>)
    ensures
        r@.map_values(|s: String| s@) == changes_of(*local, *remote),
{
    let mut r: Vec<String> = Vec::new();
    if !brew_equal(&local.brew, &remote.brew) {
        r.push(change_line("brew"));
    }
    if !remote_equal(&local.remote, &remote.remote) {
        r.push(change_line("remote"));
    }
    if !vars_equal(&local.vars, &remote.vars) {
        r.push(change_line("vars"));
    }
    if !set_equal(&local.set, &remote.set) {
        r.push(change_line("set"));
    }
    if !commands_equal(&local.command, &remote.command) {
        r.push(change_line("command"));
    }
    if !mas_equal(&local.mas, &remote.mas) {
        r.push(change_line("mas"));
    }
    if local.lock != remote.lock {
        r.push(change_line("lock"));
    }
    assert(r@.map_values(|s: String| s@) =~= changes_of(*local, *remote));
    r
}

/// Whether the remote configuration syncs by itself: `autosync` of
/// `[remote]`, off where not given.
pub fn autosync_enabled(remote: &Option<Remote>) -> (r: bool)
    ensures
        r == (remote matches Some(x) && x.autosync == Some(true)),
{
    match remote {
        Some(x) => match x.autosync {
            Some(b) => b,
            None => false,
        },
        None => false,
    }
}


/// No two variables share a name.
pub open spec fn distinct_names(v: Seq<(Seq<char>, Seq<char>)>) -> bool {
    forall|i: int, j: int| 0 <= i < j < v.len() ==> (#[trigger] v[i]).0 != (#[trigger] v[j]).0
}

proof fn lemma_lookup_own(v: Seq<(Seq<char>, Seq<char>)>, i: int)
    requires
        distinct_names(v),
        0 <= i < v.len(),
    ensures
        lookup(v, v[i].0) == Some(v[i].1),
    decreases i,
{
    if i > 0 {
        let t = v.drop_first();
        assert(v[0].0 != v[i].0);
        assert forall|a: int, b: int| 0 <= a < b < t.len() implies (#[trigger] t[a]).0 != (#[trigger] t[b]).0 by {
            assert(t[a] == v[a + 1] && t[b] == v[b + 1]);
        }
        assert(t[i - 1] == v[i]);
        lemma_lookup_own(t, i - 1);
    }
}

/// Fetching a remote configuration equal to the local one finds no change:
/// comparing a configuration (whose variables have distinct names) with
/// itself reports nothing.
pub proof fn law_same_config_no_changes(c: Config)
    requires
        c.vars matches Some(v) ==> distinct_names(pairs_view(v@)),
    ensures
        changes_of(c, c) == Seq::<Seq<char>>::empty(),
{
    if let Some(v) = c.vars {
        let xv = pairs_view(v@);
        assert forall|i: int| 0 <= i < xv.len() implies lookup(xv, (#[trigger] xv[i]).0) == Some(xv[i].1) by {
            lemma_lookup_own(xv, i);
        }
    }
    assert(changes_of(c, c) =~= Seq::<Seq<char>>::empty());
}

} // verus!
