//! What the Homebrew commands decide: what to tap, fetch, install and
//! back up.
use vstd::prelude::*;
use crate::brew::types::names_view;
use crate::brew::{brew_diff_of, filter_names, opt_list, opt_names, within, without};
use crate::config::model::Brew;
use crate::text::{join_with, joined, owned, push_str_chars, string_of};

verus! {

pub open spec fn tasks_view(t: Seq<Vec<String>>) -> Seq<Seq<Seq<char>>> {
    t.map_values(|a: Vec<String>| names_view(a@))
}

/// `install <formula>` for each formula, then `install --cask <cask>` for
/// each cask: the arguments of the `brew` runs.
pub open spec fn install_tasks_of(formulae: Seq<Seq<char>>, casks: Seq<Seq<char>>) -> Seq<Seq<Seq<char>>> {
    formulae.map_values(|n: Seq<char>| seq!["install"@, n]) + casks.map_values(|n: Seq<char>| seq!["install"@, "--cask"@, n])
}

/// The `brew` runs that install the formulae and then the casks.
pub fn install_tasks(formulae: &Vec<String>, casks: &Vec<String>) -> (r: Vec<Vec<String>>)
    ensures
        tasks_view(r@) == install_tasks_of(names_view(formulae@), names_view(casks@)),
{
    let ghost fv = names_view(formulae@);
    let ghost cv = names_view(casks@);
    let mut r: Vec<Vec<String>> = Vec::new();
    let mut i: usize = 0;
    while i < formulae.len()
        invariant
            i <= formulae.len(),
            fv == names_view(formulae@),
            tasks_view(r@) =~= fv.take(i as int).map_values(|n: Seq<char>| seq!["install"@, n]),
        decreases formulae.len() - i,
    {
        let ghost before = r@;
        let t = vec![owned("install"), formulae[i].clone()];
        assert(names_view(t@) =~= seq!["install"@, fv[i as int]]);
        r.push(t);
        assert(tasks_view(r@) =~= tasks_view(before).push(names_view(t@)));
        assert(fv.take(i + 1).map_values(|n: Seq<char>| seq!["install"@, n]) =~= fv.take(i as int).map_values(|n: Seq<char>| seq!["install"@, n]).push(seq!["install"@, fv[i as int]]));
        i = i + 1;
    }
    assert(fv.take(formulae.len() as int) =~= fv);
    let ghost first = tasks_view(r@);
    let mut j: usize = 0;
    while j < casks.len()
        invariant
            j <= casks.len(),
            cv == names_view(casks@),
            tasks_view(r@) =~= first + cv.take(j as int).map_values(|n: Seq<char>| seq!["install"@, "--cask"@, n]),
        decreases casks.len() - j,
    {
        let ghost before = r@;
        let t = vec![owned("install"), owned("--cask"), casks[j].clone()];
        assert(names_view(t@) =~= seq!["install"@, "--cask"@, cv[j as int]]);
        r.push(t);
        assert(tasks_view(r@) =~= tasks_view(before).push(names_view(t@)));
        assert(cv.take(j + 1).map_values(|n: Seq<char>| seq!["install"@, "--cask"@, n]) =~= cv.take(j as int).map_values(|n: Seq<char>| seq!["install"@, "--cask"@, n]).push(seq!["install"@, "--cask"@, cv[j as int]]));
        j = j + 1;
    }
    assert(cv.take(casks.len() as int) =~= cv);
    r
}

/// How a `brew` run is shown: `brew` and its arguments, separated by spaces.
pub fn task_display(args: &Vec<String>) -> (r: String)
    ensures
        r@ == "brew "@ + joined(names_view(args@), " "@),
{
    let j = join_with(args, " ");
    assert(names_view(args@) =~= args@.map_values(|p: String| p@));
    let mut out: Vec<char> = Vec::new();
    push_str_chars(&mut out, "brew ");
    push_str_chars(&mut out, j.as_str());
    string_of(&out)
}

/// The arguments of the `brew fetch` run that pre-downloads a formula or a
/// cask; quiet unless verbose.
pub open spec fn fetch_args_of(name: Seq<char>, cask: bool, verbose: bool) -> Seq<Seq<char>> {
    seq!["fetch"@] + (if cask { seq!["--cask"@] } else { Seq::empty() }) + seq![name] + (if verbose { Seq::empty() } else { seq!["--quiet"@] })
}

pub fn fetch_args(name: &String, cask: bool, verbose: bool) -> (r: Vec<String>)
    ensures
        names_view(r@) == fetch_args_of(name@, cask, verbose),
{
    let mut r: Vec<String> = vec![owned("fetch")];
    if cask {
        r.push(owned("--cask"));
    }
    r.push(name.clone());
    if !verbose {
        r.push(owned("--quiet"));
    }
    assert(names_view(r@) =~= fetch_args_of(name@, cask, verbose));
    r
}

/// Installs what the `[brew]` table lists.
pub struct BrewInstallCmd;

/// What installing from the `[brew]` table does.
pub struct BrewInstallPlan {
    /// Taps to add, and taps that are there already.
    pub taps: Vec<String>,
    pub already_tapped: Vec<String>,
    /// Installed formulae and casks the table does not list.
    pub extra_formulae: Vec<String>,
    pub extra_casks: Vec<String>,
    /// Listed formulae and casks that are installed, and are skipped.
    pub skipped_formulae: Vec<String>,
    pub skipped_casks: Vec<String>,
    /// Listed formulae and casks to pre-download and install.
    pub fetch_formulae: Vec<String>,
    pub fetch_casks: Vec<String>,
    /// The `brew` runs that install them, in order.
    pub tasks: Vec<Vec<String>>,
}

/// Decides what installing the `[brew]` table does, given the taps there
/// are and the formulae and casks installed.
pub fn brew_install_plan(brew: &Brew, tapped: &Vec<String>, formulae: &Vec<String>, casks: &Vec<String>) -> (r: BrewInstallPlan)
    ensures
        ({
            let cf = opt_names(brew.formulae);
            let cc = opt_names(brew.casks);
            let ct = opt_names(brew.taps);
            let f = names_view(formulae@);
            let c = names_view(casks@);
            &&& names_view(r.taps@) == without(ct, names_view(tapped@))
            &&& names_view(r.already_tapped@) == within(ct, names_view(tapped@))
            &&& names_view(r.extra_formulae@) == without(f, cf)
            &&& names_view(r.extra_casks@) == without(c, cc)
            &&& names_view(r.skipped_formulae@) == within(cf, f)
            &&& names_view(r.skipped_casks@) == within(cc, c)
            &&& names_view(r.fetch_formulae@) == without(cf, f)
            &&& names_view(r.fetch_casks@) == without(cc, c)
            &&& tasks_view(r.tasks@) == install_tasks_of(without(cf, f), without(cc, c))
        }),
{
    let cf = opt_list(&brew.formulae);
    let cc = opt_list(&brew.casks);
    let ct = opt_list(&brew.taps);
    let fetch_formulae = filter_names(&cf, formulae, false);
    let fetch_casks = filter_names(&cc, casks, false);
    let tasks = install_tasks(&fetch_formulae, &fetch_casks);
    BrewInstallPlan {
        taps: filter_names(&ct, tapped, false),
        already_tapped: filter_names(&ct, tapped, true),
        extra_formulae: filter_names(formulae, &cf, false),
        extra_casks: filter_names(casks, &cc, false),
        skipped_formulae: filter_names(&cf, formulae, true),
        skipped_casks: filter_names(&cc, casks, true),
        fetch_formulae,
        fetch_casks,
        tasks,
    }
}

/// Represents the result of fetching formulae and casks.
pub struct FetchedThings {
    pub formulae: Vec<String>,
    pub casks: Vec<String>,
    pub failed_formulae: Vec<String>,
    pub failed_casks: Vec<String>,
}

/// The items of `s` whose fetch outcome in `ok` is `want`, in order.
pub open spec fn picked(s: Seq<Seq<char>>, ok: Seq<bool>, want: bool) -> Seq<Seq<char>>
    decreases s.len(),
{
    if s.len() == 0 {
        s
    } else {
        let r = picked(s.drop_last(), ok, want);
        if ok[s.len() - 1] == want {
            r.push(s.last())
        } else {
            r
        }
    }
}

pub fn pick_names(s: &Vec<String>, ok: &Vec<bool>, want: bool) -> (r: Vec<String>)
    requires
        ok.len() == s.len(),
    ensures
        names_view(r@) == picked(names_view(s@), ok@, want),
{
    let ghost sv = names_view(s@);
    let mut r: Vec<String> = Vec::new();
    let mut i: usize = 0;
    assert(names_view(r@) =~= Seq::<Seq<char>>::empty());
    while i < s.len()
        invariant
            i <= s.len(),
            ok.len() == s.len(),
            sv == names_view(s@),
            names_view(r@) == picked(sv.take(i as int), ok@, want),
        decreases s.len() - i,
    {
        assert(sv.take(i + 1).drop_last() =~= sv.take(i as int));
        assert(sv.take(i + 1).last() == s@[i as int]@);
        if ok[i] == want {
            let ghost before = r@;
            r.push(s[i].clone());
            assert(names_view(r@) =~= names_view(before).push(s@[i as int]@));
        }
        i = i + 1;
    }
    assert(sv.take(s.len() as int) =~= sv);
    r
}

/// Sorts the formulae and casks by whether their `brew fetch` succeeded
/// (`formula_ok[i]` for `formulae[i]`, `cask_ok[i]` for `casks[i]`).
pub fn fetched_things(formulae: &Vec<String>, casks: &Vec<String>, formula_ok: &Vec<bool>, cask_ok: &Vec<bool>) -> (r: FetchedThings)
    requires
        formula_ok.len() == formulae.len(),
        cask_ok.len() == casks.len(),
    ensures
        names_view(r.formulae@) == picked(names_view(formulae@), formula_ok@, true),
        names_view(r.casks@) == picked(names_view(casks@), cask_ok@, true),
        names_view(r.failed_formulae@) == picked(names_view(formulae@), formula_ok@, false),
        names_view(r.failed_casks@) == picked(names_view(casks@), cask_ok@, false),
{
    FetchedThings {
        formulae: pick_names(formulae, formula_ok, true),
        casks: pick_names(casks, cask_ok, true),
        failed_formulae: pick_names(formulae, formula_ok, false),
        failed_casks: pick_names(casks, cask_ok, false),
    }
}

/// `--formula <name>` for each fetched formula, then `--cask <name>` for
/// each fetched cask: what follows `brew install` for each.
pub open spec fn install_args_of(formulae: Seq<Seq<char>>, casks: Seq<Seq<char>>) -> Seq<Seq<Seq<char>>> {
    formulae.map_values(|n: Seq<char>| seq!["--formula"@, n]) + casks.map_values(|n: Seq<char>| seq!["--cask"@, n])
}

fn tagged(names: &Vec<String>, tag: &str, out: &mut Vec<Vec<String>>)
    ensures
        tasks_view(final(out)@) == tasks_view(old(out)@) + names_view(names@).map_values(|n: Seq<char>| seq![tag@, n]),
{
    let ghost nv = names_view(names@);
    let ghost start = tasks_view(out@);
    let mut i: usize = 0;
    while i < names.len()
        invariant
            i <= names.len(),
            nv == names_view(names@),
            tasks_view(out@) =~= start + nv.take(i as int).map_values(|n: Seq<char>| seq![tag@, n]),
        decreases names.len() - i,
    {
        let ghost before = out@;
        let t = vec![owned(tag), names[i].clone()];
        assert(names_view(t@) =~= seq![tag@, nv[i as int]]);
        out.push(t);
        assert(tasks_view(out@) =~= tasks_view(before).push(names_view(t@)));
        assert(nv.take(i + 1).map_values(|n: Seq<char>| seq![tag@, n]) =~= nv.take(i as int).map_values(|n: Seq<char>| seq![tag@, n]).push(seq![tag@, nv[i as int]]));
        i = i + 1;
    }
    assert(nv.take(names.len() as int) =~= nv);
}

/// The install runs for what was fetched.
pub fn install_args(fetched: &FetchedThings) -> (r: Vec<Vec<String>>)
    ensures
        tasks_view(r@) == install_args_of(names_view(fetched.formulae@), names_view(fetched.casks@)),
{
    let mut r: Vec<Vec<String>> = Vec::new();
    assert(tasks_view(r@) =~= Seq::<Seq<Seq<char>>>::empty());
    tagged(&fetched.formulae, "--formula", &mut r);
    tagged(&fetched.casks, "--cask", &mut r);
    assert(tasks_view(r@) =~= install_args_of(names_view(fetched.formulae@), names_view(fetched.casks@)));
    r
}

/// Backs up the installed Homebrew formulae, casks and taps.
pub struct BrewBackupCmd {
    /// Exclude dependencies from backup.
    pub no_deps: bool,
}

impl BrewBackupCmd {
    /// Whether the user is asked to leave dependencies out again: the flag is
    /// off and the table was backed up without them.
    pub fn asks_about_deps(&self, saved: Option<bool>) -> (r: bool)
        ensures
            r == (!self.no_deps && saved == Some(true)),
    {
        !self.no_deps && match saved {
            Some(b) => b,
            None => false,
        }
    }

    /// Whether dependencies are left out of this backup, and the `no_deps`
    /// the table keeps, from the flag, the table's `no_deps`, and the answer
    /// to the question of [`BrewBackupCmd::asks_about_deps`] (not read when
    /// it is not asked).
    pub fn deps_choice(&self, saved: Option<bool>, confirmed: bool) -> (r: (bool, Option<bool>))
        ensures
            r == if self.no_deps {
                (true, Some(true))
            } else if saved == Some(true) && confirmed {
                (true, saved)
            } else {
                (false, None::<bool>)
            },
    {
        if self.no_deps {
            (true, Some(true))
        } else if self.asks_about_deps(saved) && confirmed {
            (true, saved)
        } else {
            (false, None)
        }
    }
}

/// The `[brew]` table a backup writes: the installed formulae and casks
/// (without dependencies when they are left out) and taps, none in a dry
/// run, with the `no_deps` chosen.
pub fn backup_brew(no_deps: Option<bool>, exclude_deps: bool, formulae: &Vec<String>, casks: &Vec<String>, taps: &Vec<String>, deps: &Vec<String>, dry_run: bool) -> (r: Brew)
    ensures
        r.no_deps == no_deps,
        r.formulae is Some && r.casks is Some && r.taps is Some,
        opt_names(r.formulae) == if dry_run { Seq::empty() } else if exclude_deps { without(names_view(formulae@), names_view(deps@)) } else { names_view(formulae@) },
        opt_names(r.casks) == if dry_run { Seq::empty() } else if exclude_deps { without(names_view(casks@), names_view(deps@)) } else { names_view(casks@) },
        opt_names(r.taps) == if dry_run { Seq::empty() } else { names_view(taps@) },
{
    let empty: Vec<String> = Vec::new();
    let (f, c, t) = if dry_run {
        (filter_names(&empty, &empty, false), filter_names(&empty, &empty, false), filter_names(&empty, &empty, false))
    } else if exclude_deps {
        (filter_names(formulae, deps, false), filter_names(casks, deps, false), filter_names(taps, &empty, false))
    } else {
        (filter_names(formulae, &empty, false), filter_names(casks, &empty, false), filter_names(taps, &empty, false))
    };
    proof {
        lemma_without_nothing(names_view(formulae@));
        lemma_without_nothing(names_view(casks@));
        lemma_without_nothing(names_view(taps@));
        assert(names_view(empty@) =~= Seq::<Seq<char>>::empty());
    }
    Brew { formulae: Some(f), casks: Some(c), taps: Some(t), no_deps }
}

/// Taking nothing away leaves a list as it is.
pub proof fn lemma_without_nothing(s: Seq<Seq<char>>)
    ensures
        without(s, Seq::empty()) == s,
    decreases s.len(),
{
    if s.len() > 0 {
        lemma_without_nothing(s.drop_last());
        assert(s.drop_last().push(s.last()) =~= s);
    }
}

/// The lists a backup of the old layout writes: the installed formulae
/// (without dependencies when asked), casks and taps.
pub fn backup_lists(no_deps: bool, formulae: &Vec<String>, casks: &Vec<String>, taps: &Vec<String>, deps: &Vec<String>) -> (r: (Vec<String>, Vec<String>, Vec<String>))
    ensures
        names_view(r.0@) == if no_deps { without(names_view(formulae@), names_view(deps@)) } else { names_view(formulae@) },
        names_view(r.1@) == names_view(casks@),
        names_view(r.2@) == names_view(taps@),
{
    let empty: Vec<String> = Vec::new();
    proof {
        lemma_without_nothing(names_view(formulae@));
        lemma_without_nothing(names_view(casks@));
        lemma_without_nothing(names_view(taps@));
        assert(names_view(empty@) =~= Seq::<Seq<char>>::empty());
    }
    let f = if no_deps { filter_names(formulae, deps, false) } else { filter_names(formulae, &empty, false) };
    (f, filter_names(casks, &empty, false), filter_names(taps, &empty, false))
}


/// Taking away a list that holds every item leaves nothing.
pub proof fn lemma_without_all(s: Seq<Seq<char>>, other: Seq<Seq<char>>)
    requires
        forall|i: int| 0 <= i < s.len() ==> other.contains(#[trigger] s[i]),
    ensures
        without(s, other) == Seq::<Seq<char>>::empty(),
    decreases s.len(),
{
    if s.len() > 0 {
        let t = s.drop_last();
        assert forall|i: int| 0 <= i < t.len() implies other.contains(#[trigger] t[i]) by {
            assert(t[i] == s[i]);
        }
        lemma_without_all(t, other);
        assert(other.contains(s[s.len() - 1]));
    }
}

/// A backup brings the `[brew]` table in line with Homebrew: checking the
/// table a (non-dry-run) backup wrote against the same installed state finds
/// nothing missing and nothing extra. When dependencies are left out, this
/// holds as long as no installed cask is also listed as a dependency.
pub proof fn law_backup_then_compare_in_sync(
    no_deps: Option<bool>,
    exclude_deps: bool,
    formulae: Seq<Seq<char>>,
    casks: Seq<Seq<char>>,
    taps: Seq<Seq<char>>,
    deps: Seq<Seq<char>>,
    table: Brew,
)
    requires
        table.no_deps == no_deps,
        exclude_deps <==> no_deps == Some(true),
        opt_names(table.formulae) == if exclude_deps { without(formulae, deps) } else { formulae },
        opt_names(table.casks) == if exclude_deps { without(casks, deps) } else { casks },
        opt_names(table.taps) == taps,
        exclude_deps ==> forall|i: int| 0 <= i < casks.len() ==> !deps.contains(#[trigger] casks[i]),
    ensures
        brew_diff_of(table, formulae, casks, taps, deps) == seq![
            Seq::<Seq<char>>::empty(), Seq::<Seq<char>>::empty(), Seq::<Seq<char>>::empty(),
            Seq::<Seq<char>>::empty(), Seq::<Seq<char>>::empty(), Seq::<Seq<char>>::empty(),
        ],
{
    let f = if exclude_deps { without(formulae, deps) } else { formulae };
    lemma_without_all(f, f);
    lemma_without_all(taps, taps);
    if exclude_deps {
        lemma_without_kept(casks, deps);
    }
    lemma_without_all(casks, casks);
    assert(brew_diff_of(table, formulae, casks, taps, deps) =~= seq![
        Seq::<Seq<char>>::empty(), Seq::<Seq<char>>::empty(), Seq::<Seq<char>>::empty(),
        Seq::<Seq<char>>::empty(), Seq::<Seq<char>>::empty(), Seq::<Seq<char>>::empty(),
    ]);
}

/// Taking away items none of which is there leaves a list as it is.
pub proof fn lemma_without_kept(s: Seq<Seq<char>>, other: Seq<Seq<char>>)
    requires
        forall|i: int| 0 <= i < s.len() ==> !other.contains(#[trigger] s[i]),
    ensures
        without(s, other) == s,
    decreases s.len(),
{
    if s.len() > 0 {
        let t = s.drop_last();
        assert forall|i: int| 0 <= i < t.len() implies !other.contains(#[trigger] t[i]) by {
            assert(t[i] == s[i]);
        }
        lemma_without_kept(t, other);
        assert(!other.contains(s[s.len() - 1]));
        assert(t.push(s.last()) =~= s);
    }
}


/// Picking never lengthens a list.
pub proof fn lemma_picked_len(s: Seq<Seq<char>>, ok: Seq<bool>, want: bool)
    ensures
        picked(s, ok, want).len() <= s.len(),
    decreases s.len(),
{
    if s.len() > 0 {
        lemma_picked_len(s.drop_last(), ok, want);
    }
}

} // verus!
