//! External commands of the `[command]` tables: extracting them with their
//! variables substituted, choosing which run, and how each is run.
use vstd::prelude::*;
use crate::commands::brew::picked;
use crate::brew::types::names_view;
use crate::config::model::{Command, Config};
use crate::domains::opt_view;
use crate::logging::{BOLD, RESET};
use crate::text::{chars_of, concat_all, join_strs, owned};
use crate::exec::engine::{substitute, substituted};
use crate::vars::{opt_pairs_view, pairs_view};

verus! {

/// Represents an external command job.
pub struct ExecJob {
    pub name: String,
    pub run: String,
    pub sudo: bool,
    pub ensure_first: bool,
    pub flag: bool,
    pub required: Vec<String>,
}

/// A job by content: name, command line, sudo, ensure_first, flag, required binaries.
pub type JobView = (Seq<char>, Seq<char>, bool, bool, bool, Seq<Seq<char>>);

pub open spec fn job_view(j: ExecJob) -> JobView {
    (j.name@, j.run@, j.sudo, j.ensure_first, j.flag, names_view(j.required@))
}

pub open spec fn jobs_view(s: Seq<ExecJob>) -> Seq<JobView> {
    s.map_values(|j: ExecJob| job_view(j))
}

/// Execution mode enum.
pub enum ExecMode {
    Regular,
    All,
    Flagged,
}

/// Why a command cannot be extracted.
pub enum ExecError {
    /// The configuration has no `[command]` tables.
    NoCommands,
    /// No command has this name.
    NoSuchCommand(String),
}

/// The position of the first command named `name`.
pub open spec fn command_index(cmds: Seq<(String, Command)>, name: Seq<char>) -> Option<int>
    decreases cmds.len(),
{
    if cmds.len() == 0 {
        None
    } else {
        match command_index(cmds.drop_last(), name) {
            Some(i) => Some(i),
            None => if cmds.last().0@ == name { Some(cmds.len() - 1) } else { None },
        }
    }
}

pub open spec fn opt_flag(b: Option<bool>) -> bool {
    match b {
        Some(x) => x,
        None => false,
    }
}

/// The job of a command: its line with the variables substituted, and its
/// switches, off where not given.
pub open spec fn job_of(name: Seq<char>, c: Command, vars: Option<Seq<(Seq<char>, Seq<char>)>>, env: Seq<(Seq<char>, Seq<char>)>) -> JobView {
    (
        name,
        substituted(c.run@, vars, env),
        opt_flag(c.sudo),
        opt_flag(c.ensure_first),
        opt_flag(c.flag),
        match c.required {
            Some(r) => names_view(r@),
            None => Seq::empty(),
        },
    )
}

pub open spec fn config_vars(config: Config) -> Option<Seq<(Seq<char>, Seq<char>)>> {
    match config.vars {
        Some(v) => Some(pairs_view(v@)),
        None => None,
    }
}

fn find_command(cmds: &Vec<(String, Command)>, name: &str) -> (r: Option<usize>)
    ensures
        match r {
            Some(i) => command_index(cmds@, name@) == Some(i as int) && i < cmds.len(),
            None => command_index(cmds@, name@) is None,
        },
{
    let mut i: usize = 0;
    while i < cmds.len()
        invariant
            i <= cmds.len(),
            command_index(cmds@.take(i as int), name@) is None,
        decreases cmds.len() - i,
    {
        assert(cmds@.take(i + 1).drop_last() =~= cmds@.take(i as int));
        if crate::text::str_eq(cmds[i].0.as_str(), name) {
            proof {
                lemma_command_index_prefix(cmds@, i as int + 1, name@);
            }
            return Some(i);
        }
        i = i + 1;
    }
    assert(cmds@.take(cmds.len() as int) =~= cmds@);
    None
}

/// The first command of a name in a prefix is the first in the whole list.
proof fn lemma_command_index_prefix(cmds: Seq<(String, Command)>, n: int, name: Seq<char>)
    requires
        0 <= n <= cmds.len(),
        command_index(cmds.take(n), name) is Some,
    ensures
        command_index(cmds, name) == command_index(cmds.take(n), name),
    decreases cmds.len() - n,
{
    if n < cmds.len() {
        assert(cmds.take(n + 1).drop_last() =~= cmds.take(n));
        lemma_command_index_prefix(cmds, n + 1, name);
    } else {
        assert(cmds.take(n) =~= cmds);
    }
}

fn copy_strings(v: &Vec<String>) -> (r: Vec<String>)
    ensures
        names_view(r@) == names_view(v@),
{
    let mut r: Vec<String> = Vec::new();
    let mut i: usize = 0;
    while i < v.len()
        invariant
            i <= v.len(),
            names_view(r@) =~= names_view(v@).take(i as int),
        decreases v.len() - i,
    {
        let ghost before = r@;
        r.push(v[i].clone());
        assert(names_view(r@) =~= names_view(before).push(v@[i as int]@));
        i = i + 1;
    }
    assert(names_view(v@).take(v.len() as int) =~= names_view(v@));
    r
}

/// Extract a single command by name from the user config; `env` holds the
/// environment's name and value pairs.
pub fn extract_cmd(config: &Config, name: &str, env: &Vec<(String, String)>) -> (r: Result<ExecJob, ExecError>)
    ensures
        match config.command {
            None => r matches Err(ExecError::NoCommands),
            Some(cmds) => match command_index(cmds@, name@) {
                None => r matches Err(ExecError::NoSuchCommand(n)) && n@ == name@,
                Some(i) => r matches Ok(job) && job_view(job) == job_of(name@, cmds@[i].1, config_vars(*config), pairs_view(env@)),
            },
        },
{
    let cmds = match &config.command {
        Some(c) => c,
        None => return Err(ExecError::NoCommands),
    };
    let i = match find_command(cmds, name) {
        Some(i) => i,
        None => return Err(ExecError::NoSuchCommand(owned(name))),
    };
    let c = &cmds[i].1;
    let vars = match &config.vars {
        Some(v) => Some(v),
        None => None,
    };
    assert(opt_pairs_view(vars) == config_vars(*config));
    let run = substitute(c.run.as_str(), vars, env);
    let required = match &c.required {
        Some(r) => copy_strings(r),
        None => {
            let r: Vec<String> = Vec::new();
            assert(names_view(r@) =~= Seq::<Seq<char>>::empty());
            r
        },
    };
    Ok(ExecJob {
        name: owned(name),
        run,
        sudo: match c.sudo { Some(b) => b, None => false },
        ensure_first: match c.ensure_first { Some(b) => b, None => false },
        flag: match c.flag { Some(b) => b, None => false },
        required,
    })
}

/// Pull all external commands written in user config into jobs, in order.
pub fn extract_all_cmds(config: &Config, env: &Vec<(String, String)>) -> (r: Vec<ExecJob>)
    ensures
        match config.command {
            None => r@.len() == 0,
            Some(cmds) => r@.len() == cmds@.len() && forall|i: int| 0 <= i < cmds@.len() ==>
                (#[trigger] jobs_view(r@)[i]) == job_of(cmds@[i].0@, cmds@[command_index(cmds@, cmds@[i].0@)->0].1, config_vars(*config), pairs_view(env@)),
        },
{
    let mut r: Vec<ExecJob> = Vec::new();
    match &config.command {
        None => {},
        Some(cmds) => {
            let mut i: usize = 0;
            while i < cmds.len()
                invariant
                    i <= cmds.len(),
                    config.command == Some(*cmds),
                    r@.len() == i,
                    forall|k: int| 0 <= k < i ==> (#[trigger] jobs_view(r@)[k]) == job_of(cmds@[k].0@, cmds@[command_index(cmds@, cmds@[k].0@)->0].1, config_vars(*config), pairs_view(env@)),
                decreases cmds.len() - i,
            {
                proof {
                    lemma_command_index_found(cmds@, i as int);
                }
                match extract_cmd(config, cmds[i].0.as_str(), env) {
                    Ok(job) => {
                        let ghost before = r@;
                        let ghost jv = job_view(job);
                        r.push(job);
                        assert(jobs_view(r@) =~= jobs_view(before).push(jv));
                    },
                    Err(_) => {
                        assert(false);
                    },
                }
                i = i + 1;
            }
        },
    }
    r
}

/// Each name of the list is found.
proof fn lemma_command_index_found(cmds: Seq<(String, Command)>, i: int)
    requires
        0 <= i < cmds.len(),
    ensures
        command_index(cmds, cmds[i].0@) matches Some(k) && 0 <= k <= i && cmds[k].0@ == cmds[i].0@,
    decreases cmds.len(),
{
    if i < cmds.len() - 1 {
        let t = cmds.drop_last();
        assert(t[i] == cmds[i]);
        lemma_command_index_found(t, i);
    } else {
        lemma_command_index_bounds(cmds.drop_last(), cmds[i].0@);
    }
}

proof fn lemma_command_index_bounds(cmds: Seq<(String, Command)>, name: Seq<char>)
    ensures
        command_index(cmds, name) matches Some(k) ==> 0 <= k < cmds.len() && cmds[k].0@ == name,
    decreases cmds.len(),
{
    if cmds.len() > 0 {
        lemma_command_index_bounds(cmds.drop_last(), name);
    }
}

/// `which::which`: whether a binary is found in `$PATH`. What it finds
/// depends on the environment and the disk, so nothing is stated of it.
#[verifier::external_body]
fn bin_in_path(bin: &str) -> (r: bool) {
    which::which(bin).is_ok()
}

/// The required binaries that are not found: `found[i]` says whether
/// `required[i]` is.
pub fn missing_bins(required: &Vec<String>, found: &Vec<bool>) -> (r: Vec<String>)
    requires
        found.len() == required.len(),
    ensures
        names_view(r@) == picked(names_view(required@), found@, false),
{
    crate::commands::brew::pick_names(required, found, false)
}

/// Checks whether the binaries designated in `required` are found in
/// `$PATH`: whether all are, and those that are not (each to be warned
/// about), in order.
pub fn all_bins_present(required: &Vec<String>) -> (r: (bool, Vec<String>))
    ensures
        r.0 == (r.1@.len() == 0),
        r.1@.len() <= required@.len(),
        exists|found: Seq<bool>| found.len() == required@.len() && #[trigger] names_view(r.1@) == picked(names_view(required@), found, false),
{
    let mut found: Vec<bool> = Vec::new();
    let mut i: usize = 0;
    while i < required.len()
        invariant
            i <= required.len(),
            found.len() == i,
        decreases required.len() - i,
    {
        found.push(bin_in_path(required[i].as_str()));
        i = i + 1;
    }
    let missing = missing_bins(required, &found);
    proof {
        crate::commands::brew::lemma_picked_len(names_view(required@), found@, false);
    }
    (missing.len() == 0, missing)
}

/// A job is skipped when a required binary is missing, when it is flagged
/// and the mode is regular, or when it is not flagged and the mode is
/// flagged.
pub open spec fn skipped(j: JobView, mode: ExecMode, present: bool) -> bool {
    !present || (mode is Regular && j.4) || (mode is Flagged && !j.4)
}

/// The jobs that run, split into those to run first, one after another,
/// and the rest, to run concurrently.
pub open spec fn chosen(jobs: Seq<JobView>, mode: ExecMode, present: Seq<bool>, first: bool) -> Seq<JobView>
    decreases jobs.len(),
{
    if jobs.len() == 0 {
        jobs
    } else {
        let r = chosen(jobs.drop_last(), mode, present, first);
        let j = jobs.last();
        if !skipped(j, mode, present[jobs.len() - 1]) && j.3 == first {
            r.push(j)
        } else {
            r
        }
    }
}

fn copy_job(j: &ExecJob) -> (r: ExecJob)
    ensures
        job_view(r) == job_view(*j),
{
    ExecJob {
        name: j.name.clone(),
        run: j.run.clone(),
        sudo: j.sudo,
        ensure_first: j.ensure_first,
        flag: j.flag,
        required: copy_strings(&j.required),
    }
}

/// Separates the jobs that run in this mode into those marked
/// `ensure_first` and the others; `present[i]` says whether the binaries
/// `jobs[i]` requires are all found.
pub fn select_jobs(jobs: &Vec<ExecJob>, mode: &ExecMode, present: &Vec<bool>) -> (r: (Vec<ExecJob>, Vec<ExecJob>))
    requires
        present.len() == jobs.len(),
    ensures
        jobs_view(r.0@) == chosen(jobs_view(jobs@), *mode, present@, true),
        jobs_view(r.1@) == chosen(jobs_view(jobs@), *mode, present@, false),
{
    let ghost jv = jobs_view(jobs@);
    let mut first: Vec<ExecJob> = Vec::new();
    let mut rest: Vec<ExecJob> = Vec::new();
    let mut i: usize = 0;
    assert(jobs_view(first@) =~= Seq::<JobView>::empty());
    assert(jobs_view(rest@) =~= Seq::<JobView>::empty());
    while i < jobs.len()
        invariant
            i <= jobs.len(),
            present.len() == jobs.len(),
            jv == jobs_view(jobs@),
            jobs_view(first@) == chosen(jv.take(i as int), *mode, present@, true),
            jobs_view(rest@) == chosen(jv.take(i as int), *mode, present@, false),
        decreases jobs.len() - i,
    {
        assert(jv.take(i + 1).drop_last() =~= jv.take(i as int));
        assert(jv.take(i + 1).last() == job_view(jobs@[i as int]));
        let j = &jobs[i];
        let skip = !present[i] || (matches!(mode, ExecMode::Regular) && j.flag) || (matches!(mode, ExecMode::Flagged) && !j.flag);
        if !skip {
            if j.ensure_first {
                let ghost before = first@;
                first.push(copy_job(j));
                assert(jobs_view(first@) =~= jobs_view(before).push(job_view(*j)));
            } else {
                let ghost before = rest@;
                rest.push(copy_job(j));
                assert(jobs_view(rest@) =~= jobs_view(before).push(job_view(*j)));
            }
        }
        i = i + 1;
    }
    assert(jv.take(jobs.len() as int) =~= jv);
    (first, rest)
}

/// The program and arguments that run a job's line: `sh -c <line>`, under
/// `sudo` when asked.
pub open spec fn invocation_of(j: JobView) -> (Seq<char>, Seq<Seq<char>>) {
    if j.2 {
        ("sudo"@, seq!["sh"@, "-c"@, j.1])
    } else {
        ("sh"@, seq!["-c"@, j.1])
    }
}

pub fn job_invocation(job: &ExecJob) -> (r: (String, Vec<String>))
    ensures
        (r.0@, names_view(r.1@)) == invocation_of(job_view(*job)),
{
    if job.sudo {
        let args = vec![owned("sh"), owned("-c"), job.run.clone()];
        assert(names_view(args@) =~= seq!["sh"@, "-c"@, job.run@]);
        (owned("sudo"), args)
    } else {
        let args = vec![owned("-c"), job.run.clone()];
        assert(names_view(args@) =~= seq!["-c"@, job.run@]);
        (owned("sh"), args)
    }
}

/// What a dry run logs for a job: `Would execute: <program> <line>`.
pub fn dry_run_message(job: &ExecJob) -> (r: String)
    ensures
        r@ == "Would execute: "@ + invocation_of(job_view(*job)).0 + " "@ + job.run@,
{
    let bin = if job.sudo { "sudo" } else { "sh" };
    let parts = vec!["Would execute: ", bin, " ", job.run.as_str()];
    let r = join_strs(&parts);
    proof {
        let ps = parts@.map_values(|p: &str| p@);
        assert(ps =~= seq!["Would execute: "@, bin@, " "@, job.run@]);
        assert(concat_all(ps) =~= "Would execute: "@ + bin@ + " "@ + job.run@) by {
            reveal_with_fuel(concat_all, 5);
        }
    }
    r
}

/// The heading logged before a job runs: its name in bold.
pub fn job_heading(job: &ExecJob) -> (r: String)
    ensures
        r@ == BOLD@ + job.name@ + RESET@,
{
    let parts = vec![BOLD, job.name.as_str(), RESET];
    let r = join_strs(&parts);
    proof {
        let ps = parts@.map_values(|p: &str| p@);
        assert(ps =~= seq![BOLD@, job.name@, RESET@]);
        assert(concat_all(ps) =~= BOLD@ + job.name@ + RESET@) by {
            reveal_with_fuel(concat_all, 4);
        }
    }
    r
}


/// A job whose binaries are present and that the mode runs is among the
/// chosen jobs of its kind (first or rest).
proof fn lemma_chosen_contains(jobs: Seq<JobView>, mode: ExecMode, present: Seq<bool>, i: int)
    requires
        0 <= i < jobs.len(),
        !skipped(jobs[i], mode, present[i]),
    ensures
        chosen(jobs, mode, present, jobs[i].3).contains(jobs[i]),
    decreases jobs.len(),
{
    let n = jobs.len() - 1;
    let r = chosen(jobs.drop_last(), mode, present, jobs[i].3);
    if i < n {
        assert(jobs.drop_last()[i] == jobs[i]);
        lemma_chosen_contains(jobs.drop_last(), mode, present, i);
        let k = choose|k: int| 0 <= k < r.len() && r[k] == jobs[i];
        assert(chosen(jobs, mode, present, jobs[i].3)[k] == jobs[i]);
    } else {
        assert(chosen(jobs, mode, present, jobs[i].3) == r.push(jobs[i]));
        assert(r.push(jobs[i])[r.len() as int] == jobs[i]);
    }
}

/// Every chosen job is a job whose required binaries are present, of the
/// kind asked for, and one the mode runs: unflagged in regular mode, flagged
/// in flagged mode.
proof fn lemma_chosen_members(jobs: Seq<JobView>, mode: ExecMode, present: Seq<bool>, first: bool)
    ensures
        forall|k: int| 0 <= k < chosen(jobs, mode, present, first).len() ==> {
            let x = #[trigger] chosen(jobs, mode, present, first)[k];
            &&& exists|i: int| 0 <= i < jobs.len() && jobs[i] == x && present[i]
            &&& x.3 == first
            &&& mode is Regular ==> !x.4
            &&& mode is Flagged ==> x.4
        },
    decreases jobs.len(),
{
    if jobs.len() > 0 {
        let t = jobs.drop_last();
        lemma_chosen_members(t, mode, present, first);
        let r = chosen(t, mode, present, first);
        assert forall|k: int| 0 <= k < chosen(jobs, mode, present, first).len() implies
            exists|i: int| 0 <= i < jobs.len() && jobs[i] == #[trigger] chosen(jobs, mode, present, first)[k] && present[i] by {
            let x = chosen(jobs, mode, present, first)[k];
            if k < r.len() {
                assert(x == r[k]);
                let m = choose|m: int| 0 <= m < t.len() && t[m] == x && present[m];
                assert(jobs[m] == x);
            } else {
                assert(jobs[jobs.len() - 1] == x);
            }
        }
    }
}

/// What each mode runs: in `All` mode every job whose required binaries are
/// present runs, flagged or not; in regular mode every such unflagged job;
/// in flagged mode every such flagged job. Each runs first when it is
/// marked `ensure_first`, with the rest otherwise. Conversely, only jobs
/// whose binaries are present run, regular mode never runs a flagged job,
/// and flagged mode never an unflagged one.
pub proof fn law_mode_selects(jobs: Seq<JobView>, mode: ExecMode, present: Seq<bool>)
    requires
        present.len() == jobs.len(),
    ensures
        forall|i: int| 0 <= i < jobs.len() && present[i] && (mode is All || (mode is Regular && !jobs[i].4) || (mode is Flagged && jobs[i].4))
            ==> #[trigger] chosen(jobs, mode, present, jobs[i].3).contains(jobs[i]),
        forall|first: bool, k: int| 0 <= k < chosen(jobs, mode, present, first).len() ==> {
            let x = #[trigger] chosen(jobs, mode, present, first)[k];
            &&& exists|i: int| 0 <= i < jobs.len() && jobs[i] == x && present[i]
            &&& x.3 == first
            &&& mode is Regular ==> !x.4
            &&& mode is Flagged ==> x.4
        },
{
    assert forall|i: int| 0 <= i < jobs.len() && present[i] && (mode is All || (mode is Regular && !jobs[i].4) || (mode is Flagged && jobs[i].4))
        implies #[trigger] chosen(jobs, mode, present, jobs[i].3).contains(jobs[i]) by {
        lemma_chosen_contains(jobs, mode, present, i);
    }
    assert forall|first: bool, k: int| 0 <= k < chosen(jobs, mode, present, first).len() implies {
        let x = #[trigger] chosen(jobs, mode, present, first)[k];
        &&& exists|i: int| 0 <= i < jobs.len() && jobs[i] == x && present[i]
        &&& x.3 == first
        &&& mode is Regular ==> !x.4
        &&& mode is Flagged ==> x.4
    } by {
        lemma_chosen_members(jobs, mode, present, first);
    }
}

} // verus!
