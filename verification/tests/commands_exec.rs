use cutler::config::model::{Command, Config};
use cutler::exec::engine::{resolve_var, run_all_summary, substitute};
use cutler::exec::runner::{dry_run_message, extract_all_cmds, extract_cmd, job_heading, job_invocation, missing_bins, select_jobs, ExecError, ExecMode};
use cutler::commands::exec::ExecCmd;
use cutler::vars::substitute_text;

fn pairs(items: &[(&str, &str)]) -> Vec<(String, String)> {
    items.iter().map(|(a, b)| (a.to_string(), b.to_string())).collect()
}

#[test]
fn substitute_text_vars_env_and_literals() {
    let vars = pairs(&[("USER", "me")]);
    let env = pairs(&[("HOME", "/home/x"), ("USER", "root")]);
    assert_eq!(substitute_text("echo $HOME and ${USER}!", Some(&vars), &env), "echo /home/x and me!");
    assert_eq!(substitute_text("$NOPE ${NOPE} $", Some(&vars), &env), "$NOPE ${NOPE} $");
    assert_eq!(substitute_text("a$USER-b", None, &env), "aroot-b");
    assert_eq!(substitute_text("${unterminated", Some(&vars), &env), "${unterminated");
    assert_eq!(substitute_text("no refs here", Some(&vars), &env), "no refs here");
}

#[test]
fn pattern_substitution() {
    let vars = pairs(&[("X", "y")]);
    let env = pairs(&[("HOME", "/h")]);
    assert_eq!(substitute("echo $HOME ${X} $1 $FOO", Some(&vars), &env), "echo /h y $1 ${FOO}");
    assert_eq!(resolve_var(None, &env, "MISSING"), "${MISSING}");
    assert_eq!(resolve_var(Some(&vars), &env, "X"), "y");
}

fn config() -> Config {
    let mut c = Config::new("config.toml".to_string());
    c.vars = Some(pairs(&[("GREETING", "hi")]));
    c.command = Some(vec![
        ("hello".to_string(), Command { run: "echo $GREETING".to_string(), ensure_first: None, required: None, flag: Some(true), sudo: None }),
        ("setup".to_string(), Command { run: "true".to_string(), ensure_first: Some(true), required: Some(vec!["git".to_string()]), flag: None, sudo: Some(true) }),
    ]);
    c
}

#[test]
fn extract_jobs() {
    let env = pairs(&[]);
    let job = extract_cmd(&config(), "hello", &env).ok().unwrap();
    assert_eq!(job.run, "echo hi");
    assert!(job.flag && !job.sudo && !job.ensure_first);
    assert!(matches!(extract_cmd(&config(), "nope", &env), Err(ExecError::NoSuchCommand(n)) if n == "nope"));
    assert!(matches!(extract_cmd(&Config::new(String::new()), "hello", &env), Err(ExecError::NoCommands)));
    let jobs = extract_all_cmds(&config(), &env);
    assert_eq!(jobs.len(), 2);
    assert_eq!(jobs[1].required, vec!["git".to_string()]);
}

#[test]
fn job_selection_and_invocation() {
    let env = pairs(&[]);
    let jobs = extract_all_cmds(&config(), &env);
    let (first, rest) = select_jobs(&jobs, &ExecMode::Regular, &vec![true, true]);
    assert_eq!(first.len(), 1);
    assert!(rest.is_empty());
    let (first, rest) = select_jobs(&jobs, &ExecMode::Flagged, &vec![true, true]);
    assert!(first.is_empty());
    assert_eq!(rest[0].name, "hello");
    let (first, _) = select_jobs(&jobs, &ExecMode::All, &vec![true, false]);
    assert!(first.is_empty());
    let (bin, args) = job_invocation(&jobs[1]);
    assert_eq!((bin.as_str(), args), ("sudo", vec!["sh".to_string(), "-c".to_string(), "true".to_string()]));
    assert_eq!(dry_run_message(&jobs[0]), "Would execute: sh echo hi");
    assert_eq!(job_heading(&jobs[0]), "\x1b[1mhello\x1b[0m");
    assert_eq!(missing_bins(&vec!["a".to_string(), "b".to_string()], &vec![true, false]), vec!["b".to_string()]);
}

#[test]
fn exec_modes_and_summary() {
    assert!(matches!(ExecCmd { name: None, regular: false, flagged: true }.mode(), ExecMode::Flagged));
    assert!(matches!(ExecCmd { name: None, regular: true, flagged: false }.mode(), ExecMode::Regular));
    assert!(matches!(ExecCmd { name: None, regular: false, flagged: false }.mode(), ExecMode::All));
    assert_eq!(run_all_summary(3, 2).unwrap(), "2 external commands failed");
    assert_eq!(run_all_summary(0, 0).unwrap(), "No regular external commands found. Maybe you meant flagged or all?");
    assert!(run_all_summary(1, 0).is_none());
}
