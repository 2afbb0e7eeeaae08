use cutler::brew::types::BrewListType;
use cutler::brew::{brew_list_args, compare_brew_state, parse_brew_list};
use cutler::commands::brew::{
    backup_brew, backup_lists, brew_install_plan, fetch_args, fetched_things, install_args, install_tasks, task_display, BrewBackupCmd,
};
use cutler::config::model::Brew;

fn v(items: &[&str]) -> Vec<String> {
    items.iter().map(|s| s.to_string()).collect()
}

#[test]
fn parse_listing_trims_and_drops_blank_lines() {
    assert_eq!(parse_brew_list("  git\n\nwget \r\n\t\n"), v(&["git", "wget"]));
    assert_eq!(parse_brew_list(""), Vec::<String>::new());
    assert_eq!(parse_brew_list("a b\u{00a0}\n c"), v(&["a b", "c"]));
}

#[test]
fn list_arguments() {
    assert_eq!(brew_list_args(&BrewListType::Cask), v(&["list", "--casks"]));
    assert_eq!(brew_list_args(&BrewListType::Formula), v(&["list", "--formulae"]));
    assert_eq!(brew_list_args(&BrewListType::Tap), v(&["tap"]));
    assert_eq!(brew_list_args(&BrewListType::Dependency), v(&["list", "--installed-as-dependency"]));
}

fn table(f: &[&str], c: &[&str], t: Option<&[&str]>, no_deps: Option<bool>) -> Brew {
    Brew { formulae: Some(v(f)), casks: Some(v(c)), taps: t.map(v), no_deps }
}

#[test]
fn compare_finds_missing_and_extra() {
    let d = compare_brew_state(&table(&["git", "node"], &["firefox"], None, None), &v(&["git", "wget"]), &v(&[]), &v(&["homebrew/core"]), &v(&["wget"]));
    assert_eq!(d.missing_formulae, v(&["node"]));
    assert_eq!(d.extra_formulae, v(&["wget"]));
    assert_eq!(d.missing_casks, v(&["firefox"]));
    assert!(d.extra_casks.is_empty());
    assert!(d.missing_taps.is_empty());
    assert_eq!(d.extra_taps, v(&["homebrew/core"]));
    let d = compare_brew_state(&table(&["git"], &[], None, Some(true)), &v(&["git", "wget"]), &v(&[]), &v(&[]), &v(&["wget"]));
    assert!(d.extra_formulae.is_empty());
}

#[test]
fn backup_then_compare_is_in_sync() {
    let (f, c, t, deps) = (v(&["git", "openssl"]), v(&["firefox"]), v(&["homebrew/cask"]), v(&["openssl"]));
    for (no_deps, exclude) in [(None, false), (Some(true), true)] {
        let table = backup_brew(no_deps, exclude, &f, &c, &t, &deps, false);
        let d = compare_brew_state(&table, &f, &c, &t, &deps);
        assert!(d.missing_formulae.is_empty() && d.extra_formulae.is_empty());
        assert!(d.missing_casks.is_empty() && d.extra_casks.is_empty());
        assert!(d.missing_taps.is_empty() && d.extra_taps.is_empty());
    }
    let dry = backup_brew(None, false, &f, &c, &t, &deps, true);
    assert_eq!(dry.formulae, Some(vec![]));
    let (bf, bc, bt) = backup_lists(true, &f, &c, &t, &deps);
    assert_eq!((bf, bc, bt), (v(&["git"]), c.clone(), t.clone()));
}

#[test]
fn backup_dependency_choice() {
    let on = BrewBackupCmd { no_deps: true };
    let off = BrewBackupCmd { no_deps: false };
    assert_eq!(on.deps_choice(None, false), (true, Some(true)));
    assert!(off.asks_about_deps(Some(true)));
    assert!(!off.asks_about_deps(None));
    assert_eq!(off.deps_choice(Some(true), true), (true, Some(true)));
    assert_eq!(off.deps_choice(Some(true), false), (false, None));
}

#[test]
fn install_plan_and_tasks() {
    let plan = brew_install_plan(&table(&["git", "node"], &["firefox"], Some(&["a/b"]) , None), &v(&["c/d"]), &v(&["git", "jq"]), &v(&[]));
    assert_eq!(plan.taps, v(&["a/b"]));
    assert_eq!(plan.skipped_formulae, v(&["git"]));
    assert_eq!(plan.extra_formulae, v(&["jq"]));
    assert_eq!(plan.fetch_formulae, v(&["node"]));
    assert_eq!(plan.tasks, vec![v(&["install", "node"]), v(&["install", "--cask", "firefox"])]);
    assert_eq!(install_tasks(&v(&["x"]), &v(&[])), vec![v(&["install", "x"])]);
    assert_eq!(task_display(&v(&["install", "--cask", "firefox"])), "brew install --cask firefox");
    assert_eq!(fetch_args(&"git".to_string(), false, false), v(&["fetch", "git", "--quiet"]));
    assert_eq!(fetch_args(&"zed".to_string(), true, true), v(&["fetch", "--cask", "zed"]));
}

#[test]
fn fetched_things_and_install_args() {
    let f = fetched_things(&v(&["a", "b"]), &v(&["c"]), &vec![true, false], &vec![true]);
    assert_eq!(f.formulae, v(&["a"]));
    assert_eq!(f.failed_formulae, v(&["b"]));
    assert_eq!(f.casks, v(&["c"]));
    assert_eq!(install_args(&f), vec![v(&["--formula", "a"]), v(&["--cask", "c"])]);
}
