use cutler::commands::apply::{plan_apply, record_table, ApplyCmd, ApplyCmdError, RecordedSetting};
use cutler::commands::status::{brew_status, preferences_status};
use cutler::commands::unapply::undo_batches;
use cutler::commands::{status_defaults, StatusOutcome};
use cutler::brew::types::BrewDiff;
use cutler::exec::runner::ExecMode;
use cutler::logging::LogLevel;
use cutler::value::ConfigValue;

fn setting(d: &str, k: &str, v: ConfigValue) -> (String, String, ConfigValue) {
    (d.to_string(), k.to_string(), v)
}

fn rec(d: &str, k: &str, o: Option<ConfigValue>) -> RecordedSetting {
    RecordedSetting { domain: d.to_string(), key: k.to_string(), original_value: o }
}

#[test]
fn plan_apply_jobs_and_snapshot() {
    let settings = vec![
        setting("dock", "tilesize", ConfigValue::Integer(50)),
        setting("dock", "autohide", ConfigValue::Boolean(true)),
        setting("NSGlobalDomain", "KeyRepeat", ConfigValue::Integer(2)),
    ];
    let current = vec![Some(ConfigValue::Integer(36)), Some(ConfigValue::Boolean(true)), None];
    let snapshot = vec![rec("NSGlobalDomain", "KeyRepeat", Some(ConfigValue::Integer(6)))];
    let run = plan_apply(&settings, &current, &snapshot, &vec!["com.apple.dock".to_string()], false, false).ok().unwrap();
    assert_eq!(run.jobs.len(), 2);
    assert_eq!((run.jobs[0].domain.as_str(), run.jobs[0].key.as_str(), run.jobs[0].action), ("com.apple.dock", "tilesize", "Applying"));
    assert!(matches!(run.jobs[0].original, Some(ConfigValue::Integer(36))));
    assert_eq!(run.jobs[1].action, "Updating");
    assert!(matches!(run.jobs[1].original, Some(ConfigValue::Integer(6))));
    assert_eq!(run.settings.len(), 2);
    assert_eq!(run.settings[0].key, "tilesize");
    assert_eq!(run.settings[1].key, "KeyRepeat");

    let undo = undo_batches(&run.settings);
    assert_eq!(undo.restores.len(), 2);
    assert_eq!(undo.restores[0].1, "KeyRepeat");
    assert!(matches!(undo.restores[0].2, ConfigValue::Integer(6)));
    assert_eq!(undo.restores[1].1, "tilesize");
    assert!(matches!(undo.restores[1].2, ConfigValue::Integer(36)));
    assert!(undo.deletes.is_empty());
}

#[test]
fn plan_apply_in_sync_writes_nothing() {
    let settings = vec![setting("dock", "tilesize", ConfigValue::Integer(50))];
    let run = plan_apply(&settings, &vec![Some(ConfigValue::Integer(50))], &vec![], &vec!["com.apple.dock".to_string()], false, false).ok().unwrap();
    assert!(run.jobs.is_empty());
    assert!(run.settings.is_empty());
}

#[test]
fn plan_apply_domain_check() {
    let settings = vec![setting("finder", "CreateDesktop", ConfigValue::Boolean(false))];
    match plan_apply(&settings, &vec![None], &vec![], &vec![], false, false) {
        Err(ApplyCmdError::DomainNotFound(d)) => assert_eq!(d, "com.apple.finder"),
        _ => panic!("expected a missing domain"),
    }
    let run = plan_apply(&settings, &vec![None], &vec![], &vec![], true, true).ok().unwrap();
    assert_eq!(run.jobs.len(), 1);
    assert!(run.jobs[0].original.is_none());
    let undo = undo_batches(&run.settings);
    assert_eq!(undo.deletes, vec![("com.apple.finder".to_string(), "CreateDesktop".to_string())]);
}

#[test]
fn undo_batches_group_by_domain() {
    let settings = vec![
        rec("com.apple.dock", "a", Some(ConfigValue::Integer(1))),
        rec("NSGlobalDomain", "b", Some(ConfigValue::Integer(2))),
        rec("com.apple.dock", "c", Some(ConfigValue::Integer(3))),
        rec("com.apple.dock", "d", None),
    ];
    let undo = undo_batches(&settings);
    let keys: Vec<&str> = undo.restores.iter().map(|r| r.1.as_str()).collect();
    assert_eq!(keys, vec!["c", "a", "b"]);
    assert_eq!(undo.deletes, vec![("com.apple.dock".to_string(), "d".to_string())]);
}

#[test]
fn record_table_keeps_last_of_a_key() {
    let t = record_table(&vec![rec("d", "k", Some(ConfigValue::Integer(1))), rec("d", "j", None), rec("d", "k", None)]);
    assert_eq!(t.len(), 2);
    assert_eq!(t[0].key, "k");
    assert!(t[0].original_value.is_none());
}

#[test]
fn apply_cmd_modes() {
    let mut c = ApplyCmd { url: None, no_cmd: false, all_cmd: false, flagged_cmd: false, no_dom_check: false, brew: false };
    assert!(matches!(c.exec_mode(), Some(ExecMode::Regular)));
    c.flagged_cmd = true;
    assert!(matches!(c.exec_mode(), Some(ExecMode::Flagged)));
    c.all_cmd = true;
    assert!(matches!(c.exec_mode(), Some(ExecMode::All)));
    c.no_cmd = true;
    assert!(c.exec_mode().is_none());
}

fn outcome(d: &str, k: &str, desired: &str, current: &str) -> StatusOutcome {
    StatusOutcome { domain: d.to_string(), key: k.to_string(), desired: desired.to_string(), current: current.to_string(), differs: desired != current }
}

#[test]
fn status_report_lines() {
    let outs = vec![outcome("com.apple.dock", "tilesize", "50", "36"), outcome("com.apple.dock", "autohide", "1", "1"), outcome("NSGlobalDomain", "x", "1", "1")];
    let lines = preferences_status(&outs);
    assert_eq!(lines.len(), 6);
    assert!(matches!(lines[0].level, LogLevel::Warning));
    assert_eq!(lines[0].text, "\x1b[1mcom.apple.dock\x1b[0m");
    assert_eq!(lines[1].text, "  tilesize: should be \x1b[31m50\x1b[0m (now: \x1b[31m36\x1b[0m)");
    assert_eq!(lines[2].text, "  \x1b[32m[Matched]\x1b[0m autohide: 1");
    assert!(matches!(lines[3].level, LogLevel::Info));
    assert_eq!(lines[5].text, "Preferences diverged. Run `cutler apply` to apply the config onto the system.");
    let in_sync = preferences_status(&vec![outcome("NSGlobalDomain", "x", "1", "1")]);
    assert!(matches!(in_sync[2].level, LogLevel::Success));
    assert_eq!(in_sync[2].text, "System preferences are on sync.");
    let st = status_defaults(&vec![("dock".to_string(), "k".to_string(), ConfigValue::Boolean(true))], &vec![None]);
    assert_eq!(st[0].current, "Not set");
}

#[test]
fn brew_status_lines() {
    let diff = BrewDiff {
        missing_formulae: vec!["node".to_string(), "jq".to_string()],
        extra_formulae: vec![],
        missing_casks: vec![],
        extra_casks: vec!["zoom".to_string()],
        missing_taps: vec![],
        extra_taps: vec![],
    };
    let lines = brew_status(&diff);
    assert_eq!(lines.len(), 3);
    assert_eq!(lines[0].text, "\x1b[1mFormulae missing:\x1b[0m node, jq");
    assert_eq!(lines[1].text, "\x1b[1mExtra casks installed:\x1b[0m zoom");
    assert!(matches!(lines[2].level, LogLevel::Warning));
    let empty = BrewDiff { missing_formulae: vec![], extra_formulae: vec![], missing_casks: vec![], extra_casks: vec![], missing_taps: vec![], extra_taps: vec![] };
    let lines = brew_status(&empty);
    assert_eq!(lines.len(), 1);
    assert_eq!(lines[0].text, "Homebrew status on sync.");
}
