use cutler::brew::document::{backup_document, BackupError};
use cutler::commands::{applied_snapshot, ApplyPlan};
use cutler::commands::update::run_check_update;
use cutler::commands::update::UpdateVerdict;
use cutler::config::document::{load_config_text, LoadError};
use cutler::config::config_changes;
use cutler::config::model::{Command, Config, Mas};
use cutler::exec::runner::extract_cmd;
use cutler::defaults::flags::{from_flag, to_flag};
use cutler::snapshot::SettingState;
use cutler::value::{value_get, ConfigValue};

fn v(items: &[&str]) -> Vec<String> {
    items.iter().map(|s| s.to_string()).collect()
}

#[test]
fn config_text_parses_into_values() {
    let doc = load_config_text("[dock]\ntilesize = 50\nautohide = true\nratio = 0.5\n", true).ok().unwrap();
    let dock = value_get(&doc, "dock").unwrap();
    assert!(matches!(value_get(dock, "tilesize"), Some(ConfigValue::Integer(50))));
    assert!(matches!(value_get(dock, "autohide"), Some(ConfigValue::Boolean(true))));
    assert!(matches!(value_get(dock, "ratio"), Some(ConfigValue::Float(t)) if t == "0.5"));
}

#[test]
fn config_text_errors() {
    assert!(matches!(load_config_text("[dock\n", false), Err(LoadError::Parse)));
    assert!(matches!(load_config_text("lock = true\n", true), Err(LoadError::Locked)));
    assert!(load_config_text("lock = true\n", false).is_ok());
    assert!(load_config_text("lock = false\n", true).is_ok());
    assert!(load_config_text("lock = \"yes\"\n", true).is_ok());
}

#[test]
fn manifest_text_feeds_update_check() {
    let manifest = load_config_text("[package]\nname = \"cutler\"\nversion = \"1.2.0\"\n", false).ok().unwrap();
    assert!(matches!(run_check_update("1.0.0", &manifest), Ok(UpdateVerdict::Available)));
    assert!(matches!(run_check_update("1.2.0", &manifest), Ok(UpdateVerdict::Latest)));
}

#[test]
fn backup_writes_brew_lists() {
    let out = backup_document(None, &v(&["git", "jq"]), &v(&["zoom"])).ok().unwrap();
    let doc = load_config_text(&out, false).ok().unwrap();
    let brew = value_get(&doc, "brew").unwrap();
    assert!(matches!(value_get(brew, "formulae"), Some(ConfigValue::Array(items, _)) if items.len() == 2));
    let kept = backup_document(Some("# mine\n[dock]\ntilesize = 36\n"), &v(&["git"]), &v(&[])).ok().unwrap();
    assert!(kept.contains("# mine"));
    assert!(kept.contains("tilesize = 36"));
    assert!(kept.contains("formulae = [\"git\"]"));
}

#[test]
fn backup_into_empty_and_existing_brew() {
    let out = backup_document(None, &v(&["git"]), &v(&["zoom"])).ok().unwrap();
    assert_eq!(out, "[brew]\nformulae = [\"git\"]\ncasks = [\"zoom\"]\n");
    let out = backup_document(Some("[brew]\nno_deps = true\nformulae = [\"old\"]\n"), &v(&["new"]), &v(&[])).ok().unwrap();
    assert!(out.contains("no_deps = true"));
    assert!(out.contains("formulae = [\"new\"]"));
    assert!(!out.contains("old"));
    assert!(out.contains("casks = []"));
}

#[test]
fn backup_errors() {
    assert!(matches!(backup_document(Some("[brew\n"), &v(&[]), &v(&[])), Err(BackupError::Parse)));
    assert!(matches!(backup_document(Some("brew = 1\n"), &v(&[]), &v(&[])), Err(BackupError::BrewNotATable)));
}

#[test]
fn fetch_reports_settings_and_other_tables() {
    let mut a = Config::new("a".to_string());
    let mut b = Config::new("b".to_string());
    a.set = Some(vec![("dock".to_string(), vec![("tilesize".to_string(), ConfigValue::Integer(36))])]);
    b.set = Some(vec![("dock".to_string(), vec![("tilesize".to_string(), ConfigValue::Integer(50))])]);
    assert_eq!(config_changes(&a, &b), v(&["\x1b[1mset\x1b[0m: (changed)"]));
    b.set = Some(vec![("dock".to_string(), vec![("tilesize".to_string(), ConfigValue::Integer(36))])]);
    assert!(config_changes(&a, &b).is_empty());
    b.mas = Some(Mas { ids: v(&["1"]) });
    b.lock = Some(true);
    assert_eq!(config_changes(&a, &b), v(&["\x1b[1mmas\x1b[0m: (changed)", "\x1b[1mlock\x1b[0m: (changed)"]));
}

#[test]
fn flag_round_trips() {
    for value in [ConfigValue::Float("inf".to_string()), ConfigValue::Float("-inf".to_string()), ConfigValue::Float("nan".to_string()), ConfigValue::Boolean(true), ConfigValue::Boolean(false), ConfigValue::Integer(-42), ConfigValue::Integer(7), ConfigValue::Float("0.6".to_string())] {
        let (f, s) = to_flag(&value).ok().unwrap();
        let (g, t) = from_flag(&s).ok().unwrap();
        assert_eq!((f, s), (g, t));
    }
    let (f, s) = to_flag(&ConfigValue::Integer(1)).ok().unwrap();
    assert_ne!(from_flag(&s).ok().unwrap().0, f);
}

#[test]
fn applied_snapshot_keeps_externals() {
    let config = load_config_text("[[external.command]]\ncmd = \"echo\"\nargs = [\"hi\"]\n", false).ok().unwrap();
    let plan = ApplyPlan {
        writes: vec![],
        settings: vec![SettingState { domain: "d".to_string(), key: "k".to_string(), original_value: None, new_value: "1".to_string() }],
        error: None,
    };
    let snap = applied_snapshot(plan, &config);
    assert_eq!(snap.settings.len(), 1);
    assert_eq!(snap.external_commands.len(), 1);
    assert_eq!(snap.external_commands[0].cmd, "echo");
    assert_eq!(snap.external_commands[0].args, v(&["hi"]));
}

#[test]
fn extracted_command_keeps_unknown_reference_braced() {
    let mut c = Config::new("c".to_string());
    c.command = Some(vec![("x".to_string(), Command { run: "echo $NOPE_X1".to_string(), ensure_first: None, required: None, flag: None, sudo: None })]);
    let job = extract_cmd(&c, "x", &vec![]).ok().unwrap();
    assert_eq!(job.run, "echo ${NOPE_X1}");
}
