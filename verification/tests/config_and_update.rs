use cutler::cli::{skips_auto_sync, BrewSubcmd, Command};
use cutler::commands::brew::{BrewBackupCmd, BrewInstallCmd};
use cutler::commands::config::{editor_parts, lock_change, unlock_change, ConfigCmd, EditorError, LockError};
use cutler::commands::fetch::FetchCmd;
use cutler::commands::status::StatusCmd;
use cutler::commands::update::{
    cargo_bin_path, check_versions, install_kind, latest_release_version, pick_release_version, run_check_update, update_target, verdict_of,
    InstallKind, ReleaseError, UpdateError, UpdateVerdict,
};
use cutler::config::model::{Brew, Config, Remote};
use cutler::config::{
    autosync_enabled, choose_config_path, config_candidates, config_changes, get_config_path, get_snapshot_path, join, legacy_config_candidates,
    load_check, ConfigError,
};
use cutler::value::ConfigValue;

fn v(items: &[&str]) -> Vec<String> {
    items.iter().map(|s| s.to_string()).collect()
}

#[test]
fn config_path_candidates_and_choice() {
    let c = config_candidates(Some("/Users/me"), Some("/x/"));
    assert_eq!(c, v(&["/Users/me/.config/cutler/config.toml", "/Users/me/.config/cutler.toml", "/x/cutler/config.toml", "/x/cutler.toml"]));
    assert_eq!(choose_config_path(&c, &vec![false, false, true, true]).unwrap(), "/x/cutler/config.toml");
    assert_eq!(choose_config_path(&c, &vec![false, false, false, false]).unwrap(), "/Users/me/.config/cutler/config.toml");
    assert!(choose_config_path(&vec![], &vec![]).is_none());
    assert_eq!(legacy_config_candidates(None, None), v(&["config.toml"]));
    assert_eq!(get_config_path(Some("/h"), None), "/h/.config/cutler/config.toml");
    assert_eq!(get_config_path(Some("/h"), Some("/xdg")), "/xdg/cutler/config.toml");
    assert_eq!(get_config_path(None, None), "config.toml");
    assert_eq!(get_snapshot_path(Some("/h")), "/h/.cutler_snapshot");
    assert_eq!(get_snapshot_path(None), ".cutler_snapshot");
    assert_eq!(join("", "a"), "a");
}

#[test]
fn loading_and_locking() {
    assert!(matches!(load_check(false, None, true), Err(ConfigError::NotFound)));
    assert!(matches!(load_check(true, Some(true), true), Err(ConfigError::Locked)));
    assert!(load_check(true, Some(true), false).is_ok());
    assert!(Config::new("p".to_string()).is_loadable(true));
    assert!(!Config::new(String::new()).is_loadable(true));
    assert!(matches!(lock_change(Some(true), false), Err(LockError::AlreadyLocked)));
    assert!(matches!(lock_change(None, false), Ok(Some(Some(true)))));
    assert!(matches!(lock_change(Some(false), true), Ok(None)));
    assert!(matches!(unlock_change(None, false), Err(LockError::AlreadyUnlocked)));
    assert!(matches!(unlock_change(Some(true), false), Ok(Some(None))));
}

#[test]
fn editor_command_words() {
    let c = ConfigCmd {};
    let (p, a) = c.editor_command("code --wait").ok().unwrap();
    assert_eq!((p.as_str(), a), ("code", v(&["--wait"])));
    let (p, a) = c.editor_command("'my editor' -n").ok().unwrap();
    assert_eq!((p.as_str(), a), ("my editor", v(&["-n"])));
    assert!(matches!(c.editor_command("   "), Err(EditorError::Empty)));
    assert!(matches!(c.editor_command("vim 'unterminated"), Err(EditorError::Unparsable)));
    assert!(matches!(editor_parts(None), Err(EditorError::Unparsable)));
}

#[test]
fn fetch_changes() {
    let mut a = Config::new("a".to_string());
    let mut b = Config::new("b".to_string());
    assert!(config_changes(&a, &b).is_empty());
    a.vars = Some(vec![("x".to_string(), "1".to_string()), ("y".to_string(), "2".to_string())]);
    b.vars = Some(vec![("y".to_string(), "2".to_string()), ("x".to_string(), "1".to_string())]);
    assert!(config_changes(&a, &b).is_empty());
    b.brew = Some(Brew { formulae: None, casks: None, taps: None, no_deps: None });
    b.remote = Some(Remote { url: "u".to_string(), autosync: Some(true) });
    assert_eq!(config_changes(&a, &b), v(&["\x1b[1mbrew\x1b[0m: (changed)", "\x1b[1mremote\x1b[0m: (changed)"]));
    assert!(autosync_enabled(&b.remote));
    assert!(!autosync_enabled(&a.remote));
    assert!(FetchCmd { force: true }.overwrites(0, false, false));
    assert!(!FetchCmd { force: false }.overwrites(0, false, true));
    assert!(FetchCmd { force: false }.overwrites(2, true, false));
}

#[test]
fn version_checks() {
    assert!(matches!(check_versions("1.0.0", "1.2.0"), Ok(UpdateVerdict::Available)));
    assert!(matches!(check_versions("1.2.0", "1.2.0"), Ok(UpdateVerdict::Latest)));
    assert!(matches!(check_versions("2.0.0", "1.9.9"), Ok(UpdateVerdict::Ahead)));
    assert!(matches!(check_versions("1.0.0-alpha", "1.0.0"), Ok(UpdateVerdict::Available)));
    assert!(matches!(check_versions("abc", "1.0.0"), Err(UpdateError::BadCurrent)));
    assert!(matches!(check_versions("1.0.0", "v1.0.0"), Err(UpdateError::BadLatest)));
    assert!(matches!(verdict_of(-1), UpdateVerdict::Available));
    let manifest = ConfigValue::Table(
        vec![("package".to_string(), ConfigValue::Table(vec![("version".to_string(), ConfigValue::Text("0.5.0".to_string()))], String::new()))],
        String::new(),
    );
    assert!(matches!(run_check_update("0.4.2", &manifest), Ok(UpdateVerdict::Available)));
    assert!(matches!(run_check_update("0.4.2", &ConfigValue::Table(vec![], String::new())), Err(UpdateError::MissingLatest)));
}

#[test]
fn release_replies() {
    assert_eq!(latest_release_version(r#"{"tag_name": "v0.9.1", "name": "x"}"#).ok().unwrap(), "0.9.1");
    assert_eq!(latest_release_version(r#"{"name": "vv2.0.0"}"#).ok().unwrap(), "2.0.0");
    assert!(matches!(latest_release_version("not json"), Err(ReleaseError::BadJson)));
    assert!(matches!(latest_release_version(r#"{"tag_name": 3}"#), Err(ReleaseError::NoTag)));
    assert_eq!(pick_release_version(None, Some("1.0".to_string())).unwrap(), "1.0");
}

#[test]
fn self_update_decisions() {
    assert_eq!(cargo_bin_path(Some("/c".to_string()), Some("/h".to_string()), None), "/c/bin/cutler");
    assert_eq!(cargo_bin_path(None, Some("/h".to_string()), None), "/h/.cargo/bin/cutler");
    assert_eq!(cargo_bin_path(None, None, None), "");
    assert!(matches!(install_kind("/opt/homebrew/bin/cutler", "/h/.cargo/bin/cutler"), InstallKind::Managed));
    assert!(matches!(install_kind("/h/.cargo/bin/cutler", "/h/.cargo/bin/cutler"), InstallKind::Managed));
    assert!(matches!(install_kind("/u/.local/share/mise/installs/cargo-cutler/1/bin/cutler", ""), InstallKind::Managed));
    assert!(matches!(install_kind("/usr/local/bin/cutler", ""), InstallKind::Manual));
    assert!(matches!(install_kind("/tmp/cutler", ""), InstallKind::Custom));
    assert_eq!(update_target("aarch64"), Some("darwin-arm64"));
    assert_eq!(update_target("x86"), Some("darwin-x86_64"));
    assert_eq!(update_target("riscv64"), None);
}

#[test]
fn auto_sync_skips() {
    assert!(skips_auto_sync(&Command::Fetch(FetchCmd { force: false })));
    assert!(skips_auto_sync(&Command::Brew { command: BrewSubcmd::Backup(BrewBackupCmd { no_deps: false }) }));
    assert!(!skips_auto_sync(&Command::Brew { command: BrewSubcmd::Install(BrewInstallCmd) }));
    assert!(!skips_auto_sync(&Command::Status(StatusCmd { no_brew: false })));
}
