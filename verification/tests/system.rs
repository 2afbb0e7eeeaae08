use cutler::logging::{print_log, LogLevel};
use cutler::system::{
    answered_yes, brew_path_update, check_domain_exists, clt_installed, clt_step, confirm_action, get_current_value, restart_message, system_services, CltStep,
};

#[test]
fn reading_defaults_output() {
    assert_eq!(get_current_value(true, "  50\n"), Some("50".to_string()));
    assert_eq!(get_current_value(true, " \n"), None);
    assert_eq!(get_current_value(false, "50"), None);
    assert!(check_domain_exists("com.apple.dock", true).is_ok());
    assert_eq!(check_domain_exists("com.apple.nope", false).err().unwrap(), "Domain 'com.apple.nope' does not exist. Aborting.");
}

#[test]
fn answers() {
    assert!(confirm_action(" y\n"));
    assert!(confirm_action("Y"));
    assert!(!confirm_action("yes"));
    assert!(answered_yes(" Y \n"));
    assert!(!answered_yes("n"));
}

#[test]
fn services_and_paths() {
    assert_eq!(system_services(), vec!["Finder", "Dock", "SystemUIServer"]);
    let (lvl, m) = restart_message("Dock", false, false, false).unwrap();
    assert!(matches!(lvl, LogLevel::Error));
    assert_eq!(m, "Failed to restart Dock, try restarting manually.");
    assert!(restart_message("Dock", true, false, false).is_none());
    assert_eq!(restart_message("Dock", true, true, true).unwrap().1, "Dry-run: Would restart Dock");
    assert_eq!(brew_path_update("/usr/bin", true, true).unwrap(), "/opt/homebrew/bin:/usr/bin");
    assert_eq!(brew_path_update("/usr/bin", false, true).unwrap(), "/usr/local/bin:/usr/bin");
    assert!(brew_path_update("/usr/bin", false, false).is_none());
    assert!(clt_installed(true, "/Library/Developer/CommandLineTools\n"));
    assert!(!clt_installed(true, "\n"));
    assert!(matches!(clt_step(false, true), CltStep::WouldInstall));
}

#[test]
fn log_lines() {
    let l = print_log(LogLevel::Warning, "careful");
    assert_eq!(l.text, "\x1b[33m[WARNING]\x1b[0m careful");
    assert!(l.to_stderr);
    let l = print_log(LogLevel::CommandOutput, "x");
    assert_eq!(l.text, "\x1b[35m[CMD OUT]\x1b[0m x");
    assert!(!l.to_stderr);
}
