use cutler::commands::{apply_defaults, flatten_settings, reset_defaults, status_defaults, unapply_defaults, undo_command, ApplyError, UndoStep};
use cutler::defaults::DefaultsStep;
use cutler::snapshot::SettingState;
use cutler::value::ConfigValue;

fn dock() -> Vec<(String, Vec<(String, ConfigValue)>)> {
    vec![(
        "dock".to_string(),
        vec![("tilesize".to_string(), ConfigValue::Integer(50)), ("autohide".to_string(), ConfigValue::Boolean(true))],
    )]
}

#[test]
fn apply_writes_only_what_differs() {
    let plan = apply_defaults(&dock(), &vec![], &vec![true], &vec![vec![Some("36".to_string()), Some("1".to_string())]]);
    assert!(plan.error.is_none());
    assert_eq!(plan.writes.len(), 1);
    let w = &plan.writes[0];
    assert_eq!((w.domain.as_str(), w.key.as_str(), w.flag, w.value.as_str(), w.action), ("com.apple.dock", "tilesize", "-int", "50", "Applying"));
    assert_eq!(plan.settings.len(), 2);
    assert_eq!(plan.settings[0].original_value.as_deref(), Some("36"));
    assert_eq!(plan.settings[0].new_value, "50");
    assert_eq!(plan.settings[1].key, "autohide");
    assert_eq!(plan.settings[1].original_value.as_deref(), Some("1"));
}

#[test]
fn apply_keeps_original_of_recorded_setting() {
    let snapshot = vec![SettingState {
        domain: "com.apple.dock".to_string(),
        key: "tilesize".to_string(),
        original_value: Some("36".to_string()),
        new_value: "40".to_string(),
    }];
    let plan = apply_defaults(&dock(), &snapshot, &vec![true], &vec![vec![Some("40".to_string()), None]]);
    assert!(plan.error.is_none());
    assert_eq!(plan.writes[0].action, "Updating");
    assert_eq!(plan.writes[1].action, "Applying");
    assert_eq!(plan.settings[0].original_value.as_deref(), Some("36"));
    assert_eq!(plan.settings[0].new_value, "50");
    assert_eq!(plan.settings[1].original_value, None);
}

#[test]
fn reapplying_writes_nothing() {
    let first = apply_defaults(&dock(), &vec![], &vec![true], &vec![vec![None, Some("0".to_string())]]);
    assert_eq!(first.writes.len(), 2);
    let second = apply_defaults(&dock(), &first.settings, &vec![true], &vec![vec![Some("50".to_string()), Some("1".to_string())]]);
    assert!(second.error.is_none());
    assert_eq!(second.writes.len(), 0);
    assert_eq!(second.settings.len(), first.settings.len());
}

#[test]
fn apply_stops_on_missing_domain_and_unsupported_value() {
    let plan = apply_defaults(&dock(), &vec![], &vec![false], &vec![vec![None, None]]);
    match plan.error {
        Some(ApplyError::DomainMissing(d)) => assert_eq!(d, "com.apple.dock"),
        _ => panic!("expected a missing domain"),
    }
    let g = vec![("NSGlobalDomain".to_string(), vec![("list".to_string(), ConfigValue::Array(vec![], "[]".to_string()))])];
    let plan = apply_defaults(&g, &vec![], &vec![false], &vec![vec![None]]);
    match plan.error {
        Some(ApplyError::UnsupportedValue(d, k)) => assert_eq!((d.as_str(), k.as_str()), ("NSGlobalDomain", "list")),
        _ => panic!("expected an unsupported value"),
    }
}

#[test]
fn unapply_restores_in_reverse() {
    let plan = apply_defaults(&dock(), &vec![], &vec![true], &vec![vec![Some("36".to_string()), None]]);
    let steps = unapply_defaults(&plan.settings);
    assert_eq!(steps.len(), 2);
    match &steps[0] {
        UndoStep::Remove(d, k) => assert_eq!((d.as_str(), k.as_str()), ("com.apple.dock", "autohide")),
        _ => panic!("expected a removal"),
    }
    match &steps[1] {
        UndoStep::Restore(d, k, f, v) => assert_eq!((d.as_str(), k.as_str(), *f, v.as_str()), ("com.apple.dock", "tilesize", "-int", "36")),
        _ => panic!("expected a restore"),
    }
    match undo_command(&steps[1], false, true) {
        DefaultsStep::DryRun(m) => assert_eq!(m, "Dry-run: Would execute: defaults write com.apple.dock \"tilesize\" \"-int\" \"36\""),
        _ => panic!(),
    }
}

#[test]
fn reset_and_status() {
    let flat = flatten_settings(&dock());
    assert_eq!(flat.len(), 2);
    assert_eq!((flat[1].0.as_str(), flat[1].1.as_str()), ("dock", "autohide"));
    let targets = reset_defaults(&flat, &vec![None, Some("1".to_string())]);
    assert_eq!(targets, vec![("com.apple.dock".to_string(), "autohide".to_string())]);
    let st = status_defaults(&flat, &vec![None, Some("1".to_string())]);
    assert_eq!(st[0].current, "Not set");
    assert_eq!(st[0].desired, "50");
    assert!(st[0].differs);
    assert!(!st[1].differs);
}
