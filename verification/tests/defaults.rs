use cutler::defaults::flags::{from_flag, normalize, to_flag};
use cutler::defaults::{get_flag_and_value, normalize_desired, DefaultsStep};
use cutler::value::ConfigValue;

#[test]
fn to_flag_of_each_scalar() {
    let (f, v) = to_flag(&ConfigValue::Boolean(true)).ok().unwrap();
    assert_eq!((f, v.as_str()), ("-bool", "true"));
    let (f, v) = to_flag(&ConfigValue::Boolean(false)).ok().unwrap();
    assert_eq!((f, v.as_str()), ("-bool", "false"));
    let (f, v) = to_flag(&ConfigValue::Integer(-42)).ok().unwrap();
    assert_eq!((f, v.as_str()), ("-int", "-42"));
    let (f, v) = to_flag(&ConfigValue::Float("0.6".to_string())).ok().unwrap();
    assert_eq!((f, v.as_str()), ("-float", "0.6"));
    let (f, v) = to_flag(&ConfigValue::Text("right".to_string())).ok().unwrap();
    assert_eq!((f, v.as_str()), ("-string", "right"));
}

#[test]
fn to_flag_refuses_arrays_and_tables() {
    assert!(to_flag(&ConfigValue::Array(vec![], "[]".to_string())).is_err());
    assert!(to_flag(&ConfigValue::Table(vec![], "{}".to_string())).is_err());
    assert!(get_flag_and_value(&ConfigValue::Datetime("1979-05-27".to_string())).is_err());
}

#[test]
fn from_flag_reads_back_types() {
    assert_eq!(from_flag("1").ok().unwrap().0, "-bool");
    assert_eq!(from_flag("false").ok().unwrap().0, "-bool");
    assert_eq!(from_flag("42").ok().unwrap().0, "-int");
    assert_eq!(from_flag("-7").ok().unwrap().0, "-int");
    assert_eq!(from_flag("3.14").ok().unwrap().0, "-float");
    assert_eq!(from_flag("1e5").ok().unwrap().0, "-float");
    assert_eq!(from_flag("inf").ok().unwrap().0, "-float");
    assert_eq!(from_flag("suck").ok().unwrap().0, "-string");
    assert_eq!(from_flag("suck").ok().unwrap().1, "suck");
    assert_eq!(from_flag("99999999999999999999").ok().unwrap().0, "-float");
}

#[test]
fn normalize_compares_like_defaults_read() {
    assert_eq!(normalize(&ConfigValue::Boolean(true)), "1");
    assert_eq!(normalize(&ConfigValue::Boolean(false)), "0");
    assert_eq!(normalize(&ConfigValue::Text("HH:mm".to_string())), "HH:mm");
    assert_eq!(normalize(&ConfigValue::Integer(50)), "50");
    assert_eq!(normalize_desired(&ConfigValue::Float("0.6".to_string())), "0.6");
}

#[test]
fn write_step_in_dry_run_and_for_real() {
    match cutler::defaults::executor::write("com.apple.dock", "tilesize", "-int", "50", "Applying", false, true) {
        DefaultsStep::DryRun(m) => assert_eq!(m, "Dry-run: Would execute: defaults write com.apple.dock \"tilesize\" \"-int\" \"50\""),
        _ => panic!("expected a dry run"),
    }
    match cutler::defaults::executor::write("com.apple.dock", "tilesize", "-int", "50", "Applying", true, false) {
        DefaultsStep::Run(inv, ann) => {
            assert_eq!(inv.args, vec!["write", "com.apple.dock", "tilesize", "-int", "50"]);
            assert_eq!(ann.unwrap(), "Applying: defaults write com.apple.dock \"tilesize\" \"-int\" \"50\"");
        },
        _ => panic!("expected a run"),
    }
    match cutler::defaults::executor::delete("NSGlobalDomain", "x", "Removing", false, false) {
        DefaultsStep::Run(inv, ann) => {
            assert_eq!(inv.args, vec!["delete", "NSGlobalDomain", "x"]);
            assert!(ann.is_none());
        },
        _ => panic!("expected a run"),
    }
}
