use cutler::domains::collector::{domain_string_to_obj, effective, get_defaults_domain, PrefDomain};
use cutler::domains::{collect_domains, get_effective_domain, get_effective_domain_and_key, needs_prefix};
use cutler::value::ConfigValue;

#[test]
fn effective_domain_and_key_cases() {
    assert_eq!(get_effective_domain_and_key("NSGlobalDomain", "AppleShowAllExtensions"), ("NSGlobalDomain".to_string(), "AppleShowAllExtensions".to_string()));
    assert_eq!(get_effective_domain_and_key("NSGlobalDomain.com.apple.mouse", "linear"), ("NSGlobalDomain".to_string(), "com.apple.mouse.linear".to_string()));
    assert_eq!(get_effective_domain_and_key("NSGlobalDomain.", "k"), ("NSGlobalDomain".to_string(), "k".to_string()));
    assert_eq!(get_effective_domain_and_key("dock", "tilesize"), ("com.apple.dock".to_string(), "tilesize".to_string()));
    assert_eq!(get_effective_domain_and_key("NSGlobalDomainX", "k"), ("com.apple.NSGlobalDomainX".to_string(), "k".to_string()));
}

#[test]
fn effective_agrees_with_older_form() {
    for (d, k) in [("NSGlobalDomain", "a"), ("NSGlobalDomain.com.apple.mouse", "linear"), ("finder", "CreateDesktop")] {
        assert_eq!(effective(d, k), get_effective_domain_and_key(d, k));
    }
    assert_eq!(effective("NSGlobalDomain.", "k"), ("NSGlobalDomain".to_string(), ".k".to_string()));
}

#[test]
fn defaults_domain_and_prefix() {
    assert_eq!(get_defaults_domain("finder"), "com.apple.finder");
    assert_eq!(get_defaults_domain("NSGlobalDomain"), "NSGlobalDomain");
    assert_eq!(get_defaults_domain("NSGlobalDomain.bar"), "NSGlobalDomain");
    assert_eq!(get_effective_domain("NSGlobalDomainAnything"), "NSGlobalDomain");
    assert_eq!(get_effective_domain("menuextra.clock"), "com.apple.menuextra.clock");
    assert!(needs_prefix("dock"));
    assert!(!needs_prefix("NSGlobalDomain.foo"));
    assert!(matches!(domain_string_to_obj("NSGlobalDomain"), PrefDomain::Global));
    match domain_string_to_obj("com.apple.dock") {
        PrefDomain::User(s) => assert_eq!(s, "com.apple.dock"),
        _ => panic!(),
    }
}

fn table(entries: Vec<(&str, ConfigValue)>) -> ConfigValue {
    ConfigValue::Table(entries.into_iter().map(|(k, v)| (k.to_string(), v)).collect(), String::new())
}

#[test]
fn collect_domains_flattens_nested_tables() {
    let cfg = table(vec![
        ("dock", table(vec![("tilesize", ConfigValue::Integer(50))])),
        ("menuextra", table(vec![("clock", table(vec![("ShowSeconds", ConfigValue::Boolean(true))]))])),
    ]);
    let groups = collect_domains(&cfg).ok().unwrap();
    let names: Vec<&str> = groups.iter().map(|g| g.0.as_str()).collect();
    assert!(names.contains(&"dock"));
    assert!(names.contains(&"menuextra.clock"));
    assert_eq!(groups.len(), 2);
    assert!(collect_domains(&ConfigValue::Integer(1)).is_err());
}
