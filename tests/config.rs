use envcheck::config::Config;

#[test]
fn test_default_config() {
    let config = Config::default();
    assert!(config.rules.disable.is_empty());
    assert!(!config.rules.warnings_as_errors);
}

#[test]
fn rule_disabled_when_listed() {
    let mut config = Config::default();
    config.rules.disable = vec!["W001".to_string(), "W002".to_string()];
    assert!(config.is_rule_disabled("W001"));
    assert!(config.is_rule_disabled("W002"));
    assert!(!config.is_rule_disabled("E001"));
    assert!(!config.is_rule_disabled("W00"));
}

#[test]
fn ignore_patterns() {
    let pats = vec!["*.local".to_string()];
    assert!(Config::should_ignore("dir/.env.local", &pats));
    assert!(!Config::should_ignore("dir/.env.prod", &pats));
    let pats = vec![".env.*".to_string()];
    assert!(Config::should_ignore(".env.prod", &pats));
    assert!(Config::should_ignore("x/.env.prod", &pats));
    assert!(!Config::should_ignore("x/env.prod", &pats));
    let pats = vec!["secret".to_string()];
    assert!(Config::should_ignore("a/secret/b.env", &pats));
    assert!(!Config::should_ignore("a/b.env", &pats));
    assert!(!Config::should_ignore("a.env", &[]));
}

#[test]
fn patterns_against_a_given_name() {
    let pats = vec!["*.local".to_string(), "prod*".to_string(), "exact".to_string()];
    assert!(Config::matches_any("x/y", "a.local", &pats));
    assert!(Config::matches_any("x/y", "prod.env", &pats));
    assert!(Config::matches_any("x/y", "exact", &pats));
    assert!(Config::matches_any("a/exact/b", "b", &pats));
    assert!(!Config::matches_any("x/y", "exactly", &pats));
    assert!(!Config::matches_any("x/y", "y", &pats));
}
