// The environment variable container.
use cli_rust::modules::Environment;

#[test]
fn new_environment_is_empty() {
    let env = Environment::new();
    assert!(env.is_empty());
    let d = Environment::default();
    assert!(d.is_empty());
}

#[test]
fn set_then_get() {
    let mut env = Environment::new();
    env.set("USER", "alice");
    assert_eq!(env.get("USER"), Some("alice"));
    assert_eq!(env.get("NONEXISTENT"), None);
    assert!(!env.is_empty());
    env.set("USER", "bob");
    assert_eq!(env.get("USER"), Some("bob"));
    assert_eq!(env.iter().len(), 1);
}

#[test]
fn remove_then_get() {
    let mut env = Environment::new();
    env.set("TEMP", "value");
    env.set("KEEP", "x");
    env.remove("TEMP");
    assert_eq!(env.get("TEMP"), None);
    assert_eq!(env.get("KEEP"), Some("x"));
    env.remove("MISSING");
    assert_eq!(env.get("KEEP"), Some("x"));
}

#[test]
fn with_vars_later_pair_wins() {
    let env = Environment::with_vars(vec![
        ("HOME".to_string(), "/home/user".to_string()),
        ("A".to_string(), "1".to_string()),
        ("HOME".to_string(), "/root".to_string()),
    ]);
    assert_eq!(env.get("HOME"), Some("/root"));
    assert_eq!(env.get("A"), Some("1"));
    let mut pairs = env.iter();
    pairs.sort();
    assert_eq!(
        pairs,
        vec![
            ("A".to_string(), "1".to_string()),
            ("HOME".to_string(), "/root".to_string())
        ]
    );
}
