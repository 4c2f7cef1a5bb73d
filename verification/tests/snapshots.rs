use cache_env::env::Env;

fn pairs(items: &[(&str, &str)]) -> Vec<(String, String)> {
    items.iter().map(|(k, v)| (k.to_string(), v.to_string())).collect()
}

#[test]
fn new_snapshot_is_empty() {
    let env = Env::new();
    assert_eq!(env.len(), 0);
    assert!(env.is_empty());
    assert!(env.names().is_empty());
    assert_eq!(env.get("FOO"), None);
}

#[test]
fn insert_sets_and_overwrites_in_place() {
    let mut env = Env::new();
    assert!(env.insert("A".to_string(), "1".to_string()));
    assert!(env.insert("B".to_string(), "2".to_string()));
    assert!(env.insert("A".to_string(), "3".to_string()));
    assert_eq!(env.len(), 2);
    assert_eq!(env.names(), vec!["A".to_string(), "B".to_string()]);
    assert_eq!(env.get("A"), Some(&"3".to_string()));
    assert_eq!(env.get("B"), Some(&"2".to_string()));
    assert!(env.contains("A"));
    assert!(!env.contains("C"));
}

#[test]
fn insert_refuses_the_empty_name() {
    let mut env = Env::new();
    assert!(!env.insert(String::new(), "x".to_string()));
    assert_eq!(env.len(), 0);
}

#[test]
fn a_value_may_be_empty() {
    let mut env = Env::new();
    assert!(env.insert("EMPTY".to_string(), String::new()));
    assert_eq!(env.get("EMPTY"), Some(&String::new()));
    assert_eq!(env.assignments(), vec!["EMPTY=".to_string()]);
    assert_eq!(env.exports(), vec!["export EMPTY=\"\"".to_string()]);
}

#[test]
fn assignments_are_name_equals_value() {
    let env = Env::from_pairs(&pairs(&[("FOO", "bar"), ("PATH", "/bin:/usr/bin")])).unwrap();
    assert_eq!(
        env.assignments(),
        vec!["FOO=bar".to_string(), "PATH=/bin:/usr/bin".to_string()]
    );
}

#[test]
fn exports_quote_the_value() {
    let env = Env::from_pairs(&pairs(&[("X", "1"), ("GREETING", "hello world")])).unwrap();
    assert_eq!(
        env.exports(),
        vec![
            "export X=\"1\"".to_string(),
            "export GREETING=\"hello world\"".to_string()
        ]
    );
}

#[test]
fn from_pairs_takes_the_later_value_and_the_earlier_place() {
    let env = Env::from_pairs(&pairs(&[("A", "1"), ("B", "2"), ("A", "3")])).unwrap();
    assert_eq!(env.names(), vec!["A".to_string(), "B".to_string()]);
    assert_eq!(env.get("A"), Some(&"3".to_string()));
}

#[test]
fn from_pairs_is_all_or_nothing() {
    assert!(Env::from_pairs(&pairs(&[("A", "1"), ("", "2")])).is_none());
    assert!(Env::from_pairs(&pairs(&[])).unwrap().is_empty());
}

#[test]
fn same_as_ignores_the_order() {
    let a = Env::from_pairs(&pairs(&[("A", "1"), ("B", "2")])).unwrap();
    let b = Env::from_pairs(&pairs(&[("B", "2"), ("A", "1")])).unwrap();
    let c = Env::from_pairs(&pairs(&[("A", "1"), ("B", "3")])).unwrap();
    let d = Env::from_pairs(&pairs(&[("A", "1")])).unwrap();
    let e = Env::from_pairs(&pairs(&[("A", "1"), ("C", "2")])).unwrap();
    assert!(a.same_as(&b));
    assert!(b.same_as(&a));
    assert!(!a.same_as(&c));
    assert!(!a.same_as(&d));
    assert!(!d.same_as(&a));
    assert!(!a.same_as(&e));
}
