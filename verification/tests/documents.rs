use cache_env::cache::EnvCache;
use cache_env::codec::{
    cache_from_value, cache_to_value, entry_from_value, entry_to_value, env_from_value,
    env_to_value, layer_from_value, layer_to_value, layers_to_value, onion_from_value,
    onion_to_value,
};
use cache_env::env::Env;
use cache_env::onion::EnvOnion;
use serde_json::Value;

fn env_of(items: &[(&str, &str)]) -> Env {
    let pairs: Vec<(String, String)> =
        items.iter().map(|(k, v)| (k.to_string(), v.to_string())).collect();
    Env::from_pairs(&pairs).unwrap()
}

fn text(s: &str) -> Value {
    Value::String(s.to_string())
}

fn object(members: Vec<(&str, Value)>) -> Value {
    let mut map = serde_json::Map::new();
    for (name, value) in members {
        map.insert(name.to_string(), value);
    }
    Value::Object(map)
}

#[test]
fn a_snapshot_is_an_object_of_strings() {
    let value = env_to_value(&env_of(&[("FOO", "bar"), ("EMPTY", "")]));
    assert_eq!(value, object(vec![("FOO", text("bar")), ("EMPTY", text(""))]));
    assert_eq!(env_to_value(&Env::new()), object(vec![]));
}

#[test]
fn an_object_of_strings_is_a_snapshot() {
    let env = env_from_value(&object(vec![("B", text("2")), ("A", text("1"))])).unwrap();
    assert!(env.same_as(&env_of(&[("A", "1"), ("B", "2")])));
    assert!(env_from_value(&object(vec![])).unwrap().is_empty());
}

#[test]
fn other_values_are_no_snapshot() {
    assert!(env_from_value(&Value::Null).is_none());
    assert!(env_from_value(&text("x")).is_none());
    assert!(env_from_value(&Value::Bool(true)).is_none());
    assert!(env_from_value(&Value::Array(vec![])).is_none());
    assert!(env_from_value(&object(vec![("A", Value::Bool(true))])).is_none());
    assert!(env_from_value(&object(vec![("A", text("1")), ("B", Value::Null)])).is_none());
    assert!(env_from_value(&object(vec![("", text("1"))])).is_none());
}

#[test]
fn a_kept_snapshot_stands_under_vars() {
    let value = entry_to_value(&env_of(&[("X", "1")]));
    assert_eq!(value, object(vec![("vars", object(vec![("X", text("1"))]))]));
    let env = entry_from_value(&value).unwrap();
    assert!(env.same_as(&env_of(&[("X", "1")])));
}

#[test]
fn a_kept_snapshot_may_have_other_members() {
    let value = object(vec![
        ("comment", Value::Array(vec![Value::Null])),
        ("vars", object(vec![("X", text("1"))])),
    ]);
    assert!(entry_from_value(&value).unwrap().same_as(&env_of(&[("X", "1")])));
    assert!(entry_from_value(&object(vec![("other", object(vec![]))])).is_none());
    assert!(entry_from_value(&object(vec![("vars", text("x"))])).is_none());
    assert!(entry_from_value(&Value::Array(vec![object(vec![])])).is_none());
}

#[test]
fn a_cache_is_an_object_of_kept_snapshots() {
    let mut cache = EnvCache::new();
    cache.insert("work".to_string(), env_of(&[("X", "1")]));
    cache.insert("home".to_string(), env_of(&[]));
    let value = cache_to_value(&cache);
    assert_eq!(
        value,
        object(vec![
            ("home", object(vec![("vars", object(vec![]))])),
            ("work", object(vec![("vars", object(vec![("X", text("1"))]))])),
        ])
    );
    let back = cache_from_value(&value).unwrap();
    assert!(back.same_as(&cache));
    assert!(cache_from_value(&object(vec![("work", object(vec![]))])).is_none());
    assert!(cache_from_value(&text("work")).is_none());
    assert_eq!(cache_from_value(&object(vec![])).unwrap().len(), 0);
}

#[test]
fn a_layer_has_its_name_and_its_state() {
    let value = layer_to_value(&"dev".to_string(), false);
    assert_eq!(value, object(vec![("name", text("dev")), ("isActive", Value::Bool(false))]));
    assert_eq!(layer_from_value(&"dev".to_string(), &value), Some(false));
    assert_eq!(layer_from_value(&"ops".to_string(), &value), None);
    let active = layer_to_value(&"dev".to_string(), true);
    assert_eq!(layer_from_value(&"dev".to_string(), &active), Some(true));
    assert_eq!(layer_from_value(&"dev".to_string(), &Value::Bool(true)), None);
    let wrong = object(vec![("name", Value::Bool(true)), ("isActive", Value::Bool(true))]);
    assert_eq!(layer_from_value(&"dev".to_string(), &wrong), None);
}

#[test]
fn an_onion_has_base_and_layers() {
    let mut onion = EnvOnion::init(env_of(&[("FOO", "bar")]));
    onion.save("dev".to_string());
    onion.save("ops".to_string());
    onion.deactivate("ops");
    let value = onion_to_value(&onion);
    assert_eq!(
        value,
        object(vec![
            ("base", object(vec![("FOO", text("bar"))])),
            (
                "layers",
                object(vec![
                    ("dev", object(vec![("name", text("dev")), ("isActive", Value::Bool(true))])),
                    ("ops", object(vec![("name", text("ops")), ("isActive", Value::Bool(false))])),
                ])
            ),
        ])
    );
    assert_eq!(layers_to_value(&EnvOnion::init(Env::new())), object(vec![]));
    let back = onion_from_value(&value).unwrap();
    assert!(back.same_as(&onion));
    assert!(onion_from_value(&object(vec![("base", object(vec![]))])).is_none());
}
