use cache_env::env::Env;
use cache_env::onion::{EnvOnion, Layer};
use cache_env::onion_file::{
    deactivate, export, init, load, parse_onion, reactivate, save, set_active, store,
};
use cache_env::store::{StoreError, StoreFile};

fn env_of(items: &[(&str, &str)]) -> Env {
    let pairs: Vec<(String, String)> =
        items.iter().map(|(k, v)| (k.to_string(), v.to_string())).collect();
    Env::from_pairs(&pairs).unwrap()
}

fn layer(name: &str, is_active: bool) -> Layer {
    Layer { name: name.to_string(), is_active }
}

#[test]
fn init_writes_the_base_and_no_layers() {
    let text = init(env_of(&[("FOO", "bar")])).unwrap();
    assert_eq!(text, "{\n  \"base\": {\n    \"FOO\": \"bar\"\n  },\n  \"layers\": {}\n}\n");
    let written: serde_json::Value = serde_json::from_str(&text).unwrap();
    let expected: serde_json::Value =
        serde_json::from_str("{\"base\": {\"FOO\": \"bar\"}, \"layers\": {}}").unwrap();
    assert_eq!(written, expected);
    assert_eq!(export(&StoreFile::Text(text)), Ok(vec!["FOO=bar".to_string()]));
}

#[test]
fn save_then_deactivate_then_reload() {
    let text = init(env_of(&[("FOO", "bar")])).unwrap();
    let text = save(&StoreFile::Text(text), "dev").unwrap();
    let text = deactivate(&StoreFile::Text(text), "dev").unwrap();
    let onion = load(&StoreFile::Text(text.clone())).unwrap();
    assert_eq!(onion.is_active("dev"), Some(false));
    assert_eq!(
        text,
        "{\n  \"base\": {\n    \"FOO\": \"bar\"\n  },\n  \"layers\": {\n    \"dev\": {\n      \"isActive\": false,\n      \"name\": \"dev\"\n    }\n  }\n}\n"
    );
}

#[test]
fn reactivate_makes_the_layer_active_again() {
    let text = init(env_of(&[])).unwrap();
    let text = save(&StoreFile::Text(text), "dev").unwrap();
    let text = deactivate(&StoreFile::Text(text), "dev").unwrap();
    let text = reactivate(&StoreFile::Text(text), "dev").unwrap();
    let onion = load(&StoreFile::Text(text)).unwrap();
    assert_eq!(onion.layer_list(), vec![layer("dev", true)]);
}

#[test]
fn toggling_an_unknown_layer_writes_the_store_unchanged() {
    let text = init(env_of(&[("A", "1")])).unwrap();
    let text = save(&StoreFile::Text(text), "dev").unwrap();
    let after = deactivate(&StoreFile::Text(text.clone()), "missing").unwrap();
    assert_eq!(after, text);
    let after = reactivate(&StoreFile::Text(text.clone()), "missing").unwrap();
    assert_eq!(after, text);
}

#[test]
fn toggling_twice_writes_what_toggling_once_wrote() {
    let text = init(env_of(&[("A", "1")])).unwrap();
    let text = save(&StoreFile::Text(text), "dev").unwrap();
    let once = deactivate(&StoreFile::Text(text), "dev").unwrap();
    let twice = deactivate(&StoreFile::Text(once.clone()), "dev").unwrap();
    assert_eq!(once, twice);
    let once = set_active(&StoreFile::Text(twice), "dev", true).unwrap();
    let twice = set_active(&StoreFile::Text(once.clone()), "dev", true).unwrap();
    assert_eq!(once, twice);
}

#[test]
fn saving_a_layer_again_makes_it_active() {
    let text = init(env_of(&[])).unwrap();
    let text = save(&StoreFile::Text(text), "x").unwrap();
    let text = deactivate(&StoreFile::Text(text), "x").unwrap();
    let text = save(&StoreFile::Text(text), "x").unwrap();
    let onion = load(&StoreFile::Text(text)).unwrap();
    assert_eq!(onion.is_active("x"), Some(true));
    assert_eq!(onion.len(), 1);
}

#[test]
fn a_missing_or_unreadable_file_is_an_io_error() {
    assert!(matches!(load(&StoreFile::Missing), Err(StoreError::Io)));
    assert!(matches!(load(&StoreFile::Unreadable), Err(StoreError::Io)));
    assert_eq!(save(&StoreFile::Missing, "dev"), Err(StoreError::Io));
    assert_eq!(deactivate(&StoreFile::Missing, "dev"), Err(StoreError::Io));
    assert_eq!(reactivate(&StoreFile::Unreadable, "dev"), Err(StoreError::Io));
    assert_eq!(export(&StoreFile::Missing), Err(StoreError::Io));
}

#[test]
fn malformed_text_is_a_parse_error() {
    let bad = [
        "",
        "{ not json",
        "[]",
        "{}",
        "{\"base\": {}}",
        "{\"layers\": {}}",
        "{\"base\": {\"A\": 1}, \"layers\": {}}",
        "{\"base\": {\"\": \"x\"}, \"layers\": {}}",
        "{\"base\": {}, \"layers\": []}",
        "{\"base\": {}, \"layers\": {\"dev\": true}}",
        "{\"base\": {}, \"layers\": {\"dev\": {\"name\": \"dev\"}}}",
        "{\"base\": {}, \"layers\": {\"dev\": {\"isActive\": true}}}",
        "{\"base\": {}, \"layers\": {\"dev\": {\"name\": \"dev\", \"isActive\": \"yes\"}}}",
        "{\"base\": {}, \"layers\": {\"dev\": {\"name\": \"ops\", \"isActive\": true}}}",
    ];
    for text in bad {
        assert!(matches!(parse_onion(text), Err(StoreError::Parse)), "{}", text);
        assert!(matches!(load(&StoreFile::Text(text.to_string())), Err(StoreError::Parse)));
        assert_eq!(save(&StoreFile::Text(text.to_string()), "dev"), Err(StoreError::Parse));
        assert_eq!(export(&StoreFile::Text(text.to_string())), Err(StoreError::Parse));
    }
}

#[test]
fn a_file_that_is_no_text_is_a_parse_error() {
    assert!(matches!(load(&StoreFile::NotText), Err(StoreError::Parse)));
    assert_eq!(save(&StoreFile::NotText, "dev"), Err(StoreError::Parse));
    assert_eq!(deactivate(&StoreFile::NotText, "dev"), Err(StoreError::Parse));
    assert_eq!(export(&StoreFile::NotText), Err(StoreError::Parse));
}

#[test]
fn well_formed_text_gives_its_onion() {
    let text = "{\"layers\": {\"dev\": {\"name\": \"dev\", \"isActive\": false, \"extra\": null}, \"ops\": {\"isActive\": true, \"name\": \"ops\"}}, \"base\": {\"A\": \"1\"}, \"more\": [1, 2]}";
    let onion = parse_onion(text).unwrap();
    assert_eq!(onion.is_active("dev"), Some(false));
    assert_eq!(onion.is_active("ops"), Some(true));
    assert_eq!(onion.len(), 2);
    assert_eq!(onion.base().get("A"), Some(&"1".to_string()));
    assert_eq!(onion.base().len(), 1);
}

#[test]
fn what_was_stored_loads_as_the_same_onion() {
    let mut onion = EnvOnion::init(env_of(&[("FOO", "bar"), ("Q", "a \"b\" \\ c\n"), ("E", "")]));
    onion.save("dev".to_string());
    onion.save("\u{1F600} ops".to_string());
    onion.save(String::new());
    onion.deactivate("dev");
    let text = store(&onion).unwrap();
    let back = load(&StoreFile::Text(text)).unwrap();
    assert!(back.same_as(&onion));
    assert!(onion.same_as(&back));
}

#[test]
fn export_prints_each_base_variable_once() {
    let text = init(env_of(&[("B", "2"), ("A", "1")])).unwrap();
    let mut lines = export(&StoreFile::Text(text)).unwrap();
    lines.sort();
    assert_eq!(lines, vec!["A=1".to_string(), "B=2".to_string()]);
}
