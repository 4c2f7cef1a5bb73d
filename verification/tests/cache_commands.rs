use cache_env::cache::EnvCache;
use cache_env::cache_file::{
    get_current_env, holds, parse_env_cache, print, read_env_cache, read_env_cache_under, save,
    try_print, write_env_cache,
};
use cache_env::env::Env;
use cache_env::store::{finish_text, OnCorrupt, StoreError, StoreFile};

fn pairs(items: &[(&str, &str)]) -> Vec<(String, String)> {
    items.iter().map(|(k, v)| (k.to_string(), v.to_string())).collect()
}

fn env_of(items: &[(&str, &str)]) -> Env {
    Env::from_pairs(&pairs(items)).unwrap()
}

#[test]
fn save_then_print_on_a_fresh_file() {
    let env = get_current_env(&pairs(&[("X", "1")])).unwrap();
    let text = save(&StoreFile::Missing, "work", env).unwrap();
    let file = StoreFile::Text(text);
    assert!(holds(&file, "work"));
    let lines = print(&file, "work");
    assert_eq!(lines, vec!["export X=\"1\"".to_string()]);
    assert_eq!(try_print(&file, "work"), Ok(vec!["export X=\"1\"".to_string()]));
    let cache = read_env_cache(&file);
    assert_eq!(cache.len(), 1);
    assert!(cache.get("work").unwrap().same_as(&env_of(&[("X", "1")])));
}

#[test]
fn print_of_a_missing_name_fails() {
    let env = get_current_env(&pairs(&[("X", "1")])).unwrap();
    let text = save(&StoreFile::Missing, "work", env).unwrap();
    let file = StoreFile::Text(text);
    assert!(!holds(&file, "missing-name"));
    assert_eq!(try_print(&file, "missing-name"), Err(StoreError::UnknownLayer));
    assert!(!holds(&StoreFile::Missing, "work"));
    assert_eq!(try_print(&StoreFile::Missing, "work"), Err(StoreError::UnknownLayer));
}

#[test]
fn print_over_corrupted_text_finds_nothing() {
    let file = StoreFile::Text("{not json".to_string());
    assert!(!holds(&file, "work"));
    assert_eq!(try_print(&file, "work"), Err(StoreError::UnknownLayer));
    assert!(!holds(&StoreFile::NotText, "work"));
    assert_eq!(try_print(&StoreFile::NotText, "work"), Err(StoreError::UnknownLayer));
}

#[test]
fn corrupted_text_reads_as_the_empty_cache() {
    let cache = read_env_cache(&StoreFile::Text("{ not json".to_string()));
    assert!(cache.is_empty());
    let cache = read_env_cache(&StoreFile::Text(String::new()));
    assert!(cache.is_empty());
    let cache = read_env_cache(&StoreFile::Text("{\"a\": 5}".to_string()));
    assert!(cache.is_empty());
    assert_eq!(cache.len(), 0);
}

#[test]
fn a_file_that_is_no_text_reads_as_the_empty_cache() {
    let cache = read_env_cache(&StoreFile::NotText);
    assert!(cache.is_empty());
    let text = save(&StoreFile::NotText, "work", env_of(&[("X", "1")])).unwrap();
    assert_eq!(text, "{\n  \"work\": {\n    \"vars\": {\n      \"X\": \"1\"\n    }\n  }\n}\n");
    assert!(matches!(
        read_env_cache_under(&StoreFile::NotText, OnCorrupt::Fail),
        Err(StoreError::Parse)
    ));
    assert!(read_env_cache_under(&StoreFile::NotText, OnCorrupt::StartEmpty).unwrap().is_empty());
}

#[test]
fn a_missing_file_reads_as_the_empty_cache() {
    let cache = read_env_cache(&StoreFile::Missing);
    assert_eq!(cache.len(), 0);
    assert!(cache.is_empty());
}

#[test]
fn an_unreadable_file_is_an_io_error() {
    assert!(matches!(
        read_env_cache_under(&StoreFile::Unreadable, OnCorrupt::StartEmpty),
        Err(StoreError::Io)
    ));
    assert!(matches!(
        read_env_cache_under(&StoreFile::Unreadable, OnCorrupt::Fail),
        Err(StoreError::Io)
    ));
    assert!(!holds(&StoreFile::Unreadable, "x"));
    assert_eq!(try_print(&StoreFile::Unreadable, "x"), Err(StoreError::Io));
}

#[test]
fn strict_reading_reports_a_parse_error() {
    assert!(matches!(parse_env_cache("{ not json"), Err(StoreError::Parse)));
    assert!(matches!(parse_env_cache(""), Err(StoreError::Parse)));
    assert!(matches!(parse_env_cache("[]"), Err(StoreError::Parse)));
    assert!(matches!(parse_env_cache("{\"a\": {}}"), Err(StoreError::Parse)));
    assert!(matches!(parse_env_cache("{\"a\": {\"vars\": {\"X\": 1}}}"), Err(StoreError::Parse)));
    assert!(matches!(parse_env_cache("{\"a\": {\"vars\": {\"\": \"1\"}}}"), Err(StoreError::Parse)));
}

#[test]
fn strict_reading_gives_the_cache_of_a_well_formed_text() {
    let text = "{\"work\": {\"vars\": {\"X\": \"1\", \"Y\": \"\"}, \"note\": 7}, \"home\": {\"vars\": {}}}";
    let cache = parse_env_cache(text).unwrap();
    assert_eq!(cache.len(), 2);
    assert!(cache.get("work").unwrap().same_as(&env_of(&[("X", "1"), ("Y", "")])));
    assert!(cache.get("home").unwrap().is_empty());
}

#[test]
fn write_gives_the_pretty_text_and_a_line_end() {
    let mut cache = EnvCache::new();
    cache.insert("work".to_string(), env_of(&[("X", "1")]));
    let text = write_env_cache(&cache).unwrap();
    assert_eq!(
        text,
        "{\n  \"work\": {\n    \"vars\": {\n      \"X\": \"1\"\n    }\n  }\n}\n"
    );
    assert_eq!(write_env_cache(&EnvCache::new()).unwrap(), "{}\n");
}

#[test]
fn write_prints_members_in_the_order_of_their_names() {
    let mut cache = EnvCache::new();
    cache.insert("b".to_string(), env_of(&[("Z", "1"), ("A", "2")]));
    cache.insert("a".to_string(), env_of(&[]));
    let text = write_env_cache(&cache).unwrap();
    assert_eq!(
        text,
        "{\n  \"a\": {\n    \"vars\": {}\n  },\n  \"b\": {\n    \"vars\": {\n      \"A\": \"2\",\n      \"Z\": \"1\"\n    }\n  }\n}\n"
    );
}

#[test]
fn what_was_written_reads_back_as_the_same_cache() {
    let mut cache = EnvCache::new();
    cache.insert("work".to_string(), env_of(&[("X", "1"), ("QUOTE", "say \"hi\"\n\ttab")]));
    cache.insert("caf\u{e9}".to_string(), env_of(&[("\u{1F600}", "\u{0}\\")]));
    cache.insert(String::new(), env_of(&[]));
    let text = write_env_cache(&cache).unwrap();
    let back = read_env_cache(&StoreFile::Text(text));
    assert!(back.same_as(&cache));
    assert!(cache.same_as(&back));
}

#[test]
fn save_overwrites_the_snapshot_of_a_name() {
    let first = save(&StoreFile::Missing, "x", env_of(&[("A", "1"), ("B", "2")])).unwrap();
    let second = save(&StoreFile::Text(first), "x", env_of(&[("C", "3")])).unwrap();
    let cache = read_env_cache(&StoreFile::Text(second.clone()));
    assert_eq!(cache.len(), 1);
    assert!(cache.get("x").unwrap().same_as(&env_of(&[("C", "3")])));
    assert_eq!(print(&StoreFile::Text(second), "x"), vec!["export C=\"3\"".to_string()]);
}

#[test]
fn save_keeps_the_other_snapshots() {
    let first = save(&StoreFile::Missing, "one", env_of(&[("A", "1")])).unwrap();
    let second = save(&StoreFile::Text(first), "two", env_of(&[("B", "2")])).unwrap();
    let cache = read_env_cache(&StoreFile::Text(second));
    assert_eq!(cache.len(), 2);
    assert!(cache.get("one").unwrap().same_as(&env_of(&[("A", "1")])));
    assert!(cache.get("two").unwrap().same_as(&env_of(&[("B", "2")])));
}

#[test]
fn save_over_corrupted_text_starts_from_the_empty_cache() {
    let text = save(&StoreFile::Text("{not json".to_string()), "x", env_of(&[("A", "1")])).unwrap();
    assert_eq!(text, "{\n  \"x\": {\n    \"vars\": {\n      \"A\": \"1\"\n    }\n  }\n}\n");
    let cache = read_env_cache(&StoreFile::Text(text));
    assert_eq!(cache.len(), 1);
    assert!(cache.get("x").unwrap().same_as(&env_of(&[("A", "1")])));
}

#[test]
fn the_current_env_is_taken_whole_or_not_at_all() {
    let env = get_current_env(&pairs(&[("FOO", "bar"), ("FOO", "baz"), ("X", "")])).unwrap();
    assert_eq!(env.len(), 2);
    assert_eq!(env.get("FOO"), Some(&"baz".to_string()));
    assert!(get_current_env(&pairs(&[("", "x")])).is_none());
}

#[test]
fn print_lists_each_variable_once() {
    let text = save(&StoreFile::Missing, "w", env_of(&[("B", "2"), ("A", "1"), ("C", "")])).unwrap();
    let mut lines = print(&StoreFile::Text(text), "w");
    lines.sort();
    assert_eq!(
        lines,
        vec![
            "export A=\"1\"".to_string(),
            "export B=\"2\"".to_string(),
            "export C=\"\"".to_string()
        ]
    );
}

#[test]
fn finish_text_adds_the_line_end_or_reports_io() {
    assert_eq!(finish_text(Ok("{}".to_string())), Ok("{}\n".to_string()));
    let failure = serde_json::from_str::<serde_json::Value>("{").unwrap_err();
    assert_eq!(finish_text(Err(failure)), Err(StoreError::Io));
}

#[test]
fn what_corrupted_text_gives_is_the_callers_choice() {
    let corrupted = StoreFile::Text("{\"work\": 1".to_string());
    let lenient = read_env_cache_under(&corrupted, OnCorrupt::StartEmpty).unwrap();
    assert_eq!(lenient.len(), 0);
    assert!(matches!(
        read_env_cache_under(&corrupted, OnCorrupt::Fail),
        Err(StoreError::Parse)
    ));
    let good = StoreFile::Text("{\"work\": {\"vars\": {\"X\": \"1\"}}}".to_string());
    assert_eq!(read_env_cache_under(&good, OnCorrupt::Fail).unwrap().len(), 1);
    assert_eq!(read_env_cache_under(&good, OnCorrupt::StartEmpty).unwrap().len(), 1);
    assert_eq!(read_env_cache_under(&StoreFile::Missing, OnCorrupt::Fail).unwrap().len(), 0);
    assert!(matches!(
        read_env_cache_under(&StoreFile::Unreadable, OnCorrupt::StartEmpty),
        Err(StoreError::Io)
    ));
}
