use filter_sync::store::WatermarkStore;

fn pair(k: &str, v: &str) -> (String, String) {
    (k.to_string(), v.to_string())
}

#[test]
fn new_store_is_empty() {
    let store = WatermarkStore::new();
    assert!(store.is_empty());
    assert_eq!(store.len(), 0);
    assert!(store.get("github:a/b").is_none());
    assert!(!store.contains_key("github:a/b"));
    assert!(store.entries().is_empty());
}

#[test]
fn insert_then_get() {
    let mut store = WatermarkStore::new();
    store.insert("github:a/b".to_string(), "v1".to_string());
    assert_eq!(store.get("github:a/b").map(|s| s.as_str()), Some("v1"));
    assert!(store.contains_key("github:a/b"));
    assert!(store.get("github:a/c").is_none());
    assert_eq!(store.len(), 1);
    assert!(!store.is_empty());
}

#[test]
fn insert_replaces_the_old_watermark() {
    let mut store = WatermarkStore::new();
    store.insert("k".to_string(), "v1".to_string());
    store.insert("other".to_string(), "x".to_string());
    store.insert("k".to_string(), "v2".to_string());
    assert_eq!(store.get("k").map(|s| s.as_str()), Some("v2"));
    assert_eq!(store.get("other").map(|s| s.as_str()), Some("x"));
    assert_eq!(store.len(), 2);
    assert_eq!(store.entries(), vec![pair("k", "v2"), pair("other", "x")]);
}

#[test]
fn keys_are_compared_exactly() {
    let mut store = WatermarkStore::new();
    store.insert("github:a/b".to_string(), "v1".to_string());
    assert!(store.get("github:A/b").is_none());
    assert!(store.get("github:a/b ").is_none());
    assert!(store.get("").is_none());
    store.insert(String::new(), "empty".to_string());
    assert_eq!(store.get("").map(|s| s.as_str()), Some("empty"));
}

#[test]
fn clear_empties_the_store() {
    let mut store = WatermarkStore::new();
    store.insert("a".to_string(), "1".to_string());
    store.insert("b".to_string(), "2".to_string());
    store.clear();
    assert!(store.is_empty());
    assert_eq!(store.len(), 0);
    assert!(store.get("a").is_none());
    assert!(store.get("b").is_none());
    store.insert("a".to_string(), "3".to_string());
    assert_eq!(store.get("a").map(|s| s.as_str()), Some("3"));
}

#[test]
fn from_entries_keeps_the_later_of_two_equal_keys() {
    let store =
        WatermarkStore::from_entries(vec![pair("a", "1"), pair("b", "2"), pair("a", "3")]);
    assert_eq!(store.len(), 2);
    assert_eq!(store.get("a").map(|s| s.as_str()), Some("3"));
    assert_eq!(store.get("b").map(|s| s.as_str()), Some("2"));
}

#[test]
fn from_no_entries_is_empty() {
    assert!(WatermarkStore::from_entries(vec![]).is_empty());
}

#[test]
fn parse_reads_an_object_of_strings() {
    let store =
        WatermarkStore::parse(r#"{"github:a/b": "v1", "github:c/d/main": "0123abc"}"#).unwrap();
    assert_eq!(store.len(), 2);
    assert_eq!(store.get("github:a/b").map(|s| s.as_str()), Some("v1"));
    assert_eq!(
        store.get("github:c/d/main").map(|s| s.as_str()),
        Some("0123abc")
    );
}

#[test]
fn parse_reads_the_empty_object() {
    assert!(WatermarkStore::parse("{}").unwrap().is_empty());
    assert!(WatermarkStore::parse("  { }\n").unwrap().is_empty());
}

#[test]
fn parse_decodes_escapes() {
    let store = WatermarkStore::parse(r#"{"a\"b": "line\nbreak é"}"#).unwrap();
    assert_eq!(
        store.get("a\"b").map(|s| s.as_str()),
        Some("line\nbreak \u{e9}")
    );
}

#[test]
fn parse_keeps_the_later_of_two_equal_members() {
    let store = WatermarkStore::parse(r#"{"a": "1", "a": "2"}"#).unwrap();
    assert_eq!(store.len(), 1);
    assert_eq!(store.get("a").map(|s| s.as_str()), Some("2"));
}

#[test]
fn parse_rejects_what_is_no_object_of_strings() {
    assert!(WatermarkStore::parse("").is_none());
    assert!(WatermarkStore::parse("not json").is_none());
    assert!(WatermarkStore::parse("[]").is_none());
    assert!(WatermarkStore::parse("null").is_none());
    assert!(WatermarkStore::parse(r#""text""#).is_none());
    assert!(WatermarkStore::parse(r#"{"a": 1}"#).is_none());
    assert!(WatermarkStore::parse(r#"{"a": null}"#).is_none());
    assert!(WatermarkStore::parse(r#"{"a": {"b": "c"}}"#).is_none());
    assert!(WatermarkStore::parse(r#"{"a": "1""#).is_none());
    assert!(WatermarkStore::parse(r#"{"a": "1"} trailing"#).is_none());
}

#[test]
fn load_without_document_starts_empty() {
    assert!(WatermarkStore::load(None).is_empty());
}

#[test]
fn load_of_corrupt_document_starts_empty() {
    assert!(WatermarkStore::load(Some("{ this is not json")).is_empty());
    assert!(WatermarkStore::load(Some("")).is_empty());
    assert!(WatermarkStore::load(Some(r#"{"a": 1}"#)).is_empty());
}

#[test]
fn load_of_good_document_reads_it() {
    let store = WatermarkStore::load(Some(r#"{"k": "w"}"#));
    assert_eq!(store.len(), 1);
    assert_eq!(store.get("k").map(|s| s.as_str()), Some("w"));
}

#[test]
fn render_of_empty_store() {
    assert_eq!(WatermarkStore::new().render().unwrap(), "{}");
}

#[test]
fn render_is_pretty_printed_json() {
    let mut store = WatermarkStore::new();
    store.insert("github:a/b".to_string(), "v1".to_string());
    assert_eq!(
        store.render().unwrap(),
        "{\n  \"github:a/b\": \"v1\"\n}"
    );
}

#[test]
fn render_orders_members_by_key() {
    let mut store = WatermarkStore::new();
    store.insert("b".to_string(), "2".to_string());
    store.insert("a".to_string(), "1".to_string());
    store.insert("c".to_string(), "3".to_string());
    assert_eq!(
        store.render().unwrap(),
        "{\n  \"a\": \"1\",\n  \"b\": \"2\",\n  \"c\": \"3\"\n}"
    );
}

#[test]
fn render_escapes_what_json_requires() {
    let mut store = WatermarkStore::new();
    store.insert("a\"b".to_string(), "x\ny\\z".to_string());
    assert_eq!(
        store.render().unwrap(),
        "{\n  \"a\\\"b\": \"x\\ny\\\\z\"\n}"
    );
}

#[test]
fn render_does_not_depend_on_insertion_order() {
    let mut one = WatermarkStore::new();
    one.insert("a".to_string(), "1".to_string());
    one.insert("b".to_string(), "2".to_string());
    let mut two = WatermarkStore::new();
    two.insert("b".to_string(), "0".to_string());
    two.insert("a".to_string(), "1".to_string());
    two.insert("b".to_string(), "2".to_string());
    assert_eq!(one.render().unwrap(), two.render().unwrap());
}

#[test]
fn rendered_document_parses_back() {
    let mut store = WatermarkStore::new();
    store.insert("github:a/b".to_string(), "v1.2.3".to_string());
    store.insert("github:c/d/main".to_string(), "deadbeef".to_string());
    store.insert("odd \"key\"\n".to_string(), "ünï\u{1F600}".to_string());
    let text = store.render().unwrap();
    let back = WatermarkStore::parse(&text).unwrap();
    assert_eq!(back.len(), 3);
    for (k, v) in store.entries() {
        assert_eq!(back.get(&k), Some(&v));
    }
    assert_eq!(back.render().unwrap(), text);
}

#[test]
fn render_succeeds_on_every_store() {
    assert!(WatermarkStore::new().render().is_ok());
    let mut store = WatermarkStore::new();
    store.insert(String::new(), String::new());
    store.insert("k".to_string(), "v".to_string());
    store.insert("\u{0}\u{1f}\u{7f}".to_string(), "\u{10ffff}\t\r".to_string());
    store.insert("a".repeat(10_000), "b".repeat(10_000));
    let text = store.render().unwrap();
    assert!(text.contains("\"k\": \"v\""));
    assert!(text.contains("\"\": \"\""));
    let back = WatermarkStore::parse(&text).unwrap();
    assert_eq!(back.len(), 4);
}

#[test]
fn entries_come_in_order_of_first_insertion() {
    let mut store = WatermarkStore::new();
    store.insert("z".to_string(), "1".to_string());
    store.insert("a".to_string(), "2".to_string());
    store.insert("z".to_string(), "3".to_string());
    assert_eq!(store.entries(), vec![pair("z", "3"), pair("a", "2")]);
}
