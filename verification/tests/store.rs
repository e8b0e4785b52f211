use grammar_lsp::store::DocStore;

#[test]
fn get_after_put_sees_text() {
    let mut store = DocStore::new();
    store.put("a".to_string(), "one".to_string());
    assert_eq!(store.get(&"a".to_string()), Some("one".to_string()));
}

#[test]
fn get_absent_is_none_not_an_error() {
    let store = DocStore::new();
    assert_eq!(store.get(&"missing".to_string()), None);
}

#[test]
fn put_replaces_last_write_wins() {
    let mut store = DocStore::new();
    store.put("a".to_string(), "one".to_string());
    store.put("a".to_string(), "two".to_string());
    assert_eq!(store.get(&"a".to_string()), Some("two".to_string()));
}

#[test]
fn keys_are_independent() {
    let mut store = DocStore::new();
    store.put("a".to_string(), "one".to_string());
    store.put("b".to_string(), "two".to_string());
    store.remove(&"a".to_string());
    assert_eq!(store.get(&"a".to_string()), None);
    assert_eq!(store.get(&"b".to_string()), Some("two".to_string()));
}

#[test]
fn remove_is_idempotent() {
    let mut store = DocStore::new();
    store.put("a".to_string(), "one".to_string());
    store.remove(&"a".to_string());
    store.remove(&"a".to_string());
    assert_eq!(store.get(&"a".to_string()), None);
    assert!(!store.contains(&"a".to_string()));
}

#[test]
fn empty_text_is_a_valid_document() {
    let mut store = DocStore::new();
    store.put("a".to_string(), String::new());
    assert_eq!(store.get(&"a".to_string()), Some(String::new()));
    assert!(store.contains(&"a".to_string()));
}
