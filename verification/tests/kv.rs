use protohackers::kv::{get_response, KvStore};

#[test]
fn test_get_response() {
    let mut store = KvStore::new();
    get_response("foo=bar", &mut store);
    assert_eq!(get_response("foo", &mut store), Some("bar".to_owned()));
    get_response("foo=bar=baz", &mut store);
    assert_eq!(get_response("foo", &mut store), Some("bar=baz".to_owned()));
    get_response("foo=", &mut store);
    assert_eq!(get_response("foo", &mut store), Some("".to_owned()));
    get_response("foo===", &mut store);
    assert_eq!(get_response("foo", &mut store), Some("==".to_owned()));
    get_response("=foo", &mut store);
    assert_eq!(get_response("", &mut store), Some("foo".to_owned()));
}

#[test]
fn test_insert_returns_nothing() {
    let mut store = KvStore::new();
    assert_eq!(get_response("a=1", &mut store), None);
    assert_eq!(get_response("a=2", &mut store), None);
    assert_eq!(get_response("a", &mut store), Some("2".to_owned()));
}

#[test]
fn test_unknown_key_reads_empty() {
    let mut store = KvStore::new();
    assert_eq!(get_response("missing", &mut store), Some("".to_owned()));
}

#[test]
fn test_version_key_is_protected() {
    let mut store = KvStore::new();
    store.put("version", "Nico's Store");
    assert_eq!(get_response("version=hacked", &mut store), None);
    assert_eq!(
        get_response("version", &mut store),
        Some("Nico's Store".to_owned())
    );
}

#[test]
fn test_put_and_lookup() {
    let mut store = KvStore::new();
    assert_eq!(store.lookup("k"), None);
    store.put("k", "v");
    assert_eq!(store.lookup("k"), Some("v".to_owned()));
    store.put("k", "w");
    assert_eq!(store.lookup("k"), Some("w".to_owned()));
}
