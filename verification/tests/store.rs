use kvs::{KvError, KvStore};

fn fresh() -> KvStore {
    KvStore::open("dir/kvs.db".to_string(), Some(Vec::new())).unwrap()
}

fn text(s: &str) -> String {
    s.to_string()
}

#[test]
fn set_then_get_finds_the_value() {
    let mut store = fresh();
    store.set(text("a"), text("1")).unwrap();
    assert_eq!(store.get(text("a")).unwrap(), Some(text("1")));
}

#[test]
fn last_set_wins() {
    let mut store = fresh();
    store.set(text("a"), text("1")).unwrap();
    store.set(text("a"), text("2")).unwrap();
    assert_eq!(store.get(text("a")).unwrap(), Some(text("2")));
}

#[test]
fn removed_key_has_no_value() {
    let mut store = fresh();
    store.set(text("a"), text("1")).unwrap();
    store.remove(text("a")).unwrap();
    assert_eq!(store.get(text("a")).unwrap(), None);
}

#[test]
fn remove_of_missing_key_fails() {
    let mut store = fresh();
    match store.remove(text("missing")) {
        Err(KvError::KeyNotExists { key }) => assert_eq!(key, "missing"),
        other => panic!("unexpected result {:?}", other),
    }
    assert!(store.log().is_empty());
}

#[test]
fn remove_of_missing_key_appends_nothing() {
    let mut store = fresh();
    store.set(text("a"), text("1")).unwrap();
    let before = store.log().clone();
    assert!(matches!(
        store.remove(text("b")),
        Err(KvError::KeyNotExists { .. })
    ));
    assert_eq!(store.log(), &before);
    assert_eq!(store.get(text("a")).unwrap(), Some(text("1")));
}

#[test]
fn reopened_store_finds_the_value() {
    let mut store = fresh();
    store.set(text("a"), text("1")).unwrap();
    let bytes = store.log().clone();
    let mut again = KvStore::open(text("dir/kvs.db"), Some(bytes)).unwrap();
    assert_eq!(again.get(text("a")).unwrap(), Some(text("1")));
}

#[test]
fn remove_leaves_other_keys() {
    let mut store = fresh();
    store.set(text("a"), text("1")).unwrap();
    store.set(text("b"), text("2")).unwrap();
    store.remove(text("a")).unwrap();
    assert_eq!(store.get(text("a")).unwrap(), None);
    assert_eq!(store.get(text("b")).unwrap(), Some(text("2")));
}

#[test]
fn get_of_unset_key_is_no_error() {
    let mut store = fresh();
    assert_eq!(store.get(text("a")).unwrap(), None);
    store.set(text("b"), text("2")).unwrap();
    assert_eq!(store.get(text("a")).unwrap(), None);
}

#[test]
fn open_without_file_fails_with_the_path() {
    match KvStore::open(text("/nowhere/kvs.db"), None) {
        Err(KvError::FileOpenError { path }) => assert_eq!(path, "/nowhere/kvs.db"),
        _ => panic!("open must fail"),
    }
}

#[test]
fn open_replays_nothing() {
    let store = KvStore::open(text("d"), Some(b"no record at all".to_vec())).unwrap();
    assert_eq!(store.log().as_slice(), b"no record at all");
}

#[test]
fn set_appends_one_record() {
    let mut store = fresh();
    store.set(text("a"), text("1")).unwrap();
    assert_eq!(store.log().as_slice(), b"Set(key:\"a\",value:\"1\")\n");
    store.remove(text("a")).unwrap();
    assert_eq!(
        store.log().as_slice(),
        b"Set(key:\"a\",value:\"1\")\nRemove(key:\"a\")\n"
    );
}

#[test]
fn log_only_grows() {
    let mut store = fresh();
    let mut before = store.log().clone();
    let keys = ["a", "b", "a", "c"];
    for (i, key) in keys.iter().enumerate() {
        store.set(text(key), i.to_string()).unwrap();
        assert!(store.log().len() > before.len());
        assert_eq!(&store.log()[..before.len()], before.as_slice());
        before = store.log().clone();
    }
    let _ = store.remove(text("a"));
    assert!(store.log().starts_with(&before));
    before = store.log().clone();
    let _ = store.remove(text("zz"));
    assert_eq!(store.log(), &before);
    let _ = store.get(text("b"));
    assert_eq!(store.log(), &before);
}

#[test]
fn replay_rebuilds_the_index() {
    let mut store = fresh();
    store.set(text("a"), text("1")).unwrap();
    store.set(text("b"), text("2")).unwrap();
    store.set(text("a"), text("3")).unwrap();
    store.remove(text("b")).unwrap();
    store.set(text("c"), text("4")).unwrap();
    let mut again = KvStore::open(text("d"), Some(store.log().clone())).unwrap();
    for key in ["a", "b", "c", "d"] {
        assert_eq!(again.get(text(key)).unwrap(), store.get(text(key)).unwrap());
    }
    assert_eq!(again.get(text("a")).unwrap(), Some(text("3")));
    assert_eq!(again.get(text("b")).unwrap(), None);
    assert_eq!(again.get(text("c")).unwrap(), Some(text("4")));
}

#[test]
fn empty_log_replays_to_an_empty_index() {
    let mut store = fresh();
    assert!(store.initialize_if_not().is_ok());
    assert_eq!(store.get(text("a")).unwrap(), None);
    assert!(store.log().is_empty());
}

#[test]
fn set_before_the_first_lookup_skips_the_replay() {
    let mut first = fresh();
    first.set(text("a"), text("1")).unwrap();
    let mut store = KvStore::open(text("d"), Some(first.log().clone())).unwrap();
    store.set(text("b"), text("2")).unwrap();
    assert_eq!(store.get(text("a")).unwrap(), None);
    assert_eq!(store.get(text("b")).unwrap(), Some(text("2")));
    store.remove(text("b")).unwrap();
    assert_eq!(store.get(text("a")).unwrap(), Some(text("1")));
    assert_eq!(store.get(text("b")).unwrap(), None);
}

#[test]
fn corrupted_log_is_reported() {
    let mut store = KvStore::open(text("d"), Some(b"garbage\n".to_vec())).unwrap();
    assert!(matches!(store.get(text("a")), Err(KvError::LogCorrupted)));
    assert!(matches!(store.remove(text("a")), Err(KvError::LogCorrupted)));
    assert!(matches!(
        store.initialize_if_not(),
        Err(KvError::LogCorrupted)
    ));
    assert_eq!(store.log().as_slice(), b"garbage\n");
}

#[test]
fn record_without_boundary_is_corrupted() {
    let mut store = KvStore::open(text("d"), Some(b"Set(key:\"a\",value:\"1\")".to_vec())).unwrap();
    assert!(matches!(store.get(text("a")), Err(KvError::LogCorrupted)));
}

#[test]
fn keys_and_values_with_boundaries_and_quotes() {
    let mut store = fresh();
    let key = text("line one\nline \"two\"");
    let value = text("tab\there\\ \n\n 'q' \u{1F600} \u{0}");
    store.set(key.clone(), value.clone()).unwrap();
    store.set(text(""), text("")).unwrap();
    assert_eq!(store.log().iter().filter(|b| **b == b'\n').count(), 2);
    assert_eq!(store.get(key.clone()).unwrap(), Some(value.clone()));
    assert_eq!(store.get(text("")).unwrap(), Some(text("")));
    let mut again = KvStore::open(text("d"), Some(store.log().clone())).unwrap();
    assert_eq!(again.get(key).unwrap(), Some(value));
    assert_eq!(again.get(text("")).unwrap(), Some(text("")));
}

#[test]
fn error_messages() {
    assert_eq!(
        KvError::KeyNotExists { key: text("k") }.message(),
        "key[k] is not exists"
    );
    assert_eq!(
        KvError::FileOpenError { path: text("p") }.message(),
        "open file[p] failed"
    );
    assert_eq!(KvError::WriteError.message(), "failed to write");
    assert_eq!(KvError::LogCorrupted.message(), "log is corrupted");
}

#[test]
fn store_reads_a_log_written_elsewhere() {
    let log = b"Set(key:\"a\",value:\"1\")\nSet(key:\"b\",value:\"2\")\nRemove(key:\"a\")\n".to_vec();
    let mut store = KvStore::open(text("d"), Some(log)).unwrap();
    assert_eq!(store.get(text("a")).unwrap(), None);
    assert_eq!(store.get(text("b")).unwrap(), Some(text("2")));
    assert!(matches!(
        store.remove(text("a")),
        Err(KvError::KeyNotExists { .. })
    ));
    store.remove(text("b")).unwrap();
    assert_eq!(store.get(text("b")).unwrap(), None);
}

#[test]
fn key_that_holds_the_value_mark() {
    let mut store = fresh();
    let key = text("a\",value:\"b");
    store.set(key.clone(), text(",value:")).unwrap();
    store.set(text(",value:"), text("x\",value:\"y")).unwrap();
    assert_eq!(store.get(key.clone()).unwrap(), Some(text(",value:")));
    assert_eq!(
        store.get(text(",value:")).unwrap(),
        Some(text("x\",value:\"y"))
    );
    let mut again = KvStore::open(text("d"), Some(store.log().clone())).unwrap();
    assert_eq!(again.get(key).unwrap(), Some(text(",value:")));
}
