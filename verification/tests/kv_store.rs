use kvs::kv::{Command, CommandPos, KvStore, KvsError};
use kvs::order::{key_order, KeyOrder};

fn set(key: &str, value: &str) -> Command {
    Command::SetValue { key: key.to_owned(), value: value.to_owned() }
}

fn remove(key: &str) -> Command {
    Command::Remove { key: key.to_owned() }
}

fn entries(log: &[Command]) -> Vec<(String, String)> {
    log.iter()
        .map(|c| match c {
            Command::SetValue { key, value } => (key.clone(), value.clone()),
            Command::Remove { .. } => panic!("a compacted log holds only sets"),
        })
        .collect()
}

#[test]
fn serde_test() {
    let mut kvs = KvStore::open("log.db".to_owned(), &Vec::new());
    kvs.set("String".to_string(), "String".to_string());
    kvs.set("Value".to_string(), "Value".to_string());
    assert_eq!(kvs.get("String".to_owned()), Ok(Some("String".to_owned())));
    assert_eq!(kvs.get("Value".to_owned()), Ok(Some("Value".to_owned())));
}

#[test]
fn tmp_test() {
    let mut store = KvStore::open("log.db".to_owned(), &Vec::new());

    let log = store.set("key1".to_owned(), "value1".to_owned());
    let log2 = store.set("key2".to_owned(), "value2".to_owned());
    assert_eq!(entries(&log), vec![("key1".to_owned(), "value1".to_owned())]);
    assert_eq!(
        entries(&log2),
        vec![("key1".to_owned(), "value1".to_owned()), ("key2".to_owned(), "value2".to_owned())]
    );

    assert_eq!(store.get("key1".to_owned()), Ok(Some("value1".to_owned())));
    assert_eq!(store.get("key2".to_owned()), Ok(Some("value2".to_owned())));

    // Open from the log again and check the persistent data.
    drop(store);
    let store = KvStore::open("log.db".to_owned(), &log2);
    assert_eq!(store.get("key1".to_owned()), Ok(Some("value1".to_owned())));
    assert_eq!(store.get("key2".to_owned()), Ok(Some("value2".to_owned())));
}

#[test]
fn get_missing_key_is_none() {
    let store = KvStore::open("p".to_owned(), &vec![set("a", "1")]);
    assert_eq!(store.get("b".to_owned()), Ok(None));
}

#[test]
fn set_overwrites_value() {
    let mut store = KvStore::open("p".to_owned(), &Vec::new());
    store.set("k".to_owned(), "v1".to_owned());
    store.set("k".to_owned(), "v2".to_owned());
    assert_eq!(store.get("k".to_owned()), Ok(Some("v2".to_owned())));
    assert_eq!(entries(&store.compaction()), vec![("k".to_owned(), "v2".to_owned())]);
}

#[test]
fn remove_missing_key_fails_and_keeps_store() {
    let mut store = KvStore::open("p".to_owned(), &vec![set("a", "1")]);
    assert_eq!(store.remove("b".to_owned()), Err(KvsError::KeyNotFound));
    assert_eq!(store.get("a".to_owned()), Ok(Some("1".to_owned())));
}

#[test]
fn remove_existing_key() {
    let mut store = KvStore::open("p".to_owned(), &vec![set("a", "1"), set("b", "2")]);
    assert_eq!(store.remove("a".to_owned()), Ok(()));
    assert_eq!(store.get("a".to_owned()), Ok(None));
    assert_eq!(store.get("b".to_owned()), Ok(Some("2".to_owned())));
    assert!(!store.contains_key(&"a".to_owned()));
    assert!(store.contains_key(&"b".to_owned()));
}

#[test]
fn replay_applies_commands_in_order() {
    let log = vec![set("a", "1"), set("b", "2"), remove("a"), set("b", "3"), set("a", "4"), remove("c")];
    let store = KvStore::open("dir/log.db".to_owned(), &log);
    assert_eq!(store.get("a".to_owned()), Ok(Some("4".to_owned())));
    assert_eq!(store.get("b".to_owned()), Ok(Some("3".to_owned())));
    assert_eq!(store.get("c".to_owned()), Ok(None));
    assert_eq!(store.path(), "dir/log.db");
}

#[test]
fn replay_onto_existing_store() {
    let mut store = KvStore::open("p".to_owned(), &vec![set("x", "1")]);
    KvStore::replay(&mut store, &vec![remove("x"), set("y", "2")]);
    assert_eq!(store.get("x".to_owned()), Ok(None));
    assert_eq!(store.get("y".to_owned()), Ok(Some("2".to_owned())));
}

#[test]
fn compaction_sorts_by_key_and_reopens_to_same_store() {
    let log = vec![set("pear", "3"), set("apple", "1"), set("Zebra", "0"), set("banana", "2"), remove("pear"), set("ab", "5")];
    let mut store = KvStore::open("p".to_owned(), &log);
    let compacted = store.compaction();
    assert_eq!(
        entries(&compacted),
        vec![
            ("Zebra".to_owned(), "0".to_owned()),
            ("ab".to_owned(), "5".to_owned()),
            ("apple".to_owned(), "1".to_owned()),
            ("banana".to_owned(), "2".to_owned()),
        ]
    );
    let reopened = KvStore::open("p".to_owned(), &compacted);
    for k in ["Zebra", "ab", "apple", "banana", "pear"] {
        assert_eq!(reopened.get(k.to_owned()), store.get(k.to_owned()));
    }
    assert_eq!(store.get("apple".to_owned()), Ok(Some("1".to_owned())));
}

#[test]
fn compaction_of_empty_store_is_empty() {
    let mut store = KvStore::open("p".to_owned(), &vec![set("a", "1"), remove("a")]);
    assert!(store.compaction().is_empty());
}

#[test]
fn compaction_order_matches_string_order() {
    let keys = ["é", "e", "z", "", "ez", "\u{10000}", "\u{ffff}"];
    let mut store = KvStore::open("p".to_owned(), &Vec::new());
    for k in keys {
        store.set(k.to_owned(), "v".to_owned());
    }
    let got: Vec<String> = entries(&store.compaction()).into_iter().map(|(k, _)| k).collect();
    let mut want: Vec<String> = keys.iter().map(|k| k.to_string()).collect();
    want.sort();
    assert_eq!(got, want);
}

#[test]
fn key_order_cases() {
    assert_eq!(key_order(&"a".to_owned(), &"b".to_owned()), KeyOrder::Less);
    assert_eq!(key_order(&"b".to_owned(), &"a".to_owned()), KeyOrder::Greater);
    assert_eq!(key_order(&"ab".to_owned(), &"ab".to_owned()), KeyOrder::Equal);
    assert_eq!(key_order(&"ab".to_owned(), &"abc".to_owned()), KeyOrder::Less);
    assert_eq!(key_order(&"abc".to_owned(), &"ab".to_owned()), KeyOrder::Greater);
    assert_eq!(key_order(&"".to_owned(), &"".to_owned()), KeyOrder::Equal);
    assert_eq!(key_order(&"".to_owned(), &"a".to_owned()), KeyOrder::Less);
    assert_eq!(key_order(&"Z".to_owned(), &"a".to_owned()), KeyOrder::Less);
}

#[test]
fn command_pos_from_u64() {
    assert_eq!(CommandPos::from(42u64), CommandPos { pos: 42 });
}

#[test]
fn path_test() {
    let p = ["a"];
    let s = p.join("/");
    println!("{s}");
    assert_eq!(s, "a");
}

fn snapshot(store: &mut KvStore) -> Vec<(String, String)> {
    entries(&store.compaction())
}

#[test]
fn replaying_concatenated_logs_is_replaying_each() {
    let a = vec![set("a", "1"), set("b", "2")];
    let b = vec![remove("a"), set("c", "3")];
    let mut whole: Vec<Command> = vec![set("a", "1"), set("b", "2")];
    whole.extend(vec![remove("a"), set("c", "3")]);
    let mut at_once = KvStore::open("p".to_owned(), &whole);
    let mut in_turn = KvStore::open("p".to_owned(), &a);
    KvStore::replay(&mut in_turn, &b);
    assert_eq!(snapshot(&mut at_once), snapshot(&mut in_turn));
}

#[test]
fn compaction_depends_on_contents_only() {
    let mut one = KvStore::open("p".to_owned(), &vec![set("b", "2"), set("a", "0"), set("a", "1")]);
    let mut two = KvStore::open("p".to_owned(), &vec![set("x", "9"), set("a", "1"), remove("x"), set("b", "2")]);
    assert_eq!(snapshot(&mut one), snapshot(&mut two));
}

#[test]
fn repeated_command_acts_once() {
    let mut once = KvStore::open("p".to_owned(), &vec![set("a", "1"), remove("b")]);
    let mut twice = KvStore::open("p".to_owned(), &vec![set("a", "1"), set("a", "1"), remove("b"), remove("b")]);
    assert_eq!(snapshot(&mut once), snapshot(&mut twice));
}

#[test]
fn log_after_remove_replays_to_store() {
    let mut log = vec![set("a", "1"), set("b", "2")];
    let mut store = KvStore::open("p".to_owned(), &log);
    store.remove("a".to_owned()).unwrap();
    log.push(remove("a"));
    let mut reopened = KvStore::open("p".to_owned(), &log);
    assert_eq!(snapshot(&mut store), snapshot(&mut reopened));
}
