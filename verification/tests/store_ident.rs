//! Identifier derivation and the transcript store.

use tx::ident::generate_id;
use tx::store::{Transcript, TranscriptStore};

fn record(id: &str, text: &str, timestamp: i64) -> Transcript {
    Transcript {
        id: id.to_owned(),
        text: text.to_owned(),
        timestamp,
        working_dir: "/w".to_owned(),
    }
}

#[test]
fn id_is_seven_lowercase_hex_chars() {
    for (text, ts) in [("hello", 5i64), ("", 0), ("Grüße, Welt", -3)] {
        let id = generate_id(text, ts);
        assert_eq!(id.chars().count(), 7);
        assert!(id.chars().all(|c| c.is_ascii_hexdigit() && !c.is_ascii_uppercase()));
    }
}

#[test]
fn id_exact_values() {
    assert_eq!(generate_id("hello", 5), "764b948");
    assert_eq!(generate_id("hello", 6), "5750cd8");
    assert_eq!(generate_id("world", 5), "abc93b3");
    assert_eq!(generate_id("", 0), "a8c7f83");
    assert_eq!(generate_id("hello", -1), "feaf6ae");
}

#[test]
fn id_is_deterministic() {
    assert_eq!(generate_id("hello", 42), generate_id("hello", 42));
}

#[test]
fn save_twice_at_one_timestamp_yields_one_id_and_replaces() {
    let mut st = TranscriptStore::open();
    let id1 = st.save("hello", "/a", 1000);
    let id2 = st.save("hello", "/b", 1000);
    assert_eq!(id1, id2);
    assert_eq!(st.len(), 1);
    let found = st.find_by_prefix(&id1).expect("saved record must be found");
    assert_eq!(found.text, "hello");
    assert_eq!(found.working_dir, "/b");
}

#[test]
fn save_returns_derived_id_and_stores_record() {
    let mut st = TranscriptStore::open();
    let id = st.save("hello", "/a", 5);
    assert_eq!(id, "764b948");
    assert_eq!(st.len(), 1);
    let t = st.get(0);
    assert_eq!(t.id, "764b948");
    assert_eq!(t.text, "hello");
    assert_eq!(t.timestamp, 5);
    assert_eq!(t.working_dir, "/a");
}

#[test]
fn list_returns_most_recent_first() {
    let mut st = TranscriptStore::open();
    st.save("first", "/a", 10);
    st.save("second", "/a", 20);
    st.save("third", "/a", 30);
    let out = st.list(2);
    assert_eq!(out.len(), 2);
    assert_eq!(out[0].timestamp, 30);
    assert_eq!(out[0].text, "third");
    assert_eq!(out[1].timestamp, 20);
    assert_eq!(out[1].text, "second");
}

#[test]
fn list_with_large_limit_returns_everything_sorted() {
    let mut st = TranscriptStore::open();
    st.save("b", "/a", 2);
    st.save("c", "/a", 3);
    st.save("a", "/a", 1);
    let out = st.list(10);
    assert_eq!(out.len(), 3);
    let stamps: Vec<i64> = out.iter().map(|t| t.timestamp).collect();
    assert_eq!(stamps, vec![3, 2, 1]);
}

#[test]
fn list_ties_keep_insertion_order() {
    let mut st = TranscriptStore::open();
    st.insert(record("aaaaaaa", "early", 7));
    st.insert(record("bbbbbbb", "late", 7));
    st.insert(record("ccccccc", "newest", 9));
    let out = st.list(10);
    let texts: Vec<&str> = out.iter().map(|t| t.text.as_str()).collect();
    assert_eq!(texts, vec!["newest", "early", "late"]);
}

#[test]
fn prefix_lookup_finds_record() {
    let mut st = TranscriptStore::open();
    st.insert(record("a1b2c3d", "hit", 1));
    let found = st.find_by_prefix("a1b").expect("prefix must match");
    assert_eq!(found.id, "a1b2c3d");
    assert_eq!(found.text, "hit");
}

#[test]
fn prefix_lookup_misses_cleanly() {
    let mut st = TranscriptStore::open();
    st.insert(record("a1b2c3d", "hit", 1));
    assert!(st.find_by_prefix("zz").is_none());
}

#[test]
fn prefix_lookup_on_empty_store() {
    let st = TranscriptStore::open();
    assert!(st.find_by_prefix("").is_none());
    assert!(st.find_by_prefix("a").is_none());
}

#[test]
fn empty_prefix_matches_first_record() {
    let mut st = TranscriptStore::open();
    st.insert(record("1111111", "one", 1));
    st.insert(record("2222222", "two", 2));
    let found = st.find_by_prefix("").expect("empty prefix matches anything");
    assert_eq!(found.id, "1111111");
}

#[test]
fn prefix_lookup_returns_first_of_ambiguous_matches() {
    let mut st = TranscriptStore::open();
    st.insert(record("abc0001", "one", 1));
    st.insert(record("abc0002", "two", 2));
    let found = st.find_by_prefix("abc").expect("prefix must match");
    assert_eq!(found.id, "abc0001");
}

#[test]
fn insert_replaces_same_id_in_place() {
    let mut st = TranscriptStore::open();
    st.insert(record("xxxxxxx", "old", 1));
    st.insert(record("yyyyyyy", "other", 2));
    st.insert(record("xxxxxxx", "new", 3));
    assert_eq!(st.len(), 2);
    assert_eq!(st.get(0).text, "new");
    assert_eq!(st.get(0).timestamp, 3);
    assert_eq!(st.get(1).text, "other");
}
