//! The store's three operations and its connection.

use msg::error::StorageError;
use msg::store::MessageStore;
use msg::Message;

fn message(id: i64, content: &str) -> Message {
    Message { id, content: content.to_string() }
}

fn disconnected() -> StorageError {
    StorageError { detail: "storage is not connected".to_string() }
}

#[test]
fn new_store_is_connected_and_empty() {
    let store = MessageStore::new();
    assert!(store.is_connected());
    assert_eq!(store.list_all(), Ok(vec![]));
}

#[test]
fn insert_returns_the_row_it_stored() {
    let mut store = MessageStore::new();
    assert_eq!(store.insert("first".to_string()), Ok(message(1, "first")));
    assert_eq!(store.insert("second".to_string()), Ok(message(2, "second")));
    assert_eq!(store.list_all(), Ok(vec![message(1, "first"), message(2, "second")]));
}

#[test]
fn delete_reports_how_many_rows_it_removed() {
    let mut store = MessageStore::new();
    for content in ["a", "b", "c"] {
        store.insert(content.to_string()).unwrap();
    }
    assert_eq!(store.delete_by_id(2), Ok(1));
    assert_eq!(store.delete_by_id(2), Ok(0));
    assert_eq!(store.delete_by_id(4), Ok(0));
    assert_eq!(store.delete_by_id(0), Ok(0));
    assert_eq!(store.delete_by_id(i64::MIN), Ok(0));
    assert_eq!(store.list_all(), Ok(vec![message(1, "a"), message(3, "c")]));
    assert_eq!(store.delete_by_id(3), Ok(1));
    assert_eq!(store.delete_by_id(1), Ok(1));
    assert_eq!(store.list_all(), Ok(vec![]));
}

#[test]
fn emptied_store_goes_on_counting() {
    let mut store = MessageStore::new();
    store.insert("a".to_string()).unwrap();
    store.insert("b".to_string()).unwrap();
    store.delete_by_id(1).unwrap();
    store.delete_by_id(2).unwrap();
    assert_eq!(store.insert("c".to_string()), Ok(message(3, "c")));
}

#[test]
fn disconnected_store_fails_and_keeps_its_rows() {
    let mut store = MessageStore::new();
    store.insert("a".to_string()).unwrap();
    store.disconnect();
    assert!(!store.is_connected());
    assert_eq!(store.insert("b".to_string()), Err(disconnected()));
    assert_eq!(store.list_all(), Err(disconnected()));
    assert_eq!(store.delete_by_id(1), Err(disconnected()));
    store.reconnect();
    assert!(store.is_connected());
    assert_eq!(store.list_all(), Ok(vec![message(1, "a")]));
    assert_eq!(store.insert("b".to_string()), Ok(message(2, "b")));
}

#[test]
fn listing_is_a_copy() {
    let mut store = MessageStore::new();
    store.insert("a".to_string()).unwrap();
    let mut copy = store.list_all().unwrap();
    copy[0].content.push_str(" changed");
    copy.push(message(9, "extra"));
    assert_eq!(store.list_all(), Ok(vec![message(1, "a")]));
}

#[test]
fn restored_store_holds_its_rows_and_goes_on_counting() {
    let mut store = MessageStore::restore(vec![message(1, "a"), message(3, "c")], 5)
        .expect("ascending identifiers within the counter");
    assert!(store.is_connected());
    assert_eq!(store.list_all(), Ok(vec![message(1, "a"), message(3, "c")]));
    assert_eq!(store.insert("f".to_string()), Ok(message(6, "f")));
    assert_eq!(store.delete_by_id(3), Ok(1));
    assert_eq!(store.list_all(), Ok(vec![message(1, "a"), message(6, "f")]));
}

#[test]
fn restored_empty_store_is_a_new_store() {
    let mut store = MessageStore::restore(vec![], 0).expect("an empty table");
    assert_eq!(store.list_all(), Ok(vec![]));
    assert_eq!(store.insert("a".to_string()), Ok(message(1, "a")));
}

#[test]
fn restore_accepts_rows_up_to_the_counter() {
    assert!(MessageStore::restore(vec![message(1, "a")], 1).is_some());
    assert!(MessageStore::restore(vec![message(7, "a")], 7).is_some());
    assert!(MessageStore::restore(vec![message(1, "a"), message(2, "b")], 2).is_some());
    assert!(MessageStore::restore(vec![message(i64::MAX, "z")], i64::MAX).is_some());
    assert!(MessageStore::restore(vec![], i64::MAX).is_some());
}

#[test]
fn restore_refuses_what_is_no_table() {
    assert!(MessageStore::restore(vec![], -1).is_none());
    assert!(MessageStore::restore(vec![], i64::MIN).is_none());
    assert!(MessageStore::restore(vec![message(0, "a")], 5).is_none());
    assert!(MessageStore::restore(vec![message(-1, "a")], 5).is_none());
    assert!(MessageStore::restore(vec![message(6, "a")], 5).is_none());
    assert!(MessageStore::restore(vec![message(1, "a")], 0).is_none());
    assert!(MessageStore::restore(vec![message(2, "a"), message(2, "b")], 5).is_none());
    assert!(MessageStore::restore(vec![message(3, "a"), message(2, "b")], 5).is_none());
    assert!(MessageStore::restore(vec![message(1, "a"), message(2, "b"), message(6, "c")], 5)
        .is_none());
    assert!(MessageStore::restore(vec![message(1, "a"), message(3, "b"), message(3, "c")], 5)
        .is_none());
}

#[test]
fn store_without_identifiers_left_refuses_inserts() {
    let mut store = MessageStore::restore(vec![message(4, "d")], i64::MAX - 1)
        .expect("one identifier is left");
    assert_eq!(store.insert("last".to_string()), Ok(message(i64::MAX, "last")));
    let exhausted = StorageError { detail: "message identifiers are exhausted".to_string() };
    assert_eq!(store.insert("more".to_string()), Err(exhausted));
    assert_eq!(store.list_all(), Ok(vec![message(4, "d"), message(i64::MAX, "last")]));
    assert_eq!(store.delete_by_id(i64::MAX), Ok(1));
    let exhausted = StorageError { detail: "message identifiers are exhausted".to_string() };
    assert_eq!(store.insert("again".to_string()), Err(exhausted));
    assert_eq!(store.list_all(), Ok(vec![message(4, "d")]));
}

#[test]
fn disconnection_is_reported_before_exhaustion() {
    let mut store = MessageStore::restore(vec![], i64::MAX).expect("an empty table");
    store.disconnect();
    assert_eq!(store.insert("x".to_string()), Err(disconnected()));
}
