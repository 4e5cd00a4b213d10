use std::sync::Arc;

use bson::Bson;
use ttl_store::key::Key;
use ttl_store::storage::DataStore;

fn text(s: &str) -> Bson {
    Bson::String(s.to_string())
}

fn name(s: &str) -> Key {
    Key::String(s.to_string())
}

fn value_at(store: &DataStore, key: &Key) -> Option<Bson> {
    store.get(key).map(|v| (*v).clone())
}

#[test]
fn new_store_is_empty() {
    let store = DataStore::new();
    assert_eq!(store.len(), 0);
    assert_eq!(store.ids_left(), u64::MAX);
    assert_eq!(store.next_expiration(), None);
    assert!(!store.is_shutdown());
    assert_eq!(store.get(&name("a")), None);
    assert_eq!(store.cursor(0), None);
}

#[test]
fn set_then_get_returns_value() {
    let mut store = DataStore::new();
    store.set(name("k"), text("v"));
    assert_eq!(value_at(&store, &name("k")), Some(text("v")));
    assert_eq!(store.len(), 1);
    assert_eq!(store.ids_left(), u64::MAX - 1);
}

#[test]
fn second_set_wins_and_clears_deadline() {
    let mut store = DataStore::new();
    let notify = store.setex(name("k"), text("v0"), Some(100), 0);
    assert!(notify);
    assert_eq!(store.next_expiration(), Some(100));
    store.set(name("k"), text("v1"));
    store.set(name("k"), text("v2"));
    assert_eq!(store.next_expiration(), None);
    assert_eq!(store.purge_expired_keys(1_000_000), None);
    assert_eq!(value_at(&store, &name("k")), Some(text("v2")));
    assert_eq!(store.len(), 1);
}

#[test]
fn setex_entry_is_purged_at_its_deadline() {
    let mut store = DataStore::new();
    store.setex(name("k"), text("v"), Some(100), 7);
    assert_eq!(value_at(&store, &name("k")), Some(text("v")));
    assert_eq!(store.purge_expired_keys(106), Some(107));
    assert_eq!(value_at(&store, &name("k")), Some(text("v")));
    assert_eq!(store.purge_expired_keys(107), None);
    assert_eq!(store.get(&name("k")), None);
    assert_eq!(store.len(), 0);
}

#[test]
fn get_does_not_check_the_deadline() {
    let mut store = DataStore::new();
    store.setex(name("k"), text("v"), Some(1), 0);
    assert_eq!(value_at(&store, &name("k")), Some(text("v")));
    assert_eq!(store.next_expiration(), Some(1));
}

#[test]
fn setex_without_ttl_has_no_deadline() {
    let mut store = DataStore::new();
    let notify = store.setex(name("k"), text("v"), None, 5);
    assert!(!notify);
    assert_eq!(store.next_expiration(), None);
    assert_eq!(store.purge_expired_keys(u64::MAX), None);
    assert_eq!(value_at(&store, &name("k")), Some(text("v")));
}

#[test]
fn setex_wakes_only_for_a_sooner_deadline() {
    let mut store = DataStore::new();
    assert!(store.setex(name("a"), text("1"), Some(100), 0));
    assert!(!store.setex(name("b"), text("2"), Some(200), 0));
    assert!(store.setex(name("c"), text("3"), Some(50), 0));
    assert!(!store.setex(name("d"), text("4"), Some(50), 0));
    assert!(!store.setex(name("e"), text("5"), None, 0));
    assert_eq!(store.next_expiration(), Some(50));
}

#[test]
fn setex_replaces_the_former_deadline() {
    let mut store = DataStore::new();
    store.setex(name("k"), text("old"), Some(10), 0);
    store.setex(name("k"), text("new"), Some(50), 0);
    assert_eq!(store.purge_expired_keys(10), Some(50));
    assert_eq!(value_at(&store, &name("k")), Some(text("new")));
    assert_eq!(store.purge_expired_keys(50), None);
    assert_eq!(store.get(&name("k")), None);
}

#[test]
fn setnx_on_existing_key_changes_nothing() {
    let mut store = DataStore::new();
    store.setex(name("k"), text("v0"), Some(100), 0);
    let left = store.ids_left();
    assert_eq!(store.setnx(name("k"), text("v1"), None, 0), (false, false));
    assert_eq!(store.setnx(name("k"), text("v1"), Some(5), 0), (false, false));
    assert_eq!(store.ids_left(), left);
    assert_eq!(value_at(&store, &name("k")), Some(text("v0")));
    assert_eq!(store.next_expiration(), Some(100));
    assert_eq!(store.purge_expired_keys(100), None);
    assert_eq!(store.get(&name("k")), None);
}

#[test]
fn setnx_on_missing_key_writes() {
    let mut store = DataStore::new();
    assert_eq!(store.setnx(name("k"), text("v"), Some(30), 10), (true, true));
    assert_eq!(value_at(&store, &name("k")), Some(text("v")));
    assert_eq!(store.next_expiration(), Some(40));
    assert_eq!(store.setnx(name("j"), text("w"), None, 10), (true, false));
    assert_eq!(value_at(&store, &name("j")), Some(text("w")));
}

#[test]
fn of_many_setnx_on_one_key_only_the_first_writes() {
    let mut store = DataStore::new();
    let mut wins = 0;
    for i in 0..16i64 {
        let (written, _) = store.setnx(name("k"), Bson::Int64(i), None, 0);
        if written {
            wins += 1;
        }
    }
    assert_eq!(wins, 1);
    assert_eq!(value_at(&store, &name("k")), Some(Bson::Int64(0)));
}

#[test]
fn mset_writes_in_order() {
    let mut store = DataStore::new();
    store.setex(name("b"), text("old"), Some(10), 0);
    store.mset(vec![(name("a"), text("1")), (name("b"), text("2")), (name("a"), text("3"))]);
    assert_eq!(store.len(), 2);
    assert_eq!(store.cursor(0).as_deref(), Some(&text("2")));
    assert_eq!(store.cursor(1).as_deref(), Some(&text("3")));
    assert_eq!(store.next_expiration(), None);
    assert_eq!(store.ids_left(), u64::MAX - 4);
}

#[test]
fn mset_of_nothing_changes_nothing() {
    let mut store = DataStore::new();
    store.mset(Vec::new());
    assert_eq!(store.len(), 0);
    assert_eq!(store.ids_left(), u64::MAX);
}

#[test]
fn msetnx_aborts_when_a_key_exists() {
    let mut store = DataStore::new();
    store.setex(name("k1"), text("v0"), Some(100), 0);
    let written = store.msetnx(vec![(name("k1"), text("v1")), (name("k2"), text("v2"))]);
    assert!(!written);
    assert_eq!(value_at(&store, &name("k1")), Some(text("v0")));
    assert_eq!(store.get(&name("k2")), None);
    assert_eq!(store.next_expiration(), Some(100));
    assert_eq!(store.len(), 1);
    let written = store.msetnx(vec![(name("k2"), text("v2")), (name("k1"), text("v1"))]);
    assert!(!written);
    assert_eq!(store.get(&name("k2")), None);
}

#[test]
fn msetnx_writes_all_when_no_key_exists() {
    let mut store = DataStore::new();
    let written = store.msetnx(vec![(name("k1"), text("v1")), (name("k2"), text("v2"))]);
    assert!(written);
    assert_eq!(value_at(&store, &name("k1")), Some(text("v1")));
    assert_eq!(value_at(&store, &name("k2")), Some(text("v2")));
    assert!(store.msetnx(Vec::new()));
}

#[test]
fn mget_skips_missing_keys() {
    let mut store = DataStore::new();
    store.set(name("a"), text("1"));
    store.set(name("c"), text("3"));
    let got = store.mget(&[name("c"), name("b"), name("a"), name("c")]);
    let got: Vec<Bson> = got.iter().map(|v| (**v).clone()).collect();
    assert_eq!(got, vec![text("3"), text("1"), text("3")]);
    assert!(store.mget(&[]).is_empty());
}

#[test]
fn getset_returns_previous_and_keeps_deadline() {
    let mut store = DataStore::new();
    assert_eq!(store.getset(name("k"), text("v0")), None);
    assert_eq!(value_at(&store, &name("k")), Some(text("v0")));
    store.setex(name("t"), text("a"), Some(10), 0);
    let left = store.ids_left();
    let prev = store.getset(name("t"), text("b"));
    assert_eq!(prev.as_deref(), Some(&text("a")));
    assert_eq!(store.ids_left(), left);
    assert_eq!(value_at(&store, &name("t")), Some(text("b")));
    assert_eq!(store.next_expiration(), Some(10));
    assert_eq!(store.purge_expired_keys(10), None);
    assert_eq!(store.get(&name("t")), None);
    assert_eq!(value_at(&store, &name("k")), Some(text("v0")));
}

#[test]
fn cursor_follows_insertion_order() {
    let mut store = DataStore::new();
    store.set(name("a"), text("1"));
    store.set(name("b"), text("2"));
    store.set(name("c"), text("3"));
    store.set(name("a"), text("9"));
    assert_eq!(store.cursor(0).as_deref(), Some(&text("9")));
    assert_eq!(store.cursor(1).as_deref(), Some(&text("2")));
    assert_eq!(store.cursor(2).as_deref(), Some(&text("3")));
    assert_eq!(store.cursor(3), None);
    assert_eq!(store.cursor(usize::MAX), None);
}

#[test]
fn del_keeps_the_order_of_the_other_rows() {
    let mut store = DataStore::new();
    store.set(name("a"), text("1"));
    store.set(name("b"), text("2"));
    store.set(name("c"), text("3"));
    store.del(&name("a"));
    assert_eq!(store.len(), 2);
    assert_eq!(store.cursor(0).as_deref(), Some(&text("2")));
    assert_eq!(store.cursor(1).as_deref(), Some(&text("3")));
    assert_eq!(store.cursor(2), None);
    store.set(name("a"), text("4"));
    assert_eq!(store.cursor(2).as_deref(), Some(&text("4")));
    store.del(&name("c"));
    assert_eq!(store.cursor(0).as_deref(), Some(&text("2")));
    assert_eq!(store.cursor(1).as_deref(), Some(&text("4")));
    store.del(&name("missing"));
    assert_eq!(store.len(), 2);
}

#[test]
fn purge_keeps_the_order_of_the_other_rows() {
    let mut store = DataStore::new();
    store.setex(name("a"), text("1"), Some(10), 0);
    store.set(name("b"), text("2"));
    store.setex(name("c"), text("3"), Some(5), 0);
    store.set(name("d"), text("4"));
    store.setex(name("e"), text("5"), Some(50), 0);
    assert_eq!(store.purge_expired_keys(10), Some(50));
    assert_eq!(store.len(), 3);
    assert_eq!(store.cursor(0).as_deref(), Some(&text("2")));
    assert_eq!(store.cursor(1).as_deref(), Some(&text("4")));
    assert_eq!(store.cursor(2).as_deref(), Some(&text("5")));
    assert_eq!(store.cursor(3), None);
}

#[test]
fn del_then_get_returns_none_and_drops_the_record() {
    let mut store = DataStore::new();
    store.setex(name("k"), text("v"), Some(10), 0);
    store.setex(name("j"), text("w"), Some(20), 0);
    store.del(&name("k"));
    assert_eq!(store.get(&name("k")), None);
    assert_eq!(store.next_expiration(), Some(20));
    store.del(&name("k"));
    store.del(&name("j"));
    assert_eq!(store.next_expiration(), None);
    assert_eq!(store.len(), 0);
}

#[test]
fn purge_removes_all_due_entries() {
    let mut store = DataStore::new();
    store.setex(name("a"), text("1"), Some(10), 0);
    store.setex(name("b"), text("2"), Some(10), 0);
    store.setex(name("c"), text("3"), Some(30), 0);
    store.set(name("d"), text("4"));
    assert_eq!(store.purge_expired_keys(9), Some(10));
    assert_eq!(store.len(), 4);
    assert_eq!(store.purge_expired_keys(29), Some(30));
    assert_eq!(store.get(&name("a")), None);
    assert_eq!(store.get(&name("b")), None);
    assert_eq!(value_at(&store, &name("c")), Some(text("3")));
    assert_eq!(value_at(&store, &name("d")), Some(text("4")));
    assert_eq!(store.purge_expired_keys(u64::MAX), None);
    assert_eq!(store.len(), 1);
    assert_eq!(value_at(&store, &name("d")), Some(text("4")));
}

#[test]
fn shutdown_stops_purging_but_not_the_store() {
    let mut store = DataStore::new();
    store.setex(name("k"), text("v"), Some(10), 0);
    store.shutdown_purge_task();
    assert!(store.is_shutdown());
    assert_eq!(store.purge_expired_keys(100), None);
    assert_eq!(value_at(&store, &name("k")), Some(text("v")));
    assert_eq!(store.next_expiration(), Some(10));
    store.set(name("j"), text("w"));
    assert_eq!(value_at(&store, &name("j")), Some(text("w")));
    store.shutdown_purge_task();
    assert!(store.is_shutdown());
}

#[test]
fn get_shares_the_stored_value() {
    let mut store = DataStore::new();
    store.set(name("k"), text("v"));
    let a = store.get(&name("k")).unwrap();
    let b = store.get(&name("k")).unwrap();
    assert!(Arc::ptr_eq(&a, &b));
}
