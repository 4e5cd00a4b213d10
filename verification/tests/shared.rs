use std::sync::Arc;

use bson::Bson;
use parking_lot::RwLock;
use ttl_store::key::Key;
use ttl_store::storage::DataStore;

#[test]
fn racing_setnx_has_exactly_one_winner() {
    let runtime = tokio::runtime::Builder::new_current_thread().build().unwrap();
    let store = Arc::new(RwLock::new(DataStore::new()));
    let mut tasks = Vec::new();
    for i in 0..24i64 {
        let store = store.clone();
        tasks.push(runtime.spawn_blocking(move || {
            let (written, _) = store.write().setnx(Key::Uint64(7), Bson::Int64(i), None, 0);
            (i, written)
        }));
    }
    let mut winners = Vec::new();
    for task in tasks {
        let (i, written) = runtime.block_on(task).unwrap();
        if written {
            winners.push(i);
        }
    }
    assert_eq!(winners.len(), 1);
    let stored = store.read().get(&Key::Uint64(7));
    assert_eq!(stored.as_deref(), Some(&Bson::Int64(winners[0])));
    assert_eq!(store.read().len(), 1);
    assert_eq!(store.read().ids_left(), u64::MAX - 1);
}

#[test]
fn readers_and_writers_share_one_store() {
    let runtime = tokio::runtime::Builder::new_current_thread().build().unwrap();
    let store = Arc::new(RwLock::new(DataStore::new()));
    let mut tasks = Vec::new();
    for i in 0..16u32 {
        let store = store.clone();
        tasks.push(runtime.spawn_blocking(move || {
            store.write().setex(Key::Uint32(i), Bson::Int64(1), Some(10), 0);
            let mut state = store.write();
            match state.apply(Key::Uint32(i), ttl_store::storage::CounterOp::Incr) {
                Some(result) => result,
                None => unreachable!(),
            }
        }));
    }
    for task in tasks {
        assert_eq!(runtime.block_on(task).unwrap(), Ok(2));
    }
    assert_eq!(store.read().len(), 16);
    assert_eq!(store.write().purge_expired_keys(10), None);
    assert_eq!(store.read().len(), 0);
}
