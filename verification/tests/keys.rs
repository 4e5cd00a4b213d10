use bson::oid::ObjectId;
use bson::{Bson, Uuid};
use ttl_store::key::{Key, ToKey};
use ttl_store::storage::DataStore;

#[test]
fn integers_become_unsigned_keys() {
    assert_eq!(5i32.to_key(), Key::Uint32(5));
    assert_eq!((-1i32).to_key(), Key::Uint32(u32::MAX));
    assert_eq!(5u32.to_key(), Key::Uint32(5));
    assert_eq!(5i64.to_key(), Key::Uint64(5));
    assert_eq!((-1i64).to_key(), Key::Uint64(u64::MAX));
    assert_eq!(5u64.to_key(), Key::Uint64(5));
}

#[test]
fn text_becomes_a_string_key() {
    assert_eq!("abc".to_key(), Key::String("abc".to_string()));
    assert_eq!("abc".to_string().to_key(), Key::String("abc".to_string()));
    assert_eq!("".to_key(), Key::String(String::new()));
}

#[test]
fn identifiers_become_keys_of_their_kind() {
    let oid = ObjectId::from_bytes([7u8; 12]);
    let uuid = Uuid::from_bytes([9u8; 16]);
    assert_eq!(oid.to_key(), Key::ObjectId(oid));
    assert_eq!(uuid.to_key(), Key::Uuid(uuid));
    assert_ne!(oid.to_key(), ObjectId::from_bytes([8u8; 12]).to_key());
}

#[test]
fn clone_gives_an_equal_key() {
    let keys = vec![
        Key::Uint32(1),
        Key::Uint64(2),
        Key::String("s".to_string()),
        Key::Uuid(Uuid::from_bytes([1u8; 16])),
        Key::ObjectId(ObjectId::from_bytes([2u8; 12])),
    ];
    for k in keys.iter() {
        assert_eq!(&k.clone(), k);
    }
}

#[test]
fn keys_are_ordered_by_kind_then_payload() {
    assert!(Key::Uint32(1) < Key::Uint32(2));
    assert!(Key::Uint32(9) < Key::Uint64(0));
    assert!(Key::Uint64(9) < Key::String(String::new()));
    assert!(Key::String("a".to_string()) < Key::String("b".to_string()));
    assert!(Key::String("z".to_string()) < Key::Uuid(Uuid::from_bytes([0u8; 16])));
    assert!(Key::Uuid(Uuid::from_bytes([255u8; 16])) < Key::ObjectId(ObjectId::from_bytes([0u8; 12])));
}

#[test]
fn keys_of_different_kinds_do_not_collide() {
    let mut store = DataStore::new();
    store.set(1u32.to_key(), Bson::Int64(32));
    store.set(1u64.to_key(), Bson::Int64(64));
    store.set("1".to_key(), Bson::Int64(0));
    assert_eq!(store.len(), 3);
    assert_eq!(store.get(&Key::Uint32(1)).as_deref(), Some(&Bson::Int64(32)));
    assert_eq!(store.get(&Key::Uint64(1)).as_deref(), Some(&Bson::Int64(64)));
    assert_eq!(store.get(&"1".to_string().to_key()).as_deref(), Some(&Bson::Int64(0)));
}
