//! Identifiers under which values are stored.

use bson::oid::ObjectId;
use bson::Uuid;
use vstd::prelude::*;

verus! {

/// `bson::Uuid`, a 128-bit unique identifier. Its contents are not read here.
#[verifier::external_type_specification]
#[verifier::external_body]
pub struct ExUuid(bson::Uuid);

/// `bson::oid::ObjectId`, a 12-byte object identifier. Its contents are not read here.
#[verifier::external_type_specification]
#[verifier::external_body]
pub struct ExObjectId(bson::oid::ObjectId);

/// The identifier of an entry: one of a fixed set of representations.
/// Two keys are the same key when they have the same representation and payload.
#[derive(Debug, Hash, PartialEq, Eq, PartialOrd, Ord)]
pub enum Key {
    Uint32(u32),
    Uint64(u64),
    String(String),
    Uuid(Uuid),
    ObjectId(ObjectId),
}

impl Clone for Key {
    /// A copy of the key: the same representation and payload.
    fn clone(&self) -> (r: Key)
        ensures
            r == *self,
    {
        match self {
            Key::Uint32(n) => Key::Uint32(*n),
            Key::Uint64(n) => Key::Uint64(*n),
            Key::String(s) => Key::String(s.clone()),
            Key::Uuid(u) => Key::Uuid(*u),
            Key::ObjectId(o) => Key::ObjectId(*o),
        }
    }
}

/// Conversion of a plain value into the `Key` that stands for it.
pub trait ToKey {
    /// Whether `k` is the key that stands for this value.
    spec fn names(&self, k: Key) -> bool;

    fn to_key(&self) -> (k: Key)
        ensures
            self.names(k),
    ;
}

impl ToKey for i32 {
    /// Signed values are reinterpreted as unsigned ones of the same width.
    open spec fn names(&self, k: Key) -> bool {
        k == Key::Uint32(*self as u32)
    }

    fn to_key(&self) -> (k: Key) {
        Key::Uint32(*self as u32)
    }
}

impl ToKey for u32 {
    open spec fn names(&self, k: Key) -> bool {
        k == Key::Uint32(*self)
    }

    fn to_key(&self) -> (k: Key) {
        Key::Uint32(*self)
    }
}

impl ToKey for i64 {
    /// Signed values are reinterpreted as unsigned ones of the same width.
    open spec fn names(&self, k: Key) -> bool {
        k == Key::Uint64(*self as u64)
    }

    fn to_key(&self) -> (k: Key) {
        Key::Uint64(*self as u64)
    }
}

impl ToKey for u64 {
    open spec fn names(&self, k: Key) -> bool {
        k == Key::Uint64(*self)
    }

    fn to_key(&self) -> (k: Key) {
        Key::Uint64(*self)
    }
}

impl ToKey for String {
    open spec fn names(&self, k: Key) -> bool {
        k == Key::String(*self)
    }

    fn to_key(&self) -> (k: Key) {
        Key::String(self.clone())
    }
}

impl ToKey for &str {
    open spec fn names(&self, k: Key) -> bool {
        k matches Key::String(s) && s@ == (*self)@
    }

    fn to_key(&self) -> (k: Key) {
        Key::String((*self).to_owned())
    }
}

impl ToKey for ObjectId {
    open spec fn names(&self, k: Key) -> bool {
        k == Key::ObjectId(*self)
    }

    fn to_key(&self) -> (k: Key) {
        Key::ObjectId(*self)
    }
}

impl ToKey for Uuid {
    open spec fn names(&self, k: Key) -> bool {
        k == Key::Uuid(*self)
    }

    fn to_key(&self) -> (k: Key) {
        Key::Uuid(*self)
    }
}

} // verus!
