//! The value table: rows of key and entry in insertion order, with at most
//! one row per key, and what each operation of the table does to them.

use crate::key::Key;
use bson::Bson;
use indexmap::IndexMap;
use std::sync::Arc;
use vstd::prelude::*;

verus! {

/// One stored record.
pub struct Entry {
    /// The generation of the record: no two records ever share one.
    pub id: u64,
    /// The payload.
    pub data: Arc<Bson>,
    /// The tick at which the record falls due, if it has a time to live.
    pub expires_at: Option<u64>,
}

/// `indexmap::IndexMap`, a hash map that keeps its pairs in insertion order.
#[verifier::external_type_specification]
#[verifier::external_body]
#[verifier::reject_recursive_types(K)]
#[verifier::reject_recursive_types(V)]
#[verifier::reject_recursive_types(S)]
pub struct ExIndexMap<K, V, S>(IndexMap<K, V, S>);

/// The pairs that a table holds, in the order of their positions. The
/// table finds a key by the `Hash` and `Eq` that `Key` derives: two keys
/// are equal when they have the same representation and payload.
pub uninterp spec fn rows(t: IndexMap<Key, Entry>) -> Seq<(Key, Entry)>;

/// Whether some row has the key `k`.
pub open spec fn has_key(s: Seq<(Key, Entry)>, k: Key) -> bool {
    exists|i: int| 0 <= i < s.len() && (#[trigger] s[i]).0 == k
}

/// The position of the row with key `k`, where there is one.
pub open spec fn position(s: Seq<(Key, Entry)>, k: Key) -> int {
    choose|i: int| 0 <= i < s.len() && (#[trigger] s[i]).0 == k
}

/// The entry stored under `k`, if any.
pub open spec fn lookup(s: Seq<(Key, Entry)>, k: Key) -> Option<Entry> {
    if has_key(s, k) {
        Some(s[position(s, k)].1)
    } else {
        None
    }
}

/// No key stands in two rows.
pub open spec fn distinct_keys(s: Seq<(Key, Entry)>) -> bool {
    forall|i: int, j: int| 0 <= i < j < s.len() ==> (#[trigger] s[i]).0 != (#[trigger] s[j]).0
}

/// The rows after storing `e` under `k`: the row of `k` keeps its place and
/// its key and gets the new entry; a new key goes last.
pub open spec fn put(s: Seq<(Key, Entry)>, k: Key, e: Entry) -> Seq<(Key, Entry)> {
    if has_key(s, k) {
        s.update(position(s, k), (s[position(s, k)].0, e))
    } else {
        s.push((k, e))
    }
}

/// The rows after removing `k`: the rows without the row of `k`, every
/// other row in its former order.
pub open spec fn take(s: Seq<(Key, Entry)>, k: Key) -> Seq<(Key, Entry)> {
    if has_key(s, k) {
        s.remove(position(s, k))
    } else {
        s
    }
}

/// Calls `IndexMap::new`: a table without rows.
#[verifier::external_body]
pub(crate) fn table_new() -> (t: IndexMap<Key, Entry>)
    ensures
        rows(t) == Seq::<(Key, Entry)>::empty(),
{
    IndexMap::new()
}

/// Calls `IndexMap::insert`. Where an equal key is present, it stays at its
/// position, its entry is replaced and the former entry is returned; else
/// the pair is appended and `None` is returned.
#[verifier::external_body]
pub(crate) fn table_insert(t: &mut IndexMap<Key, Entry>, key: Key, entry: Entry) -> (prev: Option<
    Entry,
>)
    ensures
        rows(*final(t)) == put(rows(*old(t)), key, entry),
        prev == lookup(rows(*old(t)), key),
{
    t.insert(key, entry)
}

/// Calls `IndexMap::len`: the number of rows.
#[verifier::external_body]
pub(crate) fn table_len(t: &IndexMap<Key, Entry>) -> (n: usize)
    ensures
        n == rows(*t).len(),
{
    t.len()
}

/// Calls `IndexMap::get`: the entry stored under an equal key, if any.
#[verifier::external_body]
pub(crate) fn table_get<'a>(t: &'a IndexMap<Key, Entry>, key: &Key) -> (r: Option<&'a Entry>)
    ensures
        match r {
            Some(e) => lookup(rows(*t), *key) == Some(*e),
            None => lookup(rows(*t), *key).is_none(),
        },
{
    t.get(key)
}

/// Calls `IndexMap::get_index`: the pair at position `i`, `None` from the
/// number of rows on.
#[verifier::external_body]
pub(crate) fn table_get_index<'a>(t: &'a IndexMap<Key, Entry>, i: usize) -> (r: Option<
    (&'a Key, &'a Entry),
>)
    ensures
        match r {
            Some(row) => i < rows(*t).len() && rows(*t)[i as int] == (*row.0, *row.1),
            None => i >= rows(*t).len(),
        },
{
    t.get_index(i)
}

/// Calls `IndexMap::shift_remove`. Where an equal key is present, its row
/// is removed, the rows behind it move up by one position in their order,
/// and the removed entry is returned; else nothing changes and `None` is
/// returned.
#[verifier::external_body]
pub(crate) fn table_shift_remove(t: &mut IndexMap<Key, Entry>, key: &Key) -> (prev: Option<Entry>)
    ensures
        rows(*final(t)) == take(rows(*old(t)), *key),
        prev == lookup(rows(*old(t)), *key),
{
    t.shift_remove(key)
}

/// In rows with distinct keys, the row at a position is the one found by
/// its key.
pub proof fn lemma_lookup_at(s: Seq<(Key, Entry)>, j: int)
    requires
        distinct_keys(s),
        0 <= j < s.len(),
    ensures
        has_key(s, s[j].0),
        position(s, s[j].0) == j,
        lookup(s, s[j].0) == Some(s[j].1),
{
    let k = s[j].0;
    assert(has_key(s, k));
    let p = position(s, k);
    assert(0 <= p < s.len() && s[p].0 == k);
    if p < j {
        assert(s[p].0 != s[j].0);
    } else if j < p {
        assert(s[j].0 != s[p].0);
    }
}

/// Storing under `k` keeps the keys distinct, makes `k` map to the new
/// entry, leaves every other key as it was and moves no key from its
/// position.
pub proof fn lemma_put(s: Seq<(Key, Entry)>, k: Key, e: Entry)
    requires
        distinct_keys(s),
    ensures
        distinct_keys(put(s, k, e)),
        lookup(put(s, k, e), k) == Some(e),
        forall|o: Key| o != k ==> #[trigger] lookup(put(s, k, e), o) == lookup(s, o),
        put(s, k, e).len() == if has_key(s, k) { s.len() } else { s.len() + 1 },
        forall|i: int| 0 <= i < s.len() ==> (#[trigger] put(s, k, e)[i]).0 == s[i].0,
{
    let t = put(s, k, e);
    if has_key(s, k) {
        let p = position(s, k);
        assert(0 <= p < s.len() && s[p].0 == k);
        assert forall|i: int| 0 <= i < t.len() implies (#[trigger] t[i]).0 == s[i].0 by {}
        assert forall|i: int, j: int| 0 <= i < j < t.len() implies (#[trigger] t[i]).0 != (
        #[trigger] t[j]).0 by {
            assert(s[i].0 != s[j].0);
        }
        lemma_lookup_at(t, p);
        assert forall|o: Key| o != k implies #[trigger] lookup(t, o) == lookup(s, o) by {
            if has_key(s, o) {
                let q = position(s, o);
                assert(0 <= q < s.len() && s[q].0 == o);
                lemma_lookup_at(s, q);
                assert(t[q].0 == o);
                lemma_lookup_at(t, q);
            } else {
                if has_key(t, o) {
                    let q = position(t, o);
                    assert(0 <= q < t.len() && t[q].0 == o);
                    assert(s[q].0 == o);
                }
            }
        }
    } else {
        let n = s.len() as int;
        assert forall|i: int, j: int| 0 <= i < j < t.len() implies (#[trigger] t[i]).0 != (
        #[trigger] t[j]).0 by {
            if j < n {
                assert(s[i].0 != s[j].0);
            } else {
                assert(t[i] == s[i]);
                assert(t[j].0 == k);
            }
        }
        assert(t[n] == (k, e));
        lemma_lookup_at(t, n);
        assert forall|o: Key| o != k implies #[trigger] lookup(t, o) == lookup(s, o) by {
            if has_key(s, o) {
                let q = position(s, o);
                assert(0 <= q < s.len() && s[q].0 == o);
                lemma_lookup_at(s, q);
                assert(t[q] == s[q]);
                lemma_lookup_at(t, q);
            } else {
                if has_key(t, o) {
                    let q = position(t, o);
                    assert(0 <= q < t.len() && t[q].0 == o);
                    assert(q < n);
                    assert(s[q].0 == o);
                }
            }
        }
    }
}

/// Removing `k` keeps the keys distinct, leaves `k` without an entry and
/// every other key as it was, and keeps the other rows in their order.
pub proof fn lemma_take(s: Seq<(Key, Entry)>, k: Key)
    requires
        distinct_keys(s),
    ensures
        distinct_keys(take(s, k)),
        lookup(take(s, k), k).is_none(),
        forall|o: Key| o != k ==> #[trigger] lookup(take(s, k), o) == lookup(s, o),
        take(s, k).len() == if has_key(s, k) { s.len() - 1 } else { s.len() as int },
        forall|i: int, j: int|
            0 <= i < j < take(s, k).len() ==> position(s, (#[trigger] take(s, k)[i]).0) < position(
                s,
                (#[trigger] take(s, k)[j]).0,
            ),
{
    let t = take(s, k);
    if has_key(s, k) {
        let p = position(s, k);
        assert(0 <= p < s.len() && s[p].0 == k);
        assert forall|i: int| 0 <= i < t.len() implies #[trigger] t[i] == (if i < p {
            s[i]
        } else {
            s[i + 1]
        }) by {}
        assert forall|i: int, j: int| 0 <= i < j < t.len() implies (#[trigger] t[i]).0 != (
        #[trigger] t[j]).0 by {
            let a = if i < p { i } else { i + 1 };
            let b = if j < p { j } else { j + 1 };
            assert(t[i] == s[a]);
            assert(t[j] == s[b]);
            assert(s[a].0 != s[b].0);
        }
        if has_key(t, k) {
            let q = position(t, k);
            assert(0 <= q < t.len() && t[q].0 == k);
            let a = if q < p { q } else { q + 1 };
            assert(t[q] == s[a]);
            lemma_lookup_at(s, a);
            lemma_lookup_at(s, p);
        }
        assert forall|o: Key| o != k implies #[trigger] lookup(t, o) == lookup(s, o) by {
            if has_key(s, o) {
                let q = position(s, o);
                assert(0 <= q < s.len() && s[q].0 == o);
                lemma_lookup_at(s, q);
                assert(q != p);
                let a = if q < p { q } else { q - 1 };
                assert(t[a] == s[q]);
                lemma_lookup_at(t, a);
            } else {
                if has_key(t, o) {
                    let q = position(t, o);
                    assert(0 <= q < t.len() && t[q].0 == o);
                    let a = if q < p { q } else { q + 1 };
                    assert(t[q] == s[a]);
                    assert(s[a].0 == o);
                }
            }
        }
        assert forall|i: int, j: int| 0 <= i < j < t.len() implies position(
            s,
            (#[trigger] t[i]).0,
        ) < position(s, (#[trigger] t[j]).0) by {
            let a = if i < p { i } else { i + 1 };
            let b = if j < p { j } else { j + 1 };
            assert(t[i] == s[a]);
            assert(t[j] == s[b]);
            lemma_lookup_at(s, a);
            lemma_lookup_at(s, b);
        }
    } else {
        assert forall|i: int, j: int| 0 <= i < j < t.len() implies position(
            s,
            (#[trigger] t[i]).0,
        ) < position(s, (#[trigger] t[j]).0) by {
            lemma_lookup_at(s, i);
            lemma_lookup_at(s, j);
        }
    }
}

} // verus!
