//! What holds of every consistent store, whatever was done to it.

use crate::key::Key;
use crate::error::EiffelError;
use crate::storage::{
    any_present, lemma_fresh_wf, lemma_purged, lemma_removed_wf, with_record, without_record,
    StoreModel,
};
use crate::value::int_value;
use crate::table::{has_key, lemma_put, lemma_take, lookup, Entry};
use bson::Bson;
use std::sync::Arc;
use vstd::prelude::*;

verus! {

/// In a consistent store every entry with a deadline has its record in the
/// index, under its deadline and id; every record belongs to an entry with
/// that deadline and id; so no entry has two records and no record is
/// stale.
pub proof fn lemma_index_matches_table(s: StoreModel)
    requires
        s.wf(),
    ensures
        forall|k: Key, e: Entry, t: u64|
            lookup(s.table, k) == Some(e) && e.expires_at == Some(t) ==> s.deadlines.contains_key(
                (t, e.id),
            ) && s.deadlines[(t, e.id)] == k,
        forall|r: (u64, u64)| #[trigger]
            s.deadlines.contains_key(r) ==> (lookup(s.table, s.deadlines[r]) matches Some(e)
                && e.id == r.1 && e.expires_at == Some(r.0)),
        forall|r: (u64, u64), q: (u64, u64)|
            s.deadlines.contains_key(r) && s.deadlines.contains_key(q) && s.deadlines[r]
                == s.deadlines[q] ==> r == q,
{
    assert forall|k: Key, e: Entry, t: u64|
        lookup(s.table, k) == Some(e) && e.expires_at == Some(t) implies s.deadlines.contains_key(
        (t, e.id),
    ) && s.deadlines[(t, e.id)] == k by {}
}

/// The ids of the entries of a consistent store are pairwise distinct and
/// below the next id; a write issues exactly the next id and moves the
/// next id up by one.
pub proof fn lemma_ids_distinct_and_increasing(
    s: StoreModel,
    key: Key,
    data: Arc<Bson>,
    when: Option<u64>,
)
    requires
        s.wf(),
        s.next_id < u64::MAX,
    ensures
        forall|k: Key| (#[trigger] lookup(s.table, k)) matches Some(e) ==> e.id < s.next_id,
        forall|a: Key, b: Key|
            #![trigger lookup(s.table, a), lookup(s.table, b)]
            a != b && lookup(s.table, a).is_some() && lookup(s.table, b).is_some() ==> lookup(
                s.table,
                a,
            ).unwrap().id != lookup(s.table, b).unwrap().id,
        lookup(s.fresh(key, data, when).table, key) == Some(
            Entry { id: s.next_id, data, expires_at: when },
        ),
        s.fresh(key, data, when).next_id == s.next_id + 1,
        forall|o: Key|
            o != key ==> ((#[trigger] lookup(s.fresh(key, data, when).table, o)) matches Some(e)
                ==> e.id < s.next_id),
        s.fresh(key, data, when).wf(),
{
    lemma_fresh_wf(s, key, data, when);
    lemma_put(s.table, key, Entry { id: s.next_id, data, expires_at: when });
}

/// No write, removal or counter operation clears the shutdown flag or
/// lowers the next id, so an id that was issued is never issued again.
pub proof fn lemma_flag_and_ids_are_kept(
    s: StoreModel,
    key: Key,
    data: Arc<Bson>,
    when: Option<u64>,
    amount: i64,
    down: bool,
    initial: i64,
)
    requires
        s.wf(),
        s.next_id < u64::MAX,
    ensures
        s.fresh(key, data, when).shutdown == s.shutdown,
        s.kept(key, data).shutdown == s.shutdown,
        s.removed(key).shutdown == s.shutdown,
        s.counted(key, amount, down, initial).shutdown == s.shutdown,
        s.fresh(key, data, when).next_id > s.next_id,
        s.kept(key, data).next_id == s.next_id,
        s.removed(key).next_id == s.next_id,
        s.counted(key, amount, down, initial).next_id >= s.next_id,
{
}

/// A value that was set is the value that is read; of two writes the later
/// one is read; and after a plain write the key has no deadline and no
/// record in the index, whatever deadline it had before.
pub proof fn lemma_set_then_get(s: StoreModel, key: Key, first: Bson, second: Bson)
    requires
        s.wf(),
        s.next_id + 2 <= u64::MAX,
    ensures
        s.fresh(key, Arc::new(first), None).value_of(key) == Some(Arc::new(first)),
        s.fresh(key, Arc::new(first), None).fresh(key, Arc::new(second), None).value_of(key)
            == Some(Arc::new(second)),
        s.fresh(key, Arc::new(first), None).deadline_of(key).is_none(),
        forall|r: (u64, u64)|
            #![trigger s.fresh(key, Arc::new(first), None).deadlines.contains_key(r)]
            s.fresh(key, Arc::new(first), None).deadlines.contains_key(r) ==> s.fresh(
                key,
                Arc::new(first),
                None,
            ).deadlines[r] != key,
{
    let a = s.fresh(key, Arc::new(first), None);
    lemma_fresh_wf(s, key, Arc::new(first), None);
    lemma_put(s.table, key, Entry { id: s.next_id, data: Arc::new(first), expires_at: None });
    lemma_put(a.table, key, Entry { id: a.next_id, data: Arc::new(second), expires_at: None });
}

/// Purging removes the entries that are due and no others: afterwards no
/// entry is due, and an entry that was not due has the value it had.
pub proof fn lemma_purge_removes_due_entries(s: StoreModel, now: u64, key: Key)
    requires
        s.wf(),
    ensures
        s.due(key, now) ==> s.purged(now).value_of(key).is_none(),
        !s.due(key, now) ==> s.purged(now).value_of(key) == s.value_of(key),
        !s.purged(now).due(key, now),
{
    lemma_purged(s, now);
    assert(lookup(s.purged(now).table, key) == if s.due(key, now) {
        None
    } else {
        lookup(s.table, key)
    });
}

/// A value written with a deadline is read until a purge at or after the
/// deadline, and is gone after such a purge.
pub proof fn lemma_entry_lives_until_its_deadline(
    s: StoreModel,
    key: Key,
    data: Arc<Bson>,
    due_at: u64,
    now: u64,
)
    requires
        s.wf(),
        s.next_id < u64::MAX,
    ensures
        s.fresh(key, data, Some(due_at)).value_of(key) == Some(data),
        now < due_at ==> s.fresh(key, data, Some(due_at)).purged(now).value_of(key) == Some(data),
        due_at <= now ==> s.fresh(key, data, Some(due_at)).purged(now).value_of(key).is_none(),
{
    let a = s.fresh(key, data, Some(due_at));
    lemma_fresh_wf(s, key, data, Some(due_at));
    lemma_put(s.table, key, Entry { id: s.next_id, data, expires_at: Some(due_at) });
    lemma_purge_removes_due_entries(a, now, key);
}

/// A write keeps the table and the index in step. The index loses the
/// record that the key had, if any, and gains the one record of the new
/// entry, under its deadline and the id just issued, if it has a deadline;
/// afterwards no other record names the key.
pub proof fn lemma_write_updates_index(s: StoreModel, key: Key, data: Arc<Bson>, due_at: Option<u64>)
    requires
        s.wf(),
        s.next_id < u64::MAX,
    ensures
        s.fresh(key, data, due_at).wf(),
        s.fresh(key, data, due_at).deadlines == with_record(
            without_record(s.deadlines, lookup(s.table, key)),
            due_at,
            s.next_id,
            key,
        ),
        !has_key(s.table, key) ==> s.fresh(key, data, due_at).deadlines == with_record(
            s.deadlines,
            due_at,
            s.next_id,
            key,
        ),
        due_at matches Some(t) ==> s.fresh(key, data, due_at).deadlines.contains_key((t, s.next_id))
            && s.fresh(key, data, due_at).deadlines[(t, s.next_id)] == key,
        forall|r: (u64, u64)|
            #![trigger s.fresh(key, data, due_at).deadlines.contains_key(r)]
            s.fresh(key, data, due_at).deadlines.contains_key(r) && s.fresh(
                key,
                data,
                due_at,
            ).deadlines[r] == key ==> due_at == Some(r.0) && r.1 == s.next_id,
{
    lemma_fresh_wf(s, key, data, due_at);
    lemma_put(s.table, key, Entry { id: s.next_id, data, expires_at: due_at });
}

/// A plain write to a key drops exactly the record that the key had: the
/// new entry has the id just issued and no deadline, no record names the
/// key, and a purge at any tick leaves the value in place.
pub proof fn lemma_set_clears_deadline(s: StoreModel, key: Key, value: Bson, now: u64)
    requires
        s.wf(),
        s.next_id < u64::MAX,
    ensures
        lookup(s.fresh(key, Arc::new(value), None).table, key) == Some(
            Entry { id: s.next_id, data: Arc::new(value), expires_at: None },
        ),
        s.fresh(key, Arc::new(value), None).deadlines == without_record(
            s.deadlines,
            lookup(s.table, key),
        ),
        forall|r: (u64, u64)|
            #![trigger s.fresh(key, Arc::new(value), None).deadlines.contains_key(r)]
            s.fresh(key, Arc::new(value), None).deadlines.contains_key(r) ==> s.fresh(
                key,
                Arc::new(value),
                None,
            ).deadlines[r] != key,
        s.fresh(key, Arc::new(value), None).purged(now).value_of(key) == Some(Arc::new(value)),
{
    let a = s.fresh(key, Arc::new(value), None);
    lemma_write_updates_index(s, key, Arc::new(value), None);
    lemma_put(s.table, key, Entry { id: s.next_id, data: Arc::new(value), expires_at: None });
    lemma_purge_removes_due_entries(a, now, key);
}

/// A conditional write to a key that has an entry changes nothing: the
/// value, the id, the deadline, the order and the index stay as they were,
/// whatever value and deadline were offered.
pub proof fn lemma_setnx_keeps_present_key(
    s: StoreModel,
    key: Key,
    data: Arc<Bson>,
    when: Option<u64>,
)
    requires
        has_key(s.table, key),
    ensures
        s.fresh_if_absent(key, data, when) == s,
        s.fresh_if_absent(key, data, when).value_of(key) == s.value_of(key),
        s.fresh_if_absent(key, data, when).deadline_of(key) == s.deadline_of(key),
{
}

/// A conditional write of several pairs is all or nothing: where one of
/// the keys has an entry the store stays as it was, so that no key of the
/// batch is written; where none has, every pair is written in turn.
pub proof fn lemma_msetnx_is_all_or_nothing(s: StoreModel, pairs: Seq<(Key, Bson)>)
    ensures
        any_present(s.table, pairs) ==> s.fresh_all_if_absent(pairs) == s,
        !any_present(s.table, pairs) ==> s.fresh_all_if_absent(pairs) == s.fresh_all(pairs),
        any_present(s.table, pairs) ==> forall|k: Key|
            #![trigger s.fresh_all_if_absent(pairs).value_of(k)]
            s.fresh_all_if_absent(pairs).value_of(k) == s.value_of(k)
                && s.fresh_all_if_absent(pairs).deadline_of(k) == s.deadline_of(k),
{
}

/// A counter operation fails exactly where the key holds a value that is
/// not an integer; the failure is the wrong-type error and the store stays
/// as it was. On a key without an entry it returns the initial value and
/// stores it as a new entry without a deadline.
pub proof fn lemma_count_fails_only_on_wrong_type(
    s: StoreModel,
    key: Key,
    amount: i64,
    down: bool,
    initial: i64,
)
    ensures
        s.count_result(key, amount, down, initial).is_err() <==> has_key(s.table, key) && s.int_at(
            key,
        ).is_none(),
        s.count_result(key, amount, down, initial).is_err() ==> s.count_result(
            key,
            amount,
            down,
            initial,
        ) == Err::<i64, EiffelError>(EiffelError::WrongType) && s.counted(
            key,
            amount,
            down,
            initial,
        ) == s,
        !has_key(s.table, key) ==> s.count_result(key, amount, down, initial) == Ok::<
            i64,
            EiffelError,
        >(initial) && s.counted(key, amount, down, initial) == s.fresh(
            key,
            Arc::new(int_value(initial)),
            None,
        ),
{
}

/// Once a key has been written it is present, so that of any number of
/// conditional writes to a missing key exactly the first one writes.
pub proof fn lemma_written_key_is_present(
    s: StoreModel,
    key: Key,
    data: Arc<Bson>,
    when: Option<u64>,
)
    requires
        s.wf(),
    ensures
        has_key(s.fresh(key, data, when).table, key),
        s.fresh(key, data, when).value_of(key) == Some(data),
        s.fresh(key, data, when).deadline_of(key) == when,
{
    lemma_put(s.table, key, Entry { id: s.next_id, data, expires_at: when });
}

/// A deleted key has no value, and no record in the index names it: the
/// record that it had is gone.
pub proof fn lemma_del_then_get(s: StoreModel, key: Key)
    requires
        s.wf(),
    ensures
        s.removed(key).value_of(key).is_none(),
        forall|r: (u64, u64)|
            #![trigger s.removed(key).deadlines.contains_key(r)]
            s.removed(key).deadlines.contains_key(r) ==> s.removed(key).deadlines[r] != key,
        lookup(s.table, key) matches Some(e) ==> (e.expires_at matches Some(t)
            ==> !s.removed(key).deadlines.contains_key((t, e.id))),
        forall|o: Key| o != key ==> #[trigger] s.removed(key).value_of(o) == s.value_of(o),
{
    lemma_take(s.table, key);
    lemma_removed_wf(s, key);
}

} // verus!
