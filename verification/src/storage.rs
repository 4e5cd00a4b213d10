//! The store: the value table and the deadline index, kept in step.
//!
//! A store is owned by one caller at a time; whoever shares it puts it
//! behind a lock and passes the present tick to the operations that need
//! it. Ticks are any unit of time that only grows.

use crate::deadlines::{
    add_record, drop_record, earliest, empty_index, first_record, is_first, lemma_first_is_unique,
    lemma_has_first,
    no_later,
};
use crate::error::EiffelError;
use crate::key::Key;
use crate::table::{
    distinct_keys, has_key, lemma_put, lemma_take, lookup, put, rows,
    table_get, table_get_index, table_insert, table_len, table_new, table_shift_remove, take,
    Entry,
};
use crate::value::{as_int, from_int, int_of, int_value};
use bson::Bson;
use indexmap::IndexMap;
use std::collections::BTreeMap;
use std::sync::Arc;
use vstd::prelude::*;

verus! {

/// The index `d` without the record of `prev`, where `prev` is an entry
/// with a deadline.
pub open spec fn without_record(d: Map<(u64, u64), Key>, prev: Option<Entry>) -> Map<
    (u64, u64),
    Key,
> {
    match prev {
        Some(e) => match e.expires_at {
            Some(t) => d.remove((t, e.id)),
            None => d,
        },
        None => d,
    }
}

/// The index `d` with a record for the entry `id` of `key`, where it has a
/// deadline.
pub open spec fn with_record(d: Map<(u64, u64), Key>, when: Option<u64>, id: u64, key: Key) -> Map<
    (u64, u64),
    Key,
> {
    match when {
        Some(t) => d.insert((t, id), key),
        None => d,
    }
}

/// The tick at which an entry written at `now` with the time to live
/// `expire` falls due.
pub open spec fn deadline(now: u64, expire: Option<u64>) -> Option<u64> {
    match expire {
        Some(d) => Some((now + d) as u64),
        None => None,
    }
}

/// Whether `t` is the least deadline in the index.
pub open spec fn is_earliest(d: Map<(u64, u64), Key>, t: u64) -> bool {
    &&& exists|id: u64| #[trigger] d.contains_key((t, id))
    &&& forall|r: (u64, u64)| #[trigger] d.contains_key(r) ==> t <= r.0
}

/// Whether the deadline `when` comes before every deadline in the index,
/// so that whoever waits for the earliest one has to be woken.
pub open spec fn sooner(d: Map<(u64, u64), Key>, when: Option<u64>) -> bool {
    when matches Some(t) && forall|r: (u64, u64)| #[trigger] d.contains_key(r) ==> r.0 > t
}

/// The records of the index that fall due after `now`.
pub open spec fn later_than(d: Map<(u64, u64), Key>, now: u64) -> Map<(u64, u64), Key> {
    Map::new(|r: (u64, u64)| d.contains_key(r) && r.0 > now, |r: (u64, u64)| d[r])
}

/// The values found under `keys`, in the order of the keys; a key without
/// an entry gives none.
pub open spec fn found(table: Seq<(Key, Entry)>, keys: Seq<Key>) -> Seq<Arc<Bson>>
    decreases keys.len(),
{
    if keys.len() == 0 {
        Seq::empty()
    } else {
        let rest = found(table, keys.drop_last());
        match lookup(table, keys.last()) {
            Some(e) => rest.push(e.data),
            None => rest,
        }
    }
}

/// Whether some pair has a key that the table holds.
pub open spec fn any_present(table: Seq<(Key, Entry)>, pairs: Seq<(Key, Bson)>) -> bool {
    exists|i: int| 0 <= i < pairs.len() && has_key(table, (#[trigger] pairs[i]).0)
}

/// A counter `c` moved by `amount`, down or up.
pub open spec fn stepped(c: i64, amount: i64, down: bool) -> int {
    if down {
        c - amount
    } else {
        c + amount
    }
}

/// A counter operation.
#[derive(Debug, Clone, Copy, PartialEq, Eq, Structural)]
pub enum CounterOp {
    /// Up by one.
    Incr,
    /// Up by the given amount.
    IncrBy(i64),
    /// Down by one.
    Decr,
    /// Down by the given amount.
    DecrBy(i64),
}

impl CounterOp {
    /// The amount by which the operation moves a counter.
    pub open spec fn amount(self) -> i64 {
        match self {
            CounterOp::Incr => 1,
            CounterOp::IncrBy(n) => n,
            CounterOp::Decr => 1,
            CounterOp::DecrBy(n) => n,
        }
    }

    /// Whether the operation moves a counter down.
    pub open spec fn down(self) -> bool {
        self is Decr || self is DecrBy
    }

    /// The value at which the operation starts a missing counter.
    pub open spec fn initial(self) -> i64 {
        match self {
            CounterOp::Incr => 0,
            CounterOp::IncrBy(n) => n,
            CounterOp::Decr => 0,
            CounterOp::DecrBy(n) => n,
        }
    }
}

/// Whether `c` moved by `amount` is a 64-bit signed integer.
fn step_fits(c: i64, amount: i64, down: bool) -> (b: bool)
    ensures
        b == (i64::MIN <= stepped(c, amount, down) <= i64::MAX),
{
    if down {
        if amount >= 0 {
            c >= i64::MIN + amount
        } else {
            c <= i64::MAX + amount
        }
    } else {
        if amount >= 0 {
            c <= i64::MAX - amount
        } else {
            c >= i64::MIN - amount
        }
    }
}

/// What a store holds, as plain mathematical values. The contracts of
/// `DataStore` are stated over this model.
pub struct StoreModel {
    /// The rows of the value table, in the order of their positions.
    pub table: Seq<(Key, Entry)>,
    /// The deadline index.
    pub deadlines: Map<(u64, u64), Key>,
    /// The id that the next new entry gets.
    pub next_id: u64,
    /// Whether purging has been stopped.
    pub shutdown: bool,
}

impl StoreModel {
    /// The table and the index agree: every entry with a deadline has its
    /// record, every record has its entry, and every id was issued once.
    pub open spec fn wf(self) -> bool {
        &&& distinct_keys(self.table)
        &&& self.deadlines.dom().finite()
        &&& forall|k: Key|
            (#[trigger] lookup(self.table, k)) matches Some(e) ==> e.id < self.next_id && (
            e.expires_at matches Some(t) ==> self.deadlines.contains_key((t, e.id))
                && self.deadlines[(t, e.id)] == k)
        &&& forall|r: (u64, u64)| #[trigger]
            self.deadlines.contains_key(r) ==> (lookup(self.table, self.deadlines[r]) matches Some(
                e,
            ) && e.id == r.1 && e.expires_at == Some(r.0))
        &&& forall|a: Key, b: Key|
            #![trigger lookup(self.table, a), lookup(self.table, b)]
            a != b && lookup(self.table, a).is_some() && lookup(self.table, b).is_some()
                ==> lookup(self.table, a).unwrap().id != lookup(self.table, b).unwrap().id
    }

    /// The value stored under `k`, if any.
    pub open spec fn value_of(self, k: Key) -> Option<Arc<Bson>> {
        match lookup(self.table, k) {
            Some(e) => Some(e.data),
            None => None,
        }
    }

    /// The deadline of the entry under `k`, if it has one.
    pub open spec fn deadline_of(self, k: Key) -> Option<u64> {
        match lookup(self.table, k) {
            Some(e) => e.expires_at,
            None => None,
        }
    }

    /// The store after writing a new generation of `key`: it gets the next
    /// id and the deadline `when`, and the record of the former generation
    /// is gone.
    pub open spec fn fresh(self, key: Key, data: Arc<Bson>, when: Option<u64>) -> StoreModel {
        StoreModel {
            table: put(self.table, key, Entry { id: self.next_id, data, expires_at: when }),
            deadlines: with_record(
                without_record(self.deadlines, lookup(self.table, key)),
                when,
                self.next_id,
                key,
            ),
            next_id: (self.next_id + 1) as u64,
            shutdown: self.shutdown,
        }
    }

    /// The store after a conditional write: as `fresh` where `key` has no
    /// entry, unchanged where it has one.
    pub open spec fn fresh_if_absent(self, key: Key, data: Arc<Bson>, when: Option<u64>) -> StoreModel {
        if has_key(self.table, key) {
            self
        } else {
            self.fresh(key, data, when)
        }
    }

    /// The store after replacing the value of an entry that keeps its id
    /// and deadline.
    pub open spec fn kept(self, key: Key, data: Arc<Bson>) -> StoreModel {
        let e = lookup(self.table, key).unwrap();
        StoreModel {
            table: put(self.table, key, Entry { id: e.id, data, expires_at: e.expires_at }),
            ..self
        }
    }

    /// The store after removing `key` with its record.
    pub open spec fn removed(self, key: Key) -> StoreModel {
        StoreModel {
            table: take(self.table, key),
            deadlines: without_record(self.deadlines, lookup(self.table, key)),
            ..self
        }
    }

    /// The store after writing each pair in turn, each without a deadline.
    pub open spec fn fresh_all(self, pairs: Seq<(Key, Bson)>) -> StoreModel
        decreases pairs.len(),
    {
        if pairs.len() == 0 {
            self
        } else {
            self.fresh_all(pairs.drop_last()).fresh(
                pairs.last().0,
                Arc::new(pairs.last().1),
                None,
            )
        }
    }

    /// The store after purging at `now`: as long as the first record of
    /// the index is due, its entry and the record are removed.
    pub open spec fn purged(self, now: u64) -> StoreModel
        decreases self.deadlines.len(),
    {
        let r = first_record(self.deadlines);
        if self.deadlines.dom().finite() && is_first(self.deadlines, r) && r.0 <= now {
            (StoreModel {
                table: take(self.table, self.deadlines[r]),
                deadlines: self.deadlines.remove(r),
                ..self
            }).purged(now)
        } else {
            self
        }
    }

    /// The store after a conditional write of several pairs: as
    /// `fresh_all` where none of the keys has an entry, unchanged where
    /// one has.
    pub open spec fn fresh_all_if_absent(self, pairs: Seq<(Key, Bson)>) -> StoreModel {
        if any_present(self.table, pairs) {
            self
        } else {
            self.fresh_all(pairs)
        }
    }

    /// Whether the entry under `k` is due at `now`.
    pub open spec fn due(self, k: Key, now: u64) -> bool {
        self.deadline_of(k) matches Some(t) && t <= now
    }

    /// The integer stored under `k`, if the value there is one.
    pub open spec fn int_at(self, k: Key) -> Option<i64> {
        match lookup(self.table, k) {
            Some(e) => int_of(*e.data),
            None => None,
        }
    }

    /// Whether a counter operation on `key` stays within 64-bit signed
    /// integers and within the ids that are left.
    pub open spec fn count_fits(self, key: Key, amount: i64, down: bool) -> bool {
        match lookup(self.table, key) {
            Some(e) => int_of(*e.data) matches Some(c) ==> i64::MIN <= stepped(
                c,
                amount,
                down,
            ) <= i64::MAX,
            None => self.next_id < u64::MAX,
        }
    }

    /// The store after a counter operation on `key`. An integer entry moves
    /// by `amount` and keeps its id and deadline; an entry of another kind
    /// stays; a missing key starts at `initial`.
    pub open spec fn counted(self, key: Key, amount: i64, down: bool, initial: i64) -> StoreModel {
        match lookup(self.table, key) {
            Some(e) => match int_of(*e.data) {
                Some(c) => self.kept(key, Arc::new(int_value(stepped(c, amount, down) as i64))),
                None => self,
            },
            None => self.fresh(key, Arc::new(int_value(initial)), None),
        }
    }

    /// What a counter operation on `key` returns.
    pub open spec fn count_result(self, key: Key, amount: i64, down: bool, initial: i64) -> Result<
        i64,
        EiffelError,
    > {
        match lookup(self.table, key) {
            Some(e) => match int_of(*e.data) {
                Some(c) => Ok(stepped(c, amount, down) as i64),
                None => Err(EiffelError::WrongType),
            },
            None => Ok(initial),
        }
    }
}

/// Writing pairs in turn issues one id for each.
pub proof fn lemma_fresh_all_wf(s: StoreModel, pairs: Seq<(Key, Bson)>)
    requires
        s.wf(),
        s.next_id + pairs.len() <= u64::MAX,
    ensures
        s.fresh_all(pairs).wf(),
        s.fresh_all(pairs).next_id == s.next_id + pairs.len(),
        s.fresh_all(pairs).shutdown == s.shutdown,
    decreases pairs.len(),
{
    if pairs.len() > 0 {
        lemma_fresh_all_wf(s, pairs.drop_last());
        lemma_fresh_wf(
            s.fresh_all(pairs.drop_last()),
            pairs.last().0,
            Arc::new(pairs.last().1),
            None,
        );
    }
}

/// Writing a new generation keeps a store consistent.
pub proof fn lemma_fresh_wf(s: StoreModel, key: Key, data: Arc<Bson>, when: Option<u64>)
    requires
        s.wf(),
        s.next_id < u64::MAX,
    ensures
        s.fresh(key, data, when).wf(),
{
    let e = Entry { id: s.next_id, data, expires_at: when };
    lemma_put(s.table, key, e);
}

/// Replacing a value in place keeps a store consistent.
pub proof fn lemma_kept_wf(s: StoreModel, key: Key, data: Arc<Bson>)
    requires
        s.wf(),
        has_key(s.table, key),
    ensures
        s.kept(key, data).wf(),
{
    let e = lookup(s.table, key).unwrap();
    lemma_put(s.table, key, Entry { id: e.id, data, expires_at: e.expires_at });
}

/// A counter operation keeps a store consistent.
pub proof fn lemma_counted_wf(s: StoreModel, key: Key, amount: i64, down: bool, initial: i64)
    requires
        s.wf(),
        s.count_fits(key, amount, down),
    ensures
        s.counted(key, amount, down, initial).wf(),
{
    if has_key(s.table, key) {
        if let Some(c) = s.int_at(key) {
            lemma_kept_wf(s, key, Arc::new(int_value(stepped(c, amount, down) as i64)));
        }
    } else {
        lemma_fresh_wf(s, key, Arc::new(int_value(initial)), None);
    }
}

/// Purging keeps a store consistent, its id counter and its flag. It
/// removes exactly the entries that are due and leaves every other entry
/// as it was, and the index keeps exactly the records of later deadlines.
pub proof fn lemma_purged(s: StoreModel, now: u64)
    requires
        s.wf(),
    ensures
        s.purged(now).wf(),
        s.purged(now).next_id == s.next_id,
        s.purged(now).shutdown == s.shutdown,
        forall|k: Key| #[trigger]
            lookup(s.purged(now).table, k) == if s.due(k, now) {
                None
            } else {
                lookup(s.table, k)
            },
        s.purged(now).deadlines == later_than(s.deadlines, now),
    decreases s.deadlines.len(),
{
    let r = first_record(s.deadlines);
    if is_first(s.deadlines, r) && r.0 <= now {
        let k = s.deadlines[r];
        let next = StoreModel {
            table: take(s.table, k),
            deadlines: s.deadlines.remove(r),
            ..s
        };
        lemma_take(s.table, k);
        lemma_removed_wf(s, k);
        assert(next.deadlines =~= s.removed(k).deadlines);
        assert(next == s.removed(k));
        lemma_purged(next, now);
        assert(later_than(next.deadlines, now) =~= later_than(s.deadlines, now));
        assert forall|o: Key| #[trigger]
            lookup(s.purged(now).table, o) == if s.due(o, now) {
                None
            } else {
                lookup(s.table, o)
            } by {
            if o == k {
                assert(lookup(next.table, o).is_none());
            } else {
                assert(lookup(next.table, o) == lookup(s.table, o));
            }
        }
    } else {
        assert forall|o: (u64, u64)| #[trigger] s.deadlines.contains_key(o) implies o.0 > now by {
            assert(s.deadlines.dom().contains(o));
            lemma_has_first(s.deadlines);
            assert(no_later(r, o));
        }
        assert(s.deadlines =~= later_than(s.deadlines, now));
    }
}

/// Removing a key keeps a store consistent.
pub proof fn lemma_removed_wf(s: StoreModel, key: Key)
    requires
        s.wf(),
    ensures
        s.removed(key).wf(),
{
    lemma_take(s.table, key);
}

/// The store: entries by key in insertion order, the index of their
/// deadlines, the id counter and the shutdown flag.
pub struct DataStore {
    entries: IndexMap<Key, Entry>,
    expirations: BTreeMap<(u64, u64), Key>,
    next_id: u64,
    shutdown: bool,
}

impl View for DataStore {
    type V = StoreModel;

    closed spec fn view(&self) -> StoreModel {
        StoreModel {
            table: rows(self.entries),
            deadlines: self.expirations@,
            next_id: self.next_id,
            shutdown: self.shutdown,
        }
    }
}

impl DataStore {
    /// The table and the index of the store agree.
    pub open spec fn wf(&self) -> bool {
        self@.wf()
    }

    /// An empty store that issues ids from zero.
    pub fn new() -> (s: DataStore)
        ensures
            s.wf(),
            s@ == (StoreModel {
                table: Seq::empty(),
                deadlines: Map::empty(),
                next_id: 0,
                shutdown: false,
            }),
    {
        DataStore {
            entries: table_new(),
            expirations: empty_index(),
            next_id: 0,
            shutdown: false,
        }
    }

    /// Writes a new generation of `key` with the deadline `when`.
    fn write(&mut self, key: Key, value: Bson, when: Option<u64>)
        requires
            old(self).wf(),
            old(self)@.next_id < u64::MAX,
        ensures
            final(self).wf(),
            final(self)@ == old(self)@.fresh(key, Arc::new(value), when),
    {
        let id = self.next_id;
        self.next_id = id + 1;
        if let Some(t) = when {
            add_record(&mut self.expirations, t, id, key.clone());
        }
        let data = Arc::new(value);
        let ghost k = key;
        let prev = table_insert(&mut self.entries, key, Entry { id, data, expires_at: when });
        if let Some(prev) = prev {
            if let Some(t) = prev.expires_at {
                drop_record(&mut self.expirations, t, prev.id);
            }
        }
        proof {
            lemma_fresh_wf(old(self)@, k, Arc::new(value), when);
            assert(self@.deadlines =~= old(self)@.fresh(k, Arc::new(value), when).deadlines);
        }
    }

    /// Sets the value at `key`. The entry is a new generation without a
    /// deadline.
    pub fn set(&mut self, key: Key, value: Bson)
        requires
            old(self).wf(),
            old(self)@.next_id < u64::MAX,
        ensures
            final(self).wf(),
            final(self)@ == old(self)@.fresh(key, Arc::new(value), None),
    {
        self.write(key, value, None);
    }

    /// The value at `key`, whether or not its deadline has passed.
    pub fn get(&self, key: &Key) -> (r: Option<Arc<Bson>>)
        ensures
            r == self@.value_of(*key),
    {
        match table_get(&self.entries, key) {
            Some(entry) => Some(entry.data.clone()),
            None => None,
        }
    }

    /// Sets the value at `key` and returns the former one. An entry that
    /// was there keeps its id and deadline.
    pub fn getset(&mut self, key: Key, value: Bson) -> (prev: Option<Arc<Bson>>)
        requires
            old(self).wf(),
            !has_key(old(self)@.table, key) ==> old(self)@.next_id < u64::MAX,
        ensures
            final(self).wf(),
            prev == old(self)@.value_of(key),
            final(self)@ == if has_key(old(self)@.table, key) {
                old(self)@.kept(key, Arc::new(value))
            } else {
                old(self)@.fresh(key, Arc::new(value), None)
            },
    {
        let ghost k = key;
        let (id, expires_at) = match table_get(&self.entries, &key) {
            Some(entry) => (entry.id, entry.expires_at),
            None => {
                let id = self.next_id;
                self.next_id = id + 1;
                (id, None)
            },
        };
        let data = Arc::new(value);
        let prev = table_insert(&mut self.entries, key, Entry { id, data, expires_at });
        proof {
            if has_key(old(self)@.table, k) {
                lemma_kept_wf(old(self)@, k, Arc::new(value));
            } else {
                lemma_fresh_wf(old(self)@, k, Arc::new(value), None);
            }
        }
        match prev {
            Some(entry) => Some(entry.data),
            None => None,
        }
    }

    /// The values of the keys that have one, in the order of `keys`.
    pub fn mget(&self, keys: &[Key]) -> (result: Vec<Arc<Bson>>)
        ensures
            result@ == found(self@.table, keys@),
    {
        let mut result: Vec<Arc<Bson>> = Vec::with_capacity(keys.len());
        let mut i: usize = 0;
        while i < keys.len()
            invariant
                i <= keys.len(),
                result@ == found(self@.table, keys@.take(i as int)),
            decreases keys.len() - i,
        {
            proof {
                assert(keys@.take(i + 1).drop_last() =~= keys@.take(i as int));
            }
            if let Some(entry) = table_get(&self.entries, &keys[i]) {
                result.push(entry.data.clone());
            }
            i = i + 1;
        }
        proof {
            assert(keys@.take(i as int) =~= keys@);
        }
        result
    }

    /// The least deadline in the index, if it has a record.
    pub fn next_expiration(&self) -> (r: Option<u64>)
        ensures
            match r {
                Some(t) => is_earliest(self@.deadlines, t),
                None => forall|o: (u64, u64)| !#[trigger] self@.deadlines.contains_key(o),
            },
    {
        match earliest(&self.expirations) {
            Some(first) => {
                let t = first.0.0;
                assert(self@.deadlines.contains_key((t, first.0.1)));
                Some(t)
            },
            None => None,
        }
    }

    /// Sets the value at `key` with a time to live counted from `now`.
    /// Returns whether the new deadline comes before every deadline known
    /// so far, so that the purging task has to be woken.
    pub fn setex(&mut self, key: Key, value: Bson, expire: Option<u64>, now: u64) -> (notify: bool)
        requires
            old(self).wf(),
            old(self)@.next_id < u64::MAX,
            expire matches Some(d) ==> now + d <= u64::MAX,
        ensures
            final(self).wf(),
            final(self)@ == old(self)@.fresh(key, Arc::new(value), deadline(now, expire)),
            notify == sooner(old(self)@.deadlines, deadline(now, expire)),
    {
        let when = match expire {
            Some(d) => Some(now + d),
            None => None,
        };
        let notify = match when {
            Some(t) => match self.next_expiration() {
                Some(first) => first > t,
                None => true,
            },
            None => false,
        };
        self.write(key, value, when);
        notify
    }

    /// As `setex`, but only where `key` has no entry. Returns whether the
    /// value was written, and whether the purging task has to be woken.
    pub fn setnx(&mut self, key: Key, value: Bson, expire: Option<u64>, now: u64) -> (r: (
        bool,
        bool,
    ))
        requires
            old(self).wf(),
            !has_key(old(self)@.table, key) ==> old(self)@.next_id < u64::MAX && (
            expire matches Some(d) ==> now + d <= u64::MAX),
        ensures
            final(self).wf(),
            r.0 == !has_key(old(self)@.table, key),
            r.1 == (r.0 && sooner(old(self)@.deadlines, deadline(now, expire))),
            final(self)@ == old(self)@.fresh_if_absent(
                key,
                Arc::new(value),
                deadline(now, expire),
            ),
    {
        if table_get(&self.entries, &key).is_some() {
            return (false, false);
        }
        let notify = self.setex(key, value, expire, now);
        (true, notify)
    }

    /// Writes each pair in turn.
    fn write_all(&mut self, kvs: Vec<(Key, Bson)>)
        requires
            old(self).wf(),
            old(self)@.next_id + kvs.len() <= u64::MAX,
        ensures
            final(self).wf(),
            final(self)@ == old(self)@.fresh_all(kvs@),
    {
        let ghost pairs = kvs@;
        let ghost start = self@;
        for pair in it: kvs.into_iter()
            invariant
                it.seq() == pairs,
                start.wf(),
                start.next_id + pairs.len() <= u64::MAX,
                self.wf(),
                self@ == start.fresh_all(pairs.take(it.index() as int)),
        {
            proof {
                let n = it.index() as int;
                assert(pairs.take(n + 1).drop_last() =~= pairs.take(n));
                lemma_fresh_all_wf(start, pairs.take(n));
            }
            let (key, value) = pair;
            self.write(key, value, None);
        }
        proof {
            assert(pairs.take(pairs.len() as int) =~= pairs);
        }
    }

    /// Sets each key to its value in the order of the pairs, each entry a
    /// new generation without a deadline.
    pub fn mset(&mut self, kvs: Vec<(Key, Bson)>)
        requires
            old(self).wf(),
            old(self)@.next_id + kvs.len() <= u64::MAX,
        ensures
            final(self).wf(),
            final(self)@ == old(self)@.fresh_all(kvs@),
    {
        self.write_all(kvs);
    }

    /// Sets each key to its value, but only where none of the keys has an
    /// entry. Returns whether the pairs were written.
    pub fn msetnx(&mut self, kvs: Vec<(Key, Bson)>) -> (written: bool)
        requires
            old(self).wf(),
            !any_present(old(self)@.table, kvs@) ==> old(self)@.next_id + kvs.len() <= u64::MAX,
        ensures
            final(self).wf(),
            written == !any_present(old(self)@.table, kvs@),
            final(self)@ == old(self)@.fresh_all_if_absent(kvs@),
    {
        let mut i: usize = 0;
        while i < kvs.len()
            invariant
                i <= kvs.len(),
                *self == *old(self),
                self.wf(),
                forall|j: int| 0 <= j < i ==> !has_key(self@.table, (#[trigger] kvs@[j]).0),
            decreases kvs.len() - i,
        {
            if table_get(&self.entries, &kvs[i].0).is_some() {
                return false;
            }
            i = i + 1;
        }
        self.write_all(kvs);
        true
    }

    /// The value at position `cursor` of the table.
    pub fn cursor(&self, cursor: usize) -> (r: Option<Arc<Bson>>)
        ensures
            r == if cursor < self@.table.len() {
                Some(self@.table[cursor as int].1.data)
            } else {
                None
            },
    {
        match table_get_index(&self.entries, cursor) {
            Some(row) => Some(row.1.data.clone()),
            None => None,
        }
    }

    /// Moves the counter at `key` by `amount`, or starts it at `initial`.
    fn count(&mut self, key: Key, amount: i64, down: bool, initial: i64) -> (r: Result<
        i64,
        EiffelError,
    >)
        requires
            old(self).wf(),
            old(self)@.count_fits(key, amount, down),
        ensures
            final(self).wf(),
            final(self)@ == old(self)@.counted(key, amount, down, initial),
            r == old(self)@.count_result(key, amount, down, initial),
            r matches Ok(c) ==> final(self)@.int_at(key) == Some(c),
    {
        let ghost k = key;
        match table_get(&self.entries, &key) {
            Some(entry) => {
                match as_int(&entry.data) {
                    None => Err(EiffelError::WrongType),
                    Some(counter) => {
                        let c = if down {
                            counter - amount
                        } else {
                            counter + amount
                        };
                        let id = entry.id;
                        let expires_at = entry.expires_at;
                        let data = Arc::new(from_int(c));
                        table_insert(&mut self.entries, key, Entry { id, data, expires_at });
                        proof {
                            lemma_kept_wf(old(self)@, k, Arc::new(int_value(c)));
                            lemma_put(old(self)@.table, k, Entry { id, data, expires_at });
                        }
                        Ok(c)
                    },
                }
            },
            None => {
                let value = from_int(initial);
                self.write(key, value, None);
                proof {
                    lemma_put(
                        old(self)@.table,
                        k,
                        Entry { id: old(self)@.next_id, data: Arc::new(value), expires_at: None },
                    );
                }
                Ok(initial)
            },
        }
    }

    /// Increments the integer at `key` by one. A missing key starts at 0,
    /// and 0 is returned.
    pub fn incr(&mut self, key: Key) -> (r: Result<i64, EiffelError>)
        requires
            old(self).wf(),
            old(self)@.count_fits(key, 1, false),
        ensures
            final(self).wf(),
            final(self)@ == old(self)@.counted(key, 1, false, 0),
            r == old(self)@.count_result(key, 1, false, 0),
            r matches Ok(c) ==> final(self)@.int_at(key) == Some(c),
    {
        self.count(key, 1, false, 0)
    }

    /// Increments the integer at `key` by `increment`. A missing key
    /// starts at `increment`.
    pub fn incr_by(&mut self, key: Key, increment: i64) -> (r: Result<i64, EiffelError>)
        requires
            old(self).wf(),
            old(self)@.count_fits(key, increment, false),
        ensures
            final(self).wf(),
            final(self)@ == old(self)@.counted(key, increment, false, increment),
            r == old(self)@.count_result(key, increment, false, increment),
            r matches Ok(c) ==> final(self)@.int_at(key) == Some(c),
    {
        self.count(key, increment, false, increment)
    }

    /// Decrements the integer at `key` by one. A missing key starts at 0,
    /// and 0 is returned.
    pub fn decr(&mut self, key: Key) -> (r: Result<i64, EiffelError>)
        requires
            old(self).wf(),
            old(self)@.count_fits(key, 1, true),
        ensures
            final(self).wf(),
            final(self)@ == old(self)@.counted(key, 1, true, 0),
            r == old(self)@.count_result(key, 1, true, 0),
            r matches Ok(c) ==> final(self)@.int_at(key) == Some(c),
    {
        self.count(key, 1, true, 0)
    }

    /// Decrements the integer at `key` by `decrement`. A missing key
    /// starts at `decrement` itself, not at its negation.
    pub fn decr_by(&mut self, key: Key, decrement: i64) -> (r: Result<i64, EiffelError>)
        requires
            old(self).wf(),
            old(self)@.count_fits(key, decrement, true),
        ensures
            final(self).wf(),
            final(self)@ == old(self)@.counted(key, decrement, true, decrement),
            r == old(self)@.count_result(key, decrement, true, decrement),
            r matches Ok(c) ==> final(self)@.int_at(key) == Some(c),
    {
        self.count(key, decrement, true, decrement)
    }

    /// Performs the counter operation `op` on `key` where its result is a
    /// 64-bit signed integer and, for a missing key, an id is left; else
    /// returns `None` and changes nothing.
    pub fn apply(&mut self, key: Key, op: CounterOp) -> (r: Option<Result<i64, EiffelError>>)
        requires
            old(self).wf(),
        ensures
            final(self).wf(),
            old(self)@.count_fits(key, op.amount(), op.down()) ==> r == Some(
                old(self)@.count_result(key, op.amount(), op.down(), op.initial()),
            ) && final(self)@ == old(self)@.counted(key, op.amount(), op.down(), op.initial()),
            !old(self)@.count_fits(key, op.amount(), op.down()) ==> r.is_none() && final(self)@
                == old(self)@,
    {
        let (amount, down) = match op {
            CounterOp::Incr => (1i64, false),
            CounterOp::IncrBy(n) => (n, false),
            CounterOp::Decr => (1i64, true),
            CounterOp::DecrBy(n) => (n, true),
        };
        let fits = match table_get(&self.entries, &key) {
            Some(entry) => match as_int(&entry.data) {
                Some(c) => step_fits(c, amount, down),
                None => true,
            },
            None => self.next_id < u64::MAX,
        };
        if !fits {
            return None;
        }
        Some(
            match op {
                CounterOp::Incr => self.incr(key),
                CounterOp::IncrBy(n) => self.incr_by(key, n),
                CounterOp::Decr => self.decr(key),
                CounterOp::DecrBy(n) => self.decr_by(key, n),
            },
        )
    }

    /// How many ids the store can still issue.
    pub fn ids_left(&self) -> (n: u64)
        ensures
            n == u64::MAX - self@.next_id,
    {
        u64::MAX - self.next_id
    }

    /// The number of entries.
    pub fn len(&self) -> (n: usize)
        ensures
            n == self@.table.len(),
    {
        table_len(&self.entries)
    }

    /// Removes the entry at `key` and its record in the index. The other
    /// entries keep their order.
    pub fn del(&mut self, key: &Key)
        requires
            old(self).wf(),
        ensures
            final(self).wf(),
            final(self)@ == old(self)@.removed(*key),
    {
        let entry = table_shift_remove(&mut self.entries, key);
        if let Some(entry) = entry {
            if let Some(when) = entry.expires_at {
                drop_record(&mut self.expirations, when, entry.id);
            }
        }
        proof {
            lemma_removed_wf(old(self)@, *key);
            assert(self@.deadlines =~= old(self)@.removed(*key).deadlines);
        }
    }

    /// Stops purging for good. The entries stay, and stay writable.
    pub fn shutdown_purge_task(&mut self)
        ensures
            final(self)@ == (StoreModel { shutdown: true, ..old(self)@ }),
            old(self).wf() ==> final(self).wf(),
    {
        self.shutdown = true;
    }

    /// Whether purging has been stopped.
    pub fn is_shutdown(&self) -> (r: bool)
        ensures
            r == self@.shutdown,
    {
        self.shutdown
    }

    /// Removes every entry that is due at `now`, in the order of the index,
    /// and returns the earliest deadline that is left. After a shutdown
    /// nothing is removed and `None` is returned.
    pub fn purge_expired_keys(&mut self, now: u64) -> (r: Option<u64>)
        requires
            old(self).wf(),
        ensures
            final(self).wf(),
            final(self)@.next_id == old(self)@.next_id,
            final(self)@.shutdown == old(self)@.shutdown,
            final(self)@ == if old(self)@.shutdown {
                old(self)@
            } else {
                old(self)@.purged(now)
            },
            old(self)@.shutdown ==> r.is_none(),
            !old(self)@.shutdown ==> {
                &&& forall|k: Key| #[trigger]
                    lookup(final(self)@.table, k) == if old(self)@.due(k, now) {
                        None
                    } else {
                        lookup(old(self)@.table, k)
                    }
                &&& final(self)@.deadlines == later_than(old(self)@.deadlines, now)
                &&& match r {
                    Some(t) => is_earliest(final(self)@.deadlines, t),
                    None => final(self)@.deadlines == Map::<(u64, u64), Key>::empty(),
                }
            },
    {
        if self.shutdown {
            return None;
        }
        loop
            invariant
                self.wf(),
                old(self).wf(),
                !old(self)@.shutdown,
                self@.purged(now) == old(self)@.purged(now),
            decreases self@.deadlines.len(),
        {
            let ghost before = self@;
            match earliest(&self.expirations) {
                None => {
                    proof {
                        assert(!is_first(before.deadlines, first_record(before.deadlines)));
                        assert(self@.deadlines =~= Map::<(u64, u64), Key>::empty());
                        lemma_purged(old(self)@, now);
                    }
                    return None;
                },
                Some(first) => {
                    let when = first.0.0;
                    let id = first.0.1;
                    proof {
                        lemma_first_is_unique(before.deadlines, (when, id));
                    }
                    if when > now {
                        proof {
                            assert(self@.deadlines.contains_key((when, id)));
                            assert forall|o: (u64, u64)| #[trigger]
                                self@.deadlines.contains_key(o) implies when <= o.0 by {
                                assert(no_later((when, id), o));
                            }
                            lemma_purged(old(self)@, now);
                        }
                        return Some(when);
                    }
                    let ghost k = *first.1;
                    table_shift_remove(&mut self.entries, first.1);
                    drop_record(&mut self.expirations, when, id);
                    proof {
                        lemma_removed_wf(before, k);
                        assert(self@.deadlines =~= before.removed(k).deadlines);
                        assert(self@ == before.removed(k));
                    }
                },
            }
        }
    }
}

} // verus!
