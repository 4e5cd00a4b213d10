//! The deadline index: records from (deadline, entry id) to the key of the
//! entry, ordered by deadline and then by id.

use crate::key::Key;
use std::collections::BTreeMap;
use vstd::std_specs::cmp::OrdSpec;
use vstd::std_specs::iter::IteratorSpec;
use vstd::prelude::*;
use vstd::std_specs::btree::increasing_seq;

verus! {

broadcast use {vstd::std_specs::btree::group_btree_axioms, vstd::laws_cmp::group_laws_cmp};

/// Whether the record `a` comes no later than `b`: by deadline, then by id.
pub open spec fn no_later(a: (u64, u64), b: (u64, u64)) -> bool {
    a.0 < b.0 || (a.0 == b.0 && a.1 <= b.1)
}

/// Whether `r` is the first record of the index: it is there, and no record
/// comes before it.
pub open spec fn is_first(d: Map<(u64, u64), Key>, r: (u64, u64)) -> bool {
    d.contains_key(r) && forall|o: (u64, u64)| #[trigger] d.contains_key(o) ==> no_later(r, o)
}

/// The first record of an index that has one.
pub open spec fn first_record(d: Map<(u64, u64), Key>) -> (u64, u64) {
    choose|r: (u64, u64)| is_first(d, r)
}

/// An index has one first record at most.
pub proof fn lemma_first_is_unique(d: Map<(u64, u64), Key>, r: (u64, u64))
    requires
        is_first(d, r),
    ensures
        first_record(d) == r,
{
    let q = first_record(d);
    assert(is_first(d, q));
    assert(no_later(q, r) && no_later(r, q));
}

/// A finite index with a record has a first record.
pub proof fn lemma_has_first(d: Map<(u64, u64), Key>)
    requires
        d.dom().finite(),
        d.dom().len() > 0,
    ensures
        is_first(d, first_record(d)),
    decreases d.dom().len(),
{
    let x = d.dom().choose();
    assert(d.contains_key(x));
    let rest = d.remove(x);
    if rest.dom().len() == 0 {
        assert forall|o: (u64, u64)| #[trigger] d.contains_key(o) implies no_later(x, o) by {
            if o != x {
                assert(rest.dom().contains(o));
            }
        }
        assert(is_first(d, x));
    } else {
        lemma_has_first(rest);
        let m = first_record(rest);
        assert(rest.contains_key(m));
        if no_later(x, m) {
            assert forall|o: (u64, u64)| #[trigger] d.contains_key(o) implies no_later(x, o) by {
                if o != x {
                    assert(rest.contains_key(o));
                    assert(no_later(m, o));
                }
            }
            assert(is_first(d, x));
        } else {
            assert forall|o: (u64, u64)| #[trigger] d.contains_key(o) implies no_later(m, o) by {
                if o != x {
                    assert(rest.contains_key(o));
                }
            }
            assert(is_first(d, m));
        }
    }
}

/// The first pair of the index in the order of its keys, `None` for an
/// empty index.
pub(crate) fn earliest<'a>(index: &'a BTreeMap<(u64, u64), Key>) -> (r: Option<
    (&'a (u64, u64), &'a Key),
>)
    ensures
        match r {
            Some(first) => is_first(index@, *first.0) && index@[*first.0] == *first.1,
            None => forall|o: (u64, u64)| !#[trigger] index@.contains_key(o),
        },
{
    for pair in records: index.iter()
        invariant
            records.index() == 0,
            records.seq().len() == index@.dom().len(),
            index@.dom().finite(),
            increasing_seq(records.seq().map_values(|kv: (&(u64, u64), &Key)| *kv.0)),
            forall|i: int|
                0 <= i < records.seq().len() ==> index@.contains_key(
                    *(#[trigger] records.seq()[i]).0,
                ) && index@[*records.seq()[i].0] == *records.seq()[i].1,
            forall|o: (u64, u64)| #[trigger]
                index@.contains_key(o) ==> records.seq().contains((&o, &index@[o])),
    {
        proof {
            let all = records.seq();
            let keys = all.map_values(|kv: (&(u64, u64), &Key)| *kv.0);
            assert(pair == all[0]);
            assert forall|o: (u64, u64)| #[trigger] index@.contains_key(o) implies no_later(
                *pair.0,
                o,
            ) by {
                let other = (&o, &index@[o]);
                assert(all.contains(other));
                let j = choose|j: int| 0 <= j < all.len() && all[j] == other;
                if j > 0 {
                    assert(keys[0] == *pair.0);
                    assert(keys[j] == o);
                    assert(keys[0].cmp_spec(&keys[j]) is Less);
                }
            }
        }
        return Some(pair);
    }
    proof {
        assert(index@.dom().len() == 0);
        assert forall|o: (u64, u64)| !#[trigger] index@.contains_key(o) by {
            if index@.contains_key(o) {
                assert(index@.dom().contains(o));
            }
        }
    }
    None
}

/// An index without records.
pub(crate) fn empty_index() -> (index: BTreeMap<(u64, u64), Key>)
    ensures
        index@ == Map::<(u64, u64), Key>::empty(),
        index@.dom().finite(),
{
    BTreeMap::new()
}

/// Adds the record of the entry `id` of `key`, due at `when`.
pub(crate) fn add_record(index: &mut BTreeMap<(u64, u64), Key>, when: u64, id: u64, key: Key)
    ensures
        final(index)@ == old(index)@.insert((when, id), key),
        final(index)@.dom().finite(),
{
    index.insert((when, id), key);
}

/// Removes the record of the entry `id` due at `when`, if there is one.
pub(crate) fn drop_record(index: &mut BTreeMap<(u64, u64), Key>, when: u64, id: u64)
    ensures
        final(index)@ == old(index)@.remove((when, id)),
        final(index)@.dom().finite(),
{
    let record = (when, id);
    index.remove(&record);
}

} // verus!
