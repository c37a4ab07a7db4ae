//! Association lists keyed by [`Destination`], with their mathematical view
//! as a `Map`.  Both the clear-color overrides and the destination-resolution
//! table are small per-frame lists with unique keys; this module holds the
//! shared lookup/update code and the lemmas that connect the list to its map.

use vstd::prelude::*;

use crate::model::Destination;

verus! {

/// The map an association list denotes: a later entry for the same key wins.
pub open spec fn assoc_map<V>(entries: Seq<(Destination, V)>) -> Map<Destination, V>
    decreases entries.len(),
{
    if entries.len() == 0 {
        Map::empty()
    } else {
        assoc_map(entries.drop_last()).insert(entries.last().0, entries.last().1)
    }
}

/// The keys of an association list, in stored order.
pub open spec fn key_seq<V>(entries: Seq<(Destination, V)>) -> Seq<Destination> {
    entries.map_values(|p: (Destination, V)| p.0)
}

/// No two entries share a key.
pub open spec fn unique_keys<V>(entries: Seq<(Destination, V)>) -> bool {
    forall|i: int, j: int|
        0 <= i < j < entries.len() ==> (#[trigger] entries[i]).0 != (#[trigger] entries[j]).0
}

/// A key is in the map exactly when some entry carries it.
pub proof fn lemma_assoc_map_dom<V>(entries: Seq<(Destination, V)>)
    ensures
        forall|d: Destination|
            #[trigger] assoc_map(entries).contains_key(d) <==> key_seq(entries).contains(d),
    decreases entries.len(),
{
    if entries.len() > 0 {
        let prev = entries.drop_last();
        lemma_assoc_map_dom(prev);
        assert forall|d: Destination|
            #[trigger] assoc_map(entries).contains_key(d) implies key_seq(entries).contains(d) by {
            if d == entries.last().0 {
                assert(key_seq(entries)[entries.len() - 1] == d);
            } else {
                assert(assoc_map(prev).contains_key(d));
                assert(key_seq(prev).contains(d));
                let i = choose|i: int| 0 <= i < key_seq(prev).len() && key_seq(prev)[i] == d;
                assert(prev[i] == entries[i]);
                assert(key_seq(entries)[i] == d);
            }
        }
        assert forall|d: Destination|
            key_seq(entries).contains(d) implies #[trigger] assoc_map(entries).contains_key(
            d,
        ) by {
            let i = choose|i: int| 0 <= i < key_seq(entries).len() && key_seq(entries)[i] == d;
            assert(key_seq(entries)[i] == entries[i].0);
            assert(assoc_map(entries) == assoc_map(prev).insert(entries.last().0, entries.last().1));
            if i < entries.len() - 1 {
                assert(prev[i] == entries[i]);
                assert(key_seq(prev)[i] == d);
                assert(key_seq(prev).contains(d));
                assert(assoc_map(prev).contains_key(d));
            } else {
                assert(d == entries.last().0);
            }
        }
    }
}

/// With unique keys, the entry at any index gives the map's value for its key.
pub proof fn lemma_assoc_map_index<V>(entries: Seq<(Destination, V)>, i: int)
    requires
        unique_keys(entries),
        0 <= i < entries.len(),
    ensures
        assoc_map(entries).contains_key(entries[i].0),
        assoc_map(entries)[entries[i].0] == entries[i].1,
    decreases entries.len(),
{
    if i < entries.len() - 1 {
        lemma_assoc_map_index(entries.drop_last(), i);
        assert(entries[i].0 != entries.last().0);
    }
}

/// Looks a key up, returning the value of the unique entry that carries it.
pub fn assoc_get<V: Copy>(entries: &Vec<(Destination, V)>, d: &Destination) -> (r: Option<V>)
    requires
        unique_keys(entries@),
    ensures
        match r {
            Some(v) => assoc_map(entries@).contains_key(*d) && assoc_map(entries@)[*d] == v,
            None => !assoc_map(entries@).contains_key(*d),
        },
{
    let mut i: usize = 0;
    while i < entries.len()
        invariant
            0 <= i <= entries@.len(),
            unique_keys(entries@),
            forall|j: int| 0 <= j < i ==> (#[trigger] entries@[j]).0 != *d,
        decreases entries@.len() - i,
    {
        if entries[i].0 == *d {
            proof {
                lemma_assoc_map_index(entries@, i as int);
            }
            return Some(entries[i].1);
        }
        i += 1;
    }
    proof {
        lemma_assoc_map_dom(entries@);
        assert forall|j: int| 0 <= j < key_seq(entries@).len() implies key_seq(entries@)[j] != *d by {
            assert(entries@[j].0 != *d);
        }
        assert(!key_seq(entries@).contains(*d));
    }
    None
}

/// Whether every entry's key is unique; lets unverified callers test the
/// list invariant before relying on it.
pub fn assoc_keys_unique<V: Copy>(entries: &Vec<(Destination, V)>) -> (b: bool)
    ensures
        b == unique_keys(entries@),
{
    let mut i: usize = 0;
    while i < entries.len()
        invariant
            0 <= i <= entries@.len(),
            forall|p: int, q: int|
                0 <= p < q < entries@.len() && p < i ==> (#[trigger] entries@[p]).0 != (
                #[trigger] entries@[q]).0,
        decreases entries@.len() - i,
    {
        let mut j: usize = i + 1;
        while j < entries.len()
            invariant
                0 <= i < j <= entries@.len(),
                forall|q: int| i < q < j ==> (#[trigger] entries@[q]).0 != entries@[i as int].0,
            decreases entries@.len() - j,
        {
            if entries[j].0 == entries[i].0 {
                return false;
            }
            j += 1;
        }
        i += 1;
    }
    true
}

/// Binds `d` to `v`: replaces the unique entry carrying `d` in place, or
/// appends a new entry when none does.  The map gains the binding; the key
/// order is untouched but for a fresh key appended at the end.
pub fn assoc_set<V: Copy>(entries: &mut Vec<(Destination, V)>, d: Destination, v: V)
    requires
        unique_keys(old(entries)@),
    ensures
        unique_keys(final(entries)@),
        assoc_map(final(entries)@) == assoc_map(old(entries)@).insert(d, v),
        key_seq(final(entries)@) == if assoc_map(old(entries)@).contains_key(d) {
            key_seq(old(entries)@)
        } else {
            key_seq(old(entries)@).push(d)
        },
{
    proof {
        lemma_assoc_map_dom(old(entries)@);
    }
    let mut i: usize = 0;
    while i < entries.len()
        invariant
            0 <= i <= entries@.len(),
            entries@ == old(entries)@,
            unique_keys(entries@),
            forall|j: int| 0 <= j < i ==> (#[trigger] entries@[j]).0 != d,
        decreases entries@.len() - i,
    {
        if entries[i].0 == d {
            entries.set(i, (d, v));
            proof {
                lemma_assoc_update(old(entries)@, i as int, v);
                assert(key_seq(entries@) =~= key_seq(old(entries)@));
                assert(key_seq(old(entries)@)[i as int] == d);
                assert(key_seq(old(entries)@).contains(d));
                lemma_assoc_map_dom(old(entries)@);
                assert forall|p: int, q: int|
                    0 <= p < q < entries@.len() implies (#[trigger] entries@[p]).0 != (
                    #[trigger] entries@[q]).0 by {
                    assert(old(entries)@[p].0 != old(entries)@[q].0);
                }
            }
            return ;
        }
        i += 1;
    }
    entries.push((d, v));
    proof {
        assert(entries@.drop_last() =~= old(entries)@);
        assert forall|j: int|
            0 <= j < key_seq(old(entries)@).len() implies key_seq(old(entries)@)[j] != d by {
            assert(old(entries)@[j].0 != d);
        }
        assert(!key_seq(old(entries)@).contains(d));
        lemma_assoc_map_dom(old(entries)@);
        assert(key_seq(entries@) =~= key_seq(old(entries)@).push(d));
        assert forall|p: int, q: int|
            0 <= p < q < entries@.len() implies (#[trigger] entries@[p]).0 != (
            #[trigger] entries@[q]).0 by {
            if q < entries@.len() - 1 {
                assert(old(entries)@[p].0 != old(entries)@[q].0);
            } else {
                assert(entries@[p].0 == old(entries)@[p].0);
                assert(old(entries)@[p].0 != d);
            }
        }
    }
}

/// Rebinding the key at index `i` updates the map at that key alone.
proof fn lemma_assoc_update<V>(entries: Seq<(Destination, V)>, i: int, v: V)
    requires
        unique_keys(entries),
        0 <= i < entries.len(),
    ensures
        assoc_map(entries.update(i, (entries[i].0, v))) == assoc_map(entries).insert(
            entries[i].0,
            v,
        ),
    decreases entries.len(),
{
    let k = entries[i].0;
    let updated = entries.update(i, (k, v));
    if i == entries.len() - 1 {
        assert(updated.drop_last() =~= entries.drop_last());
        assert(assoc_map(updated) =~= assoc_map(entries).insert(k, v));
    } else {
        assert(updated.drop_last() =~= entries.drop_last().update(i, (k, v)));
        lemma_assoc_update(entries.drop_last(), i, v);
        let last = entries.last();
        assert(updated.last() == last);
        assert(last.0 != k);
        assert(assoc_map(updated) == assoc_map(entries.drop_last()).insert(k, v).insert(
            last.0,
            last.1,
        ));
        assert(assoc_map(entries.drop_last()).insert(k, v).insert(last.0, last.1)
            =~= assoc_map(entries).insert(k, v));
    }
}

} // verus!
