//! Maps keyed by `usize`, walked in the order of their keys.

use std::collections::BTreeMap;
use vstd::prelude::*;
use vstd::std_specs::btree::*;
use vstd::std_specs::cmp::OrdSpec;
use vstd::std_specs::iter::IteratorSpec;

verus! {

/// Whether the keys stand in strictly increasing order.
pub open spec fn increasing(keys: Seq<usize>) -> bool {
    forall|i: int, j: int| 0 <= i < j < keys.len() ==> keys[i] < keys[j]
}

/// Whether `keys` lists the members of `domain` in increasing order.
pub open spec fn lists_in_order(keys: Seq<usize>, domain: Set<usize>) -> bool {
    increasing(keys) && keys.to_set() == domain
}

/// The members of a set of keys in increasing order.
pub open spec fn key_order(domain: Set<usize>) -> Seq<usize> {
    choose|keys: Seq<usize>| lists_in_order(keys, domain)
}

/// A list of keys in increasing order without its last key lists the set
/// of its keys without that key.
proof fn lemma_order_without_last(keys: Seq<usize>, domain: Set<usize>)
    requires
        lists_in_order(keys, domain),
        keys.len() > 0,
    ensures
        lists_in_order(keys.drop_last(), domain.remove(keys.last())),
{
    let front = keys.drop_last();
    let rest = domain.remove(keys.last());
    assert forall|key: usize| rest.contains(key) implies front.to_set().contains(key) by {
        let i = choose|i: int| 0 <= i < keys.len() && keys[i] == key;
        assert(front[i] == key);
    }
    assert(front.to_set() =~= rest);
}

/// A set of keys is listed in increasing order in one way only.
pub proof fn lemma_order_unique(first: Seq<usize>, second: Seq<usize>, domain: Set<usize>)
    requires
        lists_in_order(first, domain),
        lists_in_order(second, domain),
    ensures
        first == second,
    decreases first.len(),
{
    if first.len() == 0 {
        if second.len() > 0 {
            assert(first.to_set().contains(second[0]));
        }
    } else {
        // each list ends with the greatest member of the set
        let last = first.last();
        assert(second.to_set().contains(last));
        assert(first.to_set().contains(second.last()));
        assert(last == second.last());
        lemma_order_without_last(first, domain);
        lemma_order_without_last(second, domain);
        lemma_order_unique(first.drop_last(), second.drop_last(), domain.remove(last));
        assert(second =~= second.drop_last().push(last));
    }
}

/// The members of a set of keys below a bound, in increasing order.
pub open spec fn keys_below(domain: Set<usize>, bound: usize) -> Seq<usize>
    decreases bound,
{
    if bound == 0 {
        Seq::empty()
    } else if domain.contains((bound - 1) as usize) {
        keys_below(domain, (bound - 1) as usize).push((bound - 1) as usize)
    } else {
        keys_below(domain, (bound - 1) as usize)
    }
}

/// The members below a bound are listed in increasing order, each once.
pub proof fn lemma_keys_below(domain: Set<usize>, bound: usize)
    ensures
        increasing(keys_below(domain, bound)),
        forall|key: usize|
            #![trigger keys_below(domain, bound).contains(key)]
            keys_below(domain, bound).contains(key) <==> domain.contains(key) && key < bound,
    decreases bound,
{
    if bound > 0 {
        let last = (bound - 1) as usize;
        lemma_keys_below(domain, last);
        let before = keys_below(domain, last);
        let all = keys_below(domain, bound);
        if domain.contains(last) {
            assert forall|i: int, j: int| 0 <= i < j < all.len() implies all[i] < all[j] by {
                assert(before.contains(before[i]));
            }
            assert forall|key: usize| all.contains(key) implies domain.contains(key) && key
                < bound by {
                let i = choose|i: int| 0 <= i < all.len() && all[i] == key;
                if i < before.len() {
                    assert(before.contains(before[i]));
                }
            }
            assert forall|key: usize| domain.contains(key) && key < bound implies all.contains(
                key,
            ) by {
                if key == last {
                    assert(all[all.len() - 1] == key);
                } else {
                    assert(before.contains(key));
                    let i = choose|i: int| 0 <= i < before.len() && before[i] == key;
                    assert(all[i] == key);
                }
            }
        }
    }
}

/// Every set of keys has a key order.
pub proof fn lemma_key_order_exists(domain: Set<usize>)
    ensures
        lists_in_order(key_order(domain), domain),
{
    let below = keys_below(domain, usize::MAX);
    lemma_keys_below(domain, usize::MAX);
    let keys = if domain.contains(usize::MAX) {
        below.push(usize::MAX)
    } else {
        below
    };
    assert forall|i: int, j: int| 0 <= i < j < keys.len() implies keys[i] < keys[j] by {
        assert(below.contains(below[i]));
    }
    assert forall|key: usize| keys.to_set().contains(key) <==> domain.contains(key) by {
        if keys.to_set().contains(key) {
            let i = choose|i: int| 0 <= i < keys.len() && keys[i] == key;
            if i < below.len() {
                assert(below.contains(below[i]));
            }
        }
        if domain.contains(key) {
            if key == usize::MAX {
                assert(keys[keys.len() - 1] == key);
            } else {
                assert(below.contains(key));
                let i = choose|i: int| 0 <= i < below.len() && below[i] == key;
                assert(keys[i] == key);
            }
        }
    }
    assert(keys.to_set() =~= domain);
    assert(lists_in_order(keys, domain));
}

/// A list of the keys of a set in increasing order is its key order.
pub proof fn lemma_key_order(keys: Seq<usize>, domain: Set<usize>)
    requires
        lists_in_order(keys, domain),
    ensures
        keys == key_order(domain),
{
    lemma_order_unique(keys, key_order(domain), domain);
}

/// Whether `first` stands before `second` in the order of `K`.
spec fn precedes<K: Ord>(first: K, second: K) -> bool {
    first.cmp_spec(&second) is Less
}

/// The keys of the map in increasing order.
pub fn ordered_keys<V>(map: &BTreeMap<usize, V>) -> (keys: Vec<usize>)
    ensures
        lists_in_order(keys@, map@.dom()),
        keys@ == key_order(map@.dom()),
{
    broadcast use group_btree_axioms;
    broadcast use vstd::laws_cmp::group_laws_cmp;

    let mut keys: Vec<usize> = Vec::new();
    let ghost all = spec_keys_iter(map).remaining();
    proof {
        axiom_spec_keys_iter(map);
    }
    for key in iter: map.keys()
        invariant
            iter.seq() == all,
            keys@.len() == iter.index(),
            forall|j: int| 0 <= j < keys@.len() ==> keys@[j] == *all[j],
    {
        keys.push(*key);
    }
    proof {
        assert(keys@ =~= all.unref());
        axiom_increasing_seq_meaning::<&usize>(all);
        assert forall|i: int, j: int| 0 <= i < j < keys@.len() implies keys@[i] < keys@[j] by {
            assert(precedes::<&usize>(all[i], all[j]));
        }
        lemma_key_order(keys@, map@.dom());
    }
    keys
}

/// The value that the map holds under `key`.
pub fn value_at<'a, V>(map: &'a BTreeMap<usize, V>, key: usize) -> (value: &'a V)
    requires
        map@.contains_key(key),
    ensures
        *value == map@[key],
{
    broadcast use group_btree_axioms;
    broadcast use vstd::laws_cmp::group_laws_cmp;

    map.get(&key).unwrap()
}

/// Takes the value under `key` out of the map.
pub fn take_at<V>(map: &mut BTreeMap<usize, V>, key: usize) -> (value: V)
    requires
        old(map)@.contains_key(key),
    ensures
        value == old(map)@[key],
        final(map)@ == old(map)@.remove(key),
{
    broadcast use group_btree_axioms;
    broadcast use vstd::laws_cmp::group_laws_cmp;

    map.remove(&key).unwrap()
}

/// Puts `value` under `key`, in place of what the map held there.
pub fn put_at<V>(map: &mut BTreeMap<usize, V>, key: usize, value: V)
    ensures
        final(map)@ == old(map)@.insert(key, value),
{
    broadcast use group_btree_axioms;
    broadcast use vstd::laws_cmp::group_laws_cmp;

    let _ = map.insert(key, value);
}

} // verus!
