//! The entries of a map, in the order of its keys.

use crate::switch_blocks::keys_increase;
use std::collections::BTreeMap;
use vstd::prelude::*;
use vstd::std_specs::cmp::OrdSpec;
use vstd::std_specs::iter::IteratorSpec;

verus! {

/// The list has exactly the entries of the map, in the order of the keys.
pub open spec fn lists<V>(entries: Seq<(u64, V)>, map: Map<u64, V>) -> bool {
    &&& keys_increase(entries)
    &&& forall|i: int|
        #![trigger entries[i]]
        0 <= i < entries.len() ==> map.contains_key(entries[i].0) && map[entries[i].0]
            == entries[i].1
    &&& forall|k: u64| #[trigger]
        map.contains_key(k) ==> exists|i: int| 0 <= i < entries.len() && entries[i].0 == k
}

/// The entries of the map, in the order of the keys.
pub open spec fn in_order<V>(map: Map<u64, V>) -> Seq<(u64, V)> {
    choose|entries: Seq<(u64, V)>| lists(entries, map)
}

/// The list without its last entry lists the map without that entry's key.
pub proof fn lemma_lists_drop_last<V>(entries: Seq<(u64, V)>, map: Map<u64, V>)
    requires
        lists(entries, map),
        entries.len() > 0,
    ensures
        lists(entries.drop_last(), map.remove(entries.last().0)),
{
    let shorter = entries.drop_last();
    let rest = map.remove(entries.last().0);
    assert forall|i: int| #![trigger shorter[i]] 0 <= i < shorter.len() implies rest.contains_key(
        shorter[i].0,
    ) && rest[shorter[i].0] == shorter[i].1 by {
        assert(shorter[i] == entries[i]);
        assert(entries[i].0 < entries[entries.len() - 1].0);
    }
    assert forall|k: u64| #[trigger] rest.contains_key(k) implies exists|i: int|
        0 <= i < shorter.len() && shorter[i].0 == k by {
        assert(map.contains_key(k));
        let i = choose|i: int| 0 <= i < entries.len() && entries[i].0 == k;
        assert(shorter[i].0 == k);
    }
}

/// A map is listed in one way only.
pub proof fn lemma_lists_unique<V>(
    a: Seq<(u64, V)>,
    b: Seq<(u64, V)>,
    map: Map<u64, V>,
)
    requires
        lists(a, map),
        lists(b, map),
    ensures
        a == b,
    decreases a.len(),
{
    if a.len() == 0 {
        if b.len() > 0 {
            assert(map.contains_key(b[0].0));
        }
        assert(a =~= b);
    } else {
        assert(map.contains_key(a.last().0));
        let i = choose|i: int| 0 <= i < b.len() && b[i].0 == a.last().0;
        assert(map.contains_key(b.last().0));
        let j = choose|j: int| 0 <= j < a.len() && a[j].0 == b.last().0;
        assert(a.last().0 <= b.last().0) by {
            assert(i == b.len() - 1 || b[i].0 < b[b.len() - 1].0);
        }
        assert(b.last().0 <= a.last().0) by {
            assert(j == a.len() - 1 || a[j].0 < a[a.len() - 1].0);
        }
        assert(a.last() == b.last());
        lemma_lists_drop_last(a, map);
        lemma_lists_drop_last(b, map);
        lemma_lists_unique(a.drop_last(), b.drop_last(), map.remove(a.last().0));
        assert(a =~= a.drop_last().push(a.last()));
        assert(b =~= b.drop_last().push(b.last()));
    }
}

/// The entries of a map whose keys are less than `bound`.
spec fn below<V>(map: Map<u64, V>, bound: nat) -> Map<u64, V> {
    map.restrict(Set::new(|k: u64| k < bound))
}

proof fn lemma_below_listed<V>(map: Map<u64, V>, bound: nat)
    requires
        bound <= u64::MAX + 1,
    ensures
        exists|entries: Seq<(u64, V)>| lists(entries, below(map, bound)),
    decreases bound,
{
    if bound == 0 {
        assert(lists(Seq::empty(), below(map, bound)));
    } else {
        let k = (bound - 1) as u64;
        lemma_below_listed(map, (bound - 1) as nat);
        let part = below(map, (bound - 1) as nat);
        let fewer = choose|entries: Seq<(u64, V)>| lists(entries, part);
        if map.contains_key(k) {
            let entries = fewer.push((k, map[k]));
            assert forall|j: u64| #[trigger] below(map, bound).contains_key(j) implies exists|i: int|
                0 <= i < entries.len() && entries[i].0 == j by {
                if j == k {
                    assert(entries[entries.len() - 1].0 == k);
                } else {
                    assert(below(map, (bound - 1) as nat).contains_key(j));
                    let i = choose|i: int| 0 <= i < fewer.len() && fewer[i].0 == j;
                    assert(entries[i].0 == j);
                }
            }
            assert(lists(entries, below(map, bound)));
        } else {
            assert(below(map, bound) =~= below(map, (bound - 1) as nat));
        }
    }
}

/// Every map can be listed in the order of its keys.
pub proof fn lemma_in_order_lists<V>(map: Map<u64, V>)
    ensures
        lists(in_order(map), map),
{
    lemma_below_listed(map, (u64::MAX + 1) as nat);
    assert(below(map, (u64::MAX + 1) as nat) =~= map);
}

/// Lists the entries of a map in the order of the keys.
pub fn list_entries<V: Copy>(map: &BTreeMap<u64, V>) -> (r: Vec<(u64, V)>)
    ensures
        lists(r@, map@),
        forall|i: int, j: int| 0 <= i < j < r@.len() ==> r@[i].0 < r@[j].0,
        forall|i: int|
            #![trigger r@[i]]
            0 <= i < r@.len() ==> map@.contains_key(r@[i].0) && map@[r@[i].0] == r@[i].1,
        forall|k: u64| #[trigger]
            map@.contains_key(k) ==> exists|i: int| 0 <= i < r@.len() && r@[i].0 == k,
        r@ == in_order(map@),
{
    broadcast use vstd::std_specs::btree::group_btree_axioms;
    broadcast use vstd::laws_cmp::group_laws_cmp;

    let mut out: Vec<(u64, V)> = Vec::new();
    for entry in it: map.iter()
        invariant
            it.seq() == map.iter().remaining(),
            out@.len() == it.index(),
            forall|j: int|
                #![trigger out@[j]]
                0 <= j < out@.len() ==> out@[j].0 == *map.iter().remaining()[j].0 && out@[j].1
                    == *map.iter().remaining()[j].1,
    {
        out.push((*entry.0, *entry.1));
    }
    proof {
        let pairs = map.iter().remaining();
        let keys = pairs.map_values(|kv: (&u64, &V)| *kv.0);
        assert(vstd::std_specs::btree::increasing_seq(keys));
        assert forall|i: int, j: int| 0 <= i < j < out@.len() implies out@[i].0 < out@[j].0 by {
            assert(keys[i].cmp_spec(&keys[j]) is Less);
        }
        assert forall|k: u64| #[trigger] map@.contains_key(k) implies exists|i: int|
            0 <= i < out@.len() && out@[i].0 == k by {
            assert(pairs.contains((&k, &map@[k])));
            let i = choose|i: int| 0 <= i < pairs.len() && pairs[i] == (&k, &map@[k]);
            assert(out@[i].0 == k);
        }
        assert(lists(out@, map@));
        lemma_lists_unique(out@, in_order(map@), map@);
    }
    out
}

} // verus!
