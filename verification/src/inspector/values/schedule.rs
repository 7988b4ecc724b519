//! The order in which filed heartbeats are looked at.

use vstd::prelude::*;
use vstd::std_specs::btree::increasing_seq;
use vstd::std_specs::cmp::OrdSpec;
use vstd::std_specs::iter::IteratorSpec;
use std::collections::BTreeMap;

verus! {

broadcast use {vstd::std_specs::btree::group_btree_axioms, vstd::laws_cmp::group_laws_cmp};

/// The heartbeat that was filed first: the entry with the least identifier,
/// or nothing if no heartbeat is filed.
pub fn first_heartbeat(heartbeats: &BTreeMap<u64, u64>) -> (first: Option<(u64, u64)>)
    ensures
        match first {
            Some((uid, key)) => heartbeats@.contains_key(uid) && heartbeats@[uid] == key
                && forall|other: u64| heartbeats@.contains_key(other) ==> uid <= other,
            None => forall|uid: u64| !heartbeats@.contains_key(uid),
        },
{
    let ghost all = heartbeats.iter().remaining();
    for entry in it: heartbeats.iter()
        invariant
            it.index() == 0,
            it.seq() == all,
            increasing_seq(all.map_values(|kv: (&u64, &u64)| *kv.0)),
    {
        let (uid, key) = entry;
        proof {
            let keys = all.map_values(|kv: (&u64, &u64)| *kv.0);
            assert(increasing_seq(keys));
            assert(all[0] == entry);
            assert(heartbeats@.contains_key(*all[0].0));
            assert forall|other: u64| heartbeats@.contains_key(other) implies *uid <= other by {
                assert(all.contains((&other, &heartbeats@[other])));
                let i = choose|i: int| 0 <= i < all.len() && all[i] == (&other, &heartbeats@[other]);
                assert(keys[i] == other);
                assert(keys[0] == *uid);
                if 0 < i {
                    assert(keys[0].cmp_spec(&keys[i]) is Less);
                }
            }
        }
        return Some((*uid, *key));
    }
    proof {
        assert(all.len() == 0);
        assert forall|uid: u64| !heartbeats@.contains_key(uid) by {
            if heartbeats@.contains_key(uid) {
                assert(all.contains((&uid, &heartbeats@[uid])));
            }
        }
    }
    None
}

} // verus!
