//! Helpers over the ordered maps of the standard library.

use std::collections::{BTreeMap, BTreeSet};
use vstd::prelude::*;
use vstd::laws_cmp::obeys_cmp;
use vstd::std_specs::iter::IteratorSpec;

verus! {

broadcast use {vstd::laws_cmp::group_laws_cmp, vstd::std_specs::btree::group_btree_axioms};

/// The map that holds the view of each value.
pub open spec fn views<K, T: View>(m: Map<K, T>) -> Map<K, T::V> {
    m.map_values(|v: T| v@)
}

/// Viewing the values commutes with what is done to single keys.
pub broadcast proof fn lemma_views_insert<K, T: View>(m: Map<K, T>, k: K, v: T)
    ensures
        #[trigger] views(m.insert(k, v)) == views(m).insert(k, v@),
{
    assert(views(m.insert(k, v)) =~= views(m).insert(k, v@));
}

/// Viewing the values commutes with what is done to single keys.
pub broadcast proof fn lemma_views_remove<K, T: View>(m: Map<K, T>, k: K)
    ensures
        #[trigger] views(m.remove(k)) == views(m).remove(k),
{
    assert(views(m.remove(k)) =~= views(m).remove(k));
}

/// Viewing the values keeps the keys.
pub broadcast proof fn lemma_views_dom<K, T: View>(m: Map<K, T>)
    ensures
        #[trigger] views(m).dom() == m.dom(),
{
    assert(views(m).dom() =~= m.dom());
}

/// The empty map has nothing to view.
pub broadcast proof fn lemma_views_empty<K, T: View>()
    ensures
        #[trigger] views(Map::<K, T>::empty()) == Map::<K, T::V>::empty(),
{
    assert(views(Map::<K, T>::empty()) =~= Map::<K, T::V>::empty());
}

/// What the views of a map's values are under each of its changes.
pub broadcast group group_views {
    lemma_views_insert,
    lemma_views_remove,
    lemma_views_dom,
    lemma_views_empty,
}

/// Returns the keys of a map, each of them once.
pub fn keys_of<K: Ord + Copy, T>(m: &BTreeMap<K, T>) -> (keys: Vec<K>)
    requires
        obeys_cmp::<K>(),
    ensures
        keys@.to_set() == m@.dom(),
        keys@.no_duplicates(),
{
    let mut keys: Vec<K> = Vec::new();
    let iter = m.keys();
    let ghost all = iter.remaining();
    for k in it: iter
        invariant
            keys@ == all.unref().take(it.index()),
            it.seq() == all,
    {
        proof {
            assert(all.unref().take(it.index() + 1) =~= all.unref().take(it.index()).push(*k));
        }
        keys.push(*k);
    }
    assert(keys@ =~= all.unref());
    keys
}

/// Returns the members of a set, each of them once.
pub fn members_of<K: Ord + Copy>(set: &BTreeSet<K>) -> (members: Vec<K>)
    requires
        obeys_cmp::<K>(),
    ensures
        members@.to_set() == set@,
        members@.no_duplicates(),
{
    let mut members: Vec<K> = Vec::new();
    let iter = set.iter();
    let ghost all = iter.remaining();
    for k in it: iter
        invariant
            members@ == all.unref().take(it.index()),
            it.seq() == all,
    {
        proof {
            assert(all.unref().take(it.index() + 1) =~= all.unref().take(it.index()).push(*k));
        }
        members.push(*k);
    }
    assert(members@ =~= all.unref());
    members
}

} // verus!
