//! A mathematical map read off an association sequence.
//!
//! The device model and the named-resource registry both keep their state in
//! a vector of key/value pairs with pairwise distinct keys; their contracts
//! speak of the `Map` that such a sequence denotes.

use vstd::prelude::*;

verus! {

/// The map an association sequence denotes; a later pair wins over an
/// earlier one with the same key.
pub open spec fn assoc_map<K, V>(s: Seq<(K, V)>) -> Map<K, V>
    decreases s.len(),
{
    if s.len() == 0 {
        Map::empty()
    } else {
        assoc_map(s.drop_last()).insert(s.last().0, s.last().1)
    }
}

/// Pairwise distinct keys.
pub open spec fn keys_distinct<K, V>(s: Seq<(K, V)>) -> bool {
    forall|t1: int, t2: int| 0 <= t1 < t2 < s.len() ==> s[t1].0 != s[t2].0
}

/// A key is in the denoted map exactly when some pair carries it.
pub proof fn lemma_assoc_map_dom<K, V>(s: Seq<(K, V)>)
    ensures
        forall|k: K|
            assoc_map(s).dom().contains(k) <==> exists|t: int| 0 <= t < s.len() && s[t].0 == k,
    decreases s.len(),
{
    if s.len() > 0 {
        lemma_assoc_map_dom(s.drop_last());
        assert forall|k: K| assoc_map(s).dom().contains(k) implies exists|t: int|
            0 <= t < s.len() && s[t].0 == k by {
            if k == s.last().0 {
                assert(s[s.len() - 1].0 == k);
            } else {
                assert(assoc_map(s.drop_last()).dom().contains(k));
                let t = choose|t: int| 0 <= t < s.drop_last().len() && s.drop_last()[t].0 == k;
                assert(s.drop_last()[t] == s[t]);
                assert(s[t].0 == k);
            }
        }
        assert forall|k: K| (exists|t: int| 0 <= t < s.len() && s[t].0 == k) implies assoc_map(
            s,
        ).dom().contains(k) by {
            let t = choose|t: int| 0 <= t < s.len() && s[t].0 == k;
            if t < s.len() - 1 {
                assert(s.drop_last()[t].0 == k);
                assert(exists|u: int| 0 <= u < s.drop_last().len() && s.drop_last()[u].0 == k);
                assert(assoc_map(s.drop_last()).dom().contains(k));
            } else {
                assert(s.last().0 == k);
            }
        }
    }
}

/// With distinct keys, the pair at `t` gives the value the map holds at its
/// key.
pub proof fn lemma_assoc_map_index<K, V>(s: Seq<(K, V)>, t: int)
    requires
        keys_distinct(s),
        0 <= t < s.len(),
    ensures
        assoc_map(s).dom().contains(s[t].0),
        assoc_map(s)[s[t].0] == s[t].1,
    decreases s.len(),
{
    if t == s.len() - 1 {
        lemma_assoc_map_dom(s);
    } else {
        assert(keys_distinct(s.drop_last()));
        assert(s.drop_last()[t] == s[t]);
        lemma_assoc_map_index(s.drop_last(), t);
        assert(s[t].0 != s.last().0);
    }
}

/// With distinct keys, removing the pair at `t` removes exactly its key from
/// the denoted map.
pub proof fn lemma_assoc_map_remove<K, V>(s: Seq<(K, V)>, t: int)
    requires
        keys_distinct(s),
        0 <= t < s.len(),
    ensures
        assoc_map(s.remove(t)) == assoc_map(s).remove(s[t].0),
    decreases s.len(),
{
    lemma_assoc_map_dom(s.drop_last());
    if t == s.len() - 1 {
        assert(s.remove(t) =~= s.drop_last());
        assert(!assoc_map(s.drop_last()).dom().contains(s[t].0));
        assert(assoc_map(s.drop_last()) =~= assoc_map(s.drop_last()).insert(
            s.last().0,
            s.last().1,
        ).remove(s[t].0));
    } else {
        assert(keys_distinct(s.drop_last()));
        assert(s.drop_last()[t] == s[t]);
        lemma_assoc_map_remove(s.drop_last(), t);
        assert(s.remove(t).drop_last() =~= s.drop_last().remove(t));
        assert(s.remove(t).last() == s.last());
        assert(s[t].0 != s.last().0);
        assert(assoc_map(s.drop_last()).remove(s[t].0).insert(s.last().0, s.last().1)
            =~= assoc_map(s.drop_last()).insert(s.last().0, s.last().1).remove(s[t].0));
    }
}

/// Removing a pair keeps the remaining keys distinct.
pub proof fn lemma_keys_distinct_remove<K, V>(s: Seq<(K, V)>, t: int)
    requires
        keys_distinct(s),
        0 <= t < s.len(),
    ensures
        keys_distinct(s.remove(t)),
{
    assert forall|t1: int, t2: int| 0 <= t1 < t2 < s.remove(t).len() implies s.remove(t)[t1].0
        != s.remove(t)[t2].0 by {
        let u1: int = if t1 < t { t1 } else { t1 + 1 };
        let u2: int = if t2 < t { t2 } else { t2 + 1 };
        assert(s.remove(t)[t1] == s[u1]);
        assert(s.remove(t)[t2] == s[u2]);
    }
}

} // verus!
