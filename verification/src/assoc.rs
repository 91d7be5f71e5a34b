//! Association lists as the executable form of keyed registries.
//!
//! Every process-wide registry (world entities, per-region maps, pending
//! visibility tasks, live client sessions) is a `Vec` of key/value pairs
//! whose keys stay pairwise distinct. This module gives such a sequence its
//! mathematical reading as a `Map` (`al_map`, later entries win) and proves
//! how pushing, updating and removing entries act on that reading.

use vstd::prelude::*;

verus! {

/// The map an association sequence denotes; on duplicate keys the later
/// entry wins, matching insert-by-push semantics.
pub open spec fn al_map<K, V>(s: Seq<(K, V)>) -> Map<K, V>
    decreases s.len(),
{
    if s.len() == 0 {
        Map::empty()
    } else {
        al_map(s.drop_last()).insert(s.last().0, s.last().1)
    }
}

/// Keys are pairwise distinct.
pub open spec fn al_unique<K, V>(s: Seq<(K, V)>) -> bool {
    forall|i: int, j: int| 0 <= i < j < s.len() ==> s[i].0 != s[j].0
}

/// The denoted map's domain holds exactly the keys that occur in the list.
pub proof fn lemma_al_map_dom<K, V>(s: Seq<(K, V)>, k: K)
    ensures
        al_map(s).dom().contains(k) <==> exists|i: int| 0 <= i < s.len() && s[i].0 == k,
    decreases s.len(),
{
    if s.len() > 0 {
        lemma_al_map_dom(s.drop_last(), k);
        if k == s.last().0 {
            assert(0 <= s.len() - 1 < s.len() && s[s.len() - 1].0 == k);
        } else {
            if al_map(s).dom().contains(k) {
                let i = choose|i: int| 0 <= i < s.drop_last().len() && s.drop_last()[i].0 == k;
                assert(s.drop_last()[i] == s[i]);
            }
            if exists|i: int| 0 <= i < s.len() && s[i].0 == k {
                let i = choose|i: int| 0 <= i < s.len() && s[i].0 == k;
                assert(i != s.len() - 1);
                assert(s.drop_last()[i] == s[i]);
            }
        }
    }
}

/// With distinct keys, the entry at any index gives the denoted value.
pub proof fn lemma_al_map_index<K, V>(s: Seq<(K, V)>, i: int)
    requires
        al_unique(s),
        0 <= i < s.len(),
    ensures
        al_map(s).dom().contains(s[i].0),
        al_map(s)[s[i].0] == s[i].1,
    decreases s.len(),
{
    if i == s.len() - 1 {
    } else {
        lemma_al_map_index(s.drop_last(), i);
        assert(s.drop_last()[i] == s[i]);
        assert(s[i].0 != s.last().0);
    }
}

/// A key that occurs nowhere in the list is outside the denoted domain.
pub proof fn lemma_al_map_absent<K, V>(s: Seq<(K, V)>, k: K)
    requires
        forall|i: int| 0 <= i < s.len() ==> s[i].0 != k,
    ensures
        !al_map(s).dom().contains(k),
{
    lemma_al_map_dom(s, k);
}

/// Pushing an entry denotes insertion into the map.
pub proof fn lemma_al_map_push<K, V>(s: Seq<(K, V)>, k: K, v: V)
    ensures
        al_map(s.push((k, v))) == al_map(s).insert(k, v),
{
    assert(s.push((k, v)).drop_last() =~= s);
    assert(s.push((k, v)).last() == (k, v));
}

/// With distinct keys, removing the entry at an index denotes removal of
/// its key, and the remaining keys stay distinct.
pub proof fn lemma_al_map_remove<K, V>(s: Seq<(K, V)>, i: int)
    requires
        al_unique(s),
        0 <= i < s.len(),
    ensures
        al_map(s.remove(i)) == al_map(s).remove(s[i].0),
        al_unique(s.remove(i)),
        forall|j: int| 0 <= j < s.remove(i).len() ==> s.remove(i)[j].0 != s[i].0,
    decreases s.len(),
{
    let k = s[i].0;
    assert forall|j: int| 0 <= j < s.remove(i).len() implies s.remove(i)[j].0 != k by {
        if j < i {
            assert(s.remove(i)[j] == s[j]);
        } else {
            assert(s.remove(i)[j] == s[j + 1]);
        }
    }
    if i == s.len() - 1 {
        assert(s.remove(i) =~= s.drop_last());
        lemma_al_map_absent(s.drop_last(), k);
        assert(al_map(s).remove(k) =~= al_map(s.drop_last()));
    } else {
        lemma_al_map_remove(s.drop_last(), i);
        assert(s.remove(i).drop_last() =~= s.drop_last().remove(i));
        assert(s.remove(i).last() == s.last());
        assert(s.drop_last()[i] == s[i]);
        assert(al_map(s.drop_last()).remove(k).insert(s.last().0, s.last().1) =~= al_map(
            s.drop_last(),
        ).insert(s.last().0, s.last().1).remove(k)) by {
            assert(s.last().0 != k);
        }
    }
}

/// Removing a present entry and pushing a replacement under the same key
/// denotes a plain insert, and keys stay distinct.
pub proof fn lemma_al_map_reinsert<K, V>(s: Seq<(K, V)>, i: int, v: V)
    requires
        al_unique(s),
        0 <= i < s.len(),
    ensures
        al_map(s.remove(i).push((s[i].0, v))) == al_map(s).insert(s[i].0, v),
        al_unique(s.remove(i).push((s[i].0, v))),
{
    let k = s[i].0;
    lemma_al_map_remove(s, i);
    lemma_al_map_push(s.remove(i), k, v);
    assert(al_map(s).remove(k).insert(k, v) =~= al_map(s).insert(k, v));
    let t = s.remove(i).push((k, v));
    assert forall|p: int, q: int| 0 <= p < q < t.len() implies t[p].0 != t[q].0 by {
        if q < t.len() - 1 {
            assert(t[p] == s.remove(i)[p] && t[q] == s.remove(i)[q]);
        } else {
            assert(t[p] == s.remove(i)[p]);
        }
    }
}

} // verus!
