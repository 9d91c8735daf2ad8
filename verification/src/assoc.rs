//! The mapping described by a sequence of key-value entries, and how it
//! changes when entries are inserted, replaced or removed.

use vstd::prelude::*;

verus! {

/// The mapping described by a sequence of key-value entries, later entries
/// winning on equal keys.
pub open spec fn map_of<K, V>(s: Seq<(K, V)>) -> Map<K, V>
    decreases s.len(),
{
    if s.len() == 0 {
        Map::empty()
    } else {
        map_of(s.drop_last()).insert(s.last().0, s.last().1)
    }
}

/// A key is in the mapping of `s` exactly when some entry of `s` holds it.
pub proof fn lemma_map_of_contains<K, V>(s: Seq<(K, V)>)
    ensures
        forall|k: K|
            map_of(s).dom().contains(k) <==> exists|i: int| 0 <= i < s.len() && (#[trigger] s[i]).0
                == k,
    decreases s.len(),
{
    if s.len() > 0 {
        let t = s.drop_last();
        lemma_map_of_contains(t);
        assert(forall|i: int| 0 <= i < t.len() ==> t[i] == s[i]);
        assert forall|k: K| map_of(s).dom().contains(k) implies exists|i: int|
            0 <= i < s.len() && (#[trigger] s[i]).0 == k by {
            if k == s.last().0 {
                assert((s[s.len() - 1]).0 == k);
            } else {
                assert(map_of(t).dom().contains(k));
                let i = choose|i: int| 0 <= i < t.len() && (#[trigger] t[i]).0 == k;
                assert((s[i]).0 == k);
            }
        }
        assert forall|k: K|
            exists|i: int| 0 <= i < s.len() && (#[trigger] s[i]).0 == k implies map_of(
            s,
        ).dom().contains(k) by {
            let i = choose|i: int| 0 <= i < s.len() && (#[trigger] s[i]).0 == k;
            if i < s.len() - 1 {
                assert((t[i]).0 == k);
                assert(map_of(t).dom().contains(k));
            }
        }
    }
}

/// Inserting an entry whose key is absent from `s` inserts it into the
/// mapping, wherever in the sequence the entry is placed.
pub proof fn lemma_map_of_insert_at<K, V>(s: Seq<(K, V)>, i: int, k: K, v: V)
    requires
        0 <= i <= s.len(),
        forall|l: int| 0 <= l < s.len() ==> (#[trigger] s[l]).0 != k,
    ensures
        map_of(s.insert(i, (k, v))) == map_of(s).insert(k, v),
    decreases s.len(),
{
    let post = s.insert(i, (k, v));
    if i == s.len() {
        assert(post.drop_last() =~= s);
    } else {
        assert(post.last() == s.last());
        assert(post.drop_last() =~= s.drop_last().insert(i, (k, v)));
        assert(forall|l: int| 0 <= l < s.len() - 1 ==> (#[trigger] s.drop_last()[l]) == s[l]);
        lemma_map_of_insert_at(s.drop_last(), i, k, v);
        assert(s.last().0 != k);
        assert(map_of(s.drop_last()).insert(k, v).insert(s.last().0, s.last().1) =~= map_of(
            s.drop_last(),
        ).insert(s.last().0, s.last().1).insert(k, v));
    }
}

/// Removing an entry removes its key from the mapping, when keys are
/// pairwise distinct.
pub proof fn lemma_map_of_remove_at<K, V>(s: Seq<(K, V)>, i: int)
    requires
        0 <= i < s.len(),
        forall|p: int, q: int| 0 <= p < q < s.len() ==> (#[trigger] s[p]).0 != (#[trigger] s[q]).0,
    ensures
        map_of(s.remove(i)) == map_of(s).remove(s[i].0),
    decreases s.len(),
{
    let post = s.remove(i);
    let t = s.drop_last();
    assert(forall|l: int| 0 <= l < t.len() ==> (#[trigger] t[l]) == s[l]);
    if i == s.len() - 1 {
        assert(post =~= t);
        lemma_map_of_contains(t);
        assert(!map_of(t).dom().contains(s[i].0));
        assert(map_of(t).insert(s[i].0, s[i].1).remove(s[i].0) =~= map_of(t));
    } else {
        assert(post.last() == s.last());
        assert(post.drop_last() =~= t.remove(i));
        lemma_map_of_remove_at(t, i);
        assert(map_of(post) == map_of(t).remove(s[i].0).insert(s.last().0, s.last().1));
        assert(s.last().0 != s[i].0);
        assert(map_of(t).remove(s[i].0).insert(s.last().0, s.last().1) =~= map_of(t).insert(
            s.last().0,
            s.last().1,
        ).remove(s[i].0));
    }
}

/// Replacing the value of the entry at `i` updates that entry's key in the
/// mapping, when keys are pairwise distinct.
pub proof fn lemma_map_of_update_at<K, V>(s: Seq<(K, V)>, i: int, v: V)
    requires
        0 <= i < s.len(),
        forall|p: int, q: int| 0 <= p < q < s.len() ==> (#[trigger] s[p]).0 != (#[trigger] s[q]).0,
    ensures
        map_of(s.update(i, (s[i].0, v))) == map_of(s).insert(s[i].0, v),
    decreases s.len(),
{
    let post = s.update(i, (s[i].0, v));
    let t = s.drop_last();
    assert(forall|l: int| 0 <= l < t.len() ==> (#[trigger] t[l]) == s[l]);
    if i == s.len() - 1 {
        assert(post.drop_last() =~= t);
        assert(map_of(s).insert(s[i].0, v) =~= map_of(t).insert(s[i].0, v));
    } else {
        assert(post.last() == s.last());
        assert(post.drop_last() =~= t.update(i, (s[i].0, v)));
        lemma_map_of_update_at(t, i, v);
        assert(s.last().0 != s[i].0);
        assert(map_of(t).insert(s[i].0, v).insert(s.last().0, s.last().1) =~= map_of(t).insert(
            s.last().0,
            s.last().1,
        ).insert(s[i].0, v));
    }
}

/// When the keys of `s` are pairwise distinct, the mapping of `s` sends each
/// entry's key to that entry's value.
pub proof fn lemma_map_of_index<K, V>(s: Seq<(K, V)>, i: int)
    requires
        0 <= i < s.len(),
        forall|p: int, q: int| 0 <= p < q < s.len() ==> (#[trigger] s[p]).0 != (#[trigger] s[q]).0,
    ensures
        map_of(s).dom().contains(s[i].0),
        map_of(s)[s[i].0] == s[i].1,
    decreases s.len(),
{
    let t = s.drop_last();
    assert(forall|j: int| 0 <= j < t.len() ==> t[j] == s[j]);
    if i == s.len() - 1 {
    } else {
        lemma_map_of_index(t, i);
        assert(s[i].0 != s[s.len() - 1].0);
    }
}

} // verus!
