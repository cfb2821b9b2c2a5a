//! Association sequences: lists of key/value pairs with distinct keys,
//! viewed as maps. Both levels of the store (location key to namespace,
//! record name to record) are kept this way, so the lemmas here are
//! generic in the value type.

use vstd::prelude::*;

verus! {

/// All keys in the sequence are distinct.
pub open spec fn akeys_unique<V>(s: Seq<(Seq<char>, V)>) -> bool {
    forall|i: int, j: int| 0 <= i < j < s.len() ==> (#[trigger] s[i]).0 != (#[trigger] s[j]).0
}

/// The map an association sequence denotes (later entries win, which
/// makes no difference once the keys are distinct).
pub open spec fn amap<V>(s: Seq<(Seq<char>, V)>) -> Map<Seq<char>, V>
    decreases s.len(),
{
    if s.len() == 0 {
        Map::empty()
    } else {
        amap(s.drop_last()).insert(s.last().0, s.last().1)
    }
}

/// A key is in the map exactly when some entry carries it.
pub proof fn lemma_amap_dom<V>(s: Seq<(Seq<char>, V)>)
    ensures
        forall|k: Seq<char>|
            #[trigger] amap(s).contains_key(k) <==> exists|i: int|
                0 <= i < s.len() && (#[trigger] s[i]).0 == k,
    decreases s.len(),
{
    if s.len() > 0 {
        lemma_amap_dom(s.drop_last());
        assert forall|k: Seq<char>| #[trigger] amap(s).contains_key(k) implies exists|i: int|
            0 <= i < s.len() && (#[trigger] s[i]).0 == k by {
            if k == s.last().0 {
                assert(s[s.len() - 1].0 == k);
            } else {
                assert(amap(s.drop_last()).contains_key(k));
                let i = choose|i: int| 0 <= i < s.drop_last().len() && (#[trigger] s.drop_last()[i]).0
                    == k;
                assert(s[i].0 == k);
            }
        }
        assert forall|k: Seq<char>|
            (exists|i: int| 0 <= i < s.len() && (#[trigger] s[i]).0 == k) implies #[trigger] amap(
            s,
        ).contains_key(k) by {
            let i = choose|i: int| 0 <= i < s.len() && (#[trigger] s[i]).0 == k;
            if i == s.len() - 1 {
            } else {
                assert(s.drop_last()[i].0 == k);
                assert(exists|a: int|
                    0 <= a < s.drop_last().len() && (#[trigger] s.drop_last()[a]).0 == k);
                assert(amap(s.drop_last()).contains_key(k));
            }
        }
    }
}

/// With distinct keys, each entry is what the map holds at its key.
pub proof fn lemma_amap_at<V>(s: Seq<(Seq<char>, V)>, i: int)
    requires
        akeys_unique(s),
        0 <= i < s.len(),
    ensures
        amap(s).contains_key(s[i].0),
        amap(s)[s[i].0] == s[i].1,
    decreases s.len(),
{
    if i == s.len() - 1 {
    } else {
        assert(s[i].0 != s.last().0);
        assert(forall|a: int, b: int|
            0 <= a < b < s.drop_last().len() ==> (#[trigger] s.drop_last()[a]).0
                != (#[trigger] s.drop_last()[b]).0);
        lemma_amap_at(s.drop_last(), i);
        assert(s.drop_last()[i] == s[i]);
    }
}

/// Replacing the value at entry `i` updates the map at that entry's key.
pub proof fn lemma_amap_update<V>(s: Seq<(Seq<char>, V)>, i: int, v: V)
    requires
        akeys_unique(s),
        0 <= i < s.len(),
    ensures
        amap(s.update(i, (s[i].0, v))) == amap(s).insert(s[i].0, v),
        akeys_unique(s.update(i, (s[i].0, v))),
    decreases s.len(),
{
    let k = s[i].0;
    let u = s.update(i, (k, v));
    assert(akeys_unique(u)) by {
        assert(forall|a: int| 0 <= a < u.len() ==> (#[trigger] u[a]).0 == s[a].0);
    }
    if i == s.len() - 1 {
        assert(u.drop_last() =~= s.drop_last());
        assert(u.last() == (k, v));
        assert(amap(u) == amap(s.drop_last()).insert(k, v));
        assert(amap(s.drop_last()).insert(k, s[i].1).insert(k, v) =~= amap(s.drop_last()).insert(
            k,
            v,
        ));
    } else {
        assert(u.drop_last() =~= s.drop_last().update(i, (k, v)));
        assert(u.last() == s.last());
        assert(forall|a: int, b: int|
            0 <= a < b < s.drop_last().len() ==> (#[trigger] s.drop_last()[a]).0
                != (#[trigger] s.drop_last()[b]).0);
        assert(s.drop_last()[i] == s[i]);
        lemma_amap_update(s.drop_last(), i, v);
        assert(k != s.last().0);
        assert(amap(s.drop_last()).insert(k, v).insert(s.last().0, s.last().1) =~= amap(
            s.drop_last(),
        ).insert(s.last().0, s.last().1).insert(k, v));
    }
}

/// Appending an entry with a fresh key inserts it into the map.
pub proof fn lemma_amap_push<V>(s: Seq<(Seq<char>, V)>, k: Seq<char>, v: V)
    requires
        akeys_unique(s),
        forall|i: int| 0 <= i < s.len() ==> (#[trigger] s[i]).0 != k,
    ensures
        amap(s.push((k, v))) == amap(s).insert(k, v),
        akeys_unique(s.push((k, v))),
{
    let u = s.push((k, v));
    assert(u.drop_last() =~= s);
    assert(u.last() == (k, v));
    assert(forall|a: int| 0 <= a < s.len() ==> u[a] == s[a]);
}

/// Removing entry `i` removes its key from the map.
pub proof fn lemma_amap_remove<V>(s: Seq<(Seq<char>, V)>, i: int)
    requires
        akeys_unique(s),
        0 <= i < s.len(),
    ensures
        amap(s.remove(i)) == amap(s).remove(s[i].0),
        akeys_unique(s.remove(i)),
    decreases s.len(),
{
    let k = s[i].0;
    let u = s.remove(i);
    assert(akeys_unique(u)) by {
        assert(forall|a: int| 0 <= a < u.len() ==> u[a] == (if a < i {
            s[a]
        } else {
            s[a + 1]
        }));
    }
    assert(forall|a: int, b: int|
        0 <= a < b < s.drop_last().len() ==> (#[trigger] s.drop_last()[a]).0
            != (#[trigger] s.drop_last()[b]).0);
    if i == s.len() - 1 {
        assert(u =~= s.drop_last());
        lemma_amap_dom(s.drop_last());
        assert(!amap(s.drop_last()).contains_key(k)) by {
            if amap(s.drop_last()).contains_key(k) {
                let w = choose|w: int|
                    0 <= w < s.drop_last().len() && (#[trigger] s.drop_last()[w]).0 == k;
                assert(s[w].0 == k);
            }
        }
        assert(amap(s.drop_last()).insert(k, s[i].1).remove(k) =~= amap(s.drop_last()));
    } else {
        assert(u.drop_last() =~= s.drop_last().remove(i));
        assert(u.last() == s.last());
        assert(s.drop_last()[i] == s[i]);
        lemma_amap_remove(s.drop_last(), i);
        assert(k != s.last().0);
        assert(amap(s.drop_last()).remove(k).insert(s.last().0, s.last().1) =~= amap(
            s.drop_last(),
        ).insert(s.last().0, s.last().1).remove(k));
    }
}

} // verus!
