//! Association lists: sequences of (key, value) entries without repeated
//! keys, read as finite maps. The library keeps its keyed collections this
//! way, so that every walk over them has a fixed order.
use vstd::prelude::*;

verus! {

/// The keys of an association list, in order.
pub open spec fn keys_of<K, V>(s: Seq<(K, V)>) -> Seq<K> {
    s.map_values(|e: (K, V)| e.0)
}

/// No key occurs twice.
pub open spec fn distinct_keys<K, V>(s: Seq<(K, V)>) -> bool {
    keys_of(s).no_duplicates()
}

/// The map that an association list stands for.
pub open spec fn assoc_map<K, V>(s: Seq<(K, V)>) -> Map<K, V>
    decreases s.len(),
{
    if s.len() == 0 {
        Map::empty()
    } else {
        assoc_map(s.drop_last()).insert(s.last().0, s.last().1)
    }
}

/// The keys of the map are the keys of the list.
pub proof fn lemma_assoc_dom<K, V>(s: Seq<(K, V)>)
    ensures
        assoc_map(s).dom() == keys_of(s).to_set(),
        assoc_map(s).dom().finite(),
        forall|k: K| #[trigger] assoc_map(s).contains_key(k) <==> keys_of(s).contains(k),
    decreases s.len(),
{
    if s.len() > 0 {
        lemma_assoc_dom(s.drop_last());
        assert(keys_of(s) =~= keys_of(s.drop_last()).push(s.last().0));
        assert forall|k: K| keys_of(s).contains(k) <==> (keys_of(s.drop_last()).contains(k)
            || k == s.last().0) by {
            if keys_of(s).contains(k) {
                let j = choose|j: int| 0 <= j < keys_of(s).len() && keys_of(s)[j] == k;
                if j < s.len() - 1 {
                    assert(keys_of(s.drop_last())[j] == k);
                }
            }
            if keys_of(s.drop_last()).contains(k) {
                let j = choose|j: int|
                    0 <= j < keys_of(s.drop_last()).len() && keys_of(s.drop_last())[j] == k;
                assert(keys_of(s)[j] == k);
            }
            if k == s.last().0 {
                assert(keys_of(s)[s.len() - 1] == k);
            }
        }
        assert(assoc_map(s).dom() =~= keys_of(s).to_set());
    } else {
        assert(assoc_map(s).dom() =~= keys_of(s).to_set());
    }
}

/// With distinct keys, entry `i` gives the value the map holds for its key.
pub proof fn lemma_assoc_get<K, V>(s: Seq<(K, V)>, i: int)
    requires
        distinct_keys(s),
        0 <= i < s.len(),
    ensures
        assoc_map(s).contains_key(s[i].0),
        assoc_map(s)[s[i].0] == s[i].1,
    decreases s.len(),
{
    if i < s.len() - 1 {
        let t = s.drop_last();
        assert(keys_of(t) =~= keys_of(s).drop_last());
        lemma_assoc_get(t, i);
        assert(keys_of(s)[i] != keys_of(s)[s.len() - 1]);
        assert(t[i] == s[i]);
    }
}

/// Replacing the value of entry `i` replaces the value of its key.
pub proof fn lemma_assoc_update<K, V>(s: Seq<(K, V)>, i: int, v: V)
    requires
        distinct_keys(s),
        0 <= i < s.len(),
    ensures
        assoc_map(s.update(i, (s[i].0, v))) == assoc_map(s).insert(s[i].0, v),
        keys_of(s.update(i, (s[i].0, v))) == keys_of(s),
        distinct_keys(s.update(i, (s[i].0, v))),
    decreases s.len(),
{
    let u = s.update(i, (s[i].0, v));
    assert(keys_of(u) =~= keys_of(s));
    if i == s.len() - 1 {
        assert(u.drop_last() =~= s.drop_last());
        assert(assoc_map(u) =~= assoc_map(s).insert(s[i].0, v));
    } else {
        let t = s.drop_last();
        assert(keys_of(t) =~= keys_of(s).drop_last());
        lemma_assoc_update(t, i, v);
        assert(u.drop_last() =~= t.update(i, (t[i].0, v)));
        assert(keys_of(s)[i] != keys_of(s)[s.len() - 1]);
        assert(assoc_map(u) =~= assoc_map(s).insert(s[i].0, v));
    }
}

/// Appending an entry with a new key adds that key.
pub proof fn lemma_assoc_push<K, V>(s: Seq<(K, V)>, k: K, v: V)
    requires
        distinct_keys(s),
        !keys_of(s).contains(k),
    ensures
        assoc_map(s.push((k, v))) == assoc_map(s).insert(k, v),
        keys_of(s.push((k, v))) == keys_of(s).push(k),
        distinct_keys(s.push((k, v))),
{
    let u = s.push((k, v));
    assert(u.drop_last() =~= s);
    assert(keys_of(u) =~= keys_of(s).push(k));
    assert forall|a: int, b: int| 0 <= a < b < keys_of(u).len() implies keys_of(u)[a] != keys_of(
        u,
    )[b] by {
        if b == keys_of(u).len() - 1 {
            assert(keys_of(s)[a] == keys_of(u)[a]);
        } else {
            assert(keys_of(s)[a] == keys_of(u)[a]);
            assert(keys_of(s)[b] == keys_of(u)[b]);
        }
    }
}

/// Removing entry `i` removes its key.
pub proof fn lemma_assoc_remove<K, V>(s: Seq<(K, V)>, i: int)
    requires
        distinct_keys(s),
        0 <= i < s.len(),
    ensures
        assoc_map(s.remove(i)) == assoc_map(s).remove(s[i].0),
        keys_of(s.remove(i)) == keys_of(s).remove(i),
        distinct_keys(s.remove(i)),
    decreases s.len(),
{
    let u = s.remove(i);
    assert(keys_of(u) =~= keys_of(s).remove(i));
    assert forall|a: int, b: int| 0 <= a < b < keys_of(u).len() implies keys_of(u)[a] != keys_of(
        u,
    )[b] by {
        let a2 = if a < i { a } else { a + 1 };
        let b2 = if b < i { b } else { b + 1 };
        assert(keys_of(u)[a] == keys_of(s)[a2]);
        assert(keys_of(u)[b] == keys_of(s)[b2]);
    }
    let t = s.drop_last();
    assert(keys_of(t) =~= keys_of(s).drop_last());
    if i == s.len() - 1 {
        assert(u =~= t);
        lemma_assoc_dom(t);
        assert forall|j: int| 0 <= j < keys_of(t).len() implies keys_of(t)[j] != s[i].0 by {
            assert(keys_of(s)[j] == keys_of(t)[j]);
            assert(keys_of(s)[s.len() - 1] == s[i].0);
            assert(keys_of(s)[j] != keys_of(s)[s.len() - 1]);
        }
        assert(!assoc_map(t).contains_key(s[i].0));
        assert(assoc_map(u) =~= assoc_map(s).remove(s[i].0));
    } else {
        lemma_assoc_remove(t, i);
        assert(u.drop_last() =~= t.remove(i));
        assert(u.last() == s.last());
        assert(keys_of(s)[i] != keys_of(s)[s.len() - 1]);
        assert(assoc_map(u) =~= assoc_map(s).remove(s[i].0));
    }
}

/// The position of key `k`, or -1 when it has no entry.
pub open spec fn index_of_key<K, V>(s: Seq<(K, V)>, k: K) -> int {
    if keys_of(s).contains(k) {
        choose|i: int| 0 <= i < s.len() && s[i].0 == k
    } else {
        -1
    }
}

/// The list with `k` bound to `v`: its entry is replaced in place, or a new
/// entry is appended.
pub open spec fn set_entry<K, V>(s: Seq<(K, V)>, k: K, v: V) -> Seq<(K, V)> {
    let i = index_of_key(s, k);
    if i >= 0 {
        s.update(i, (k, v))
    } else {
        s.push((k, v))
    }
}

/// The list without the entry of `k`.
pub open spec fn remove_entry<K, V>(s: Seq<(K, V)>, k: K) -> Seq<(K, V)> {
    let i = index_of_key(s, k);
    if i >= 0 {
        s.remove(i)
    } else {
        s
    }
}

/// With distinct keys, the entry found for `k` is the one at `index_of_key`.
pub proof fn lemma_index_of_key<K, V>(s: Seq<(K, V)>, k: K)
    requires
        distinct_keys(s),
    ensures
        keys_of(s).contains(k) ==> 0 <= index_of_key(s, k) < s.len() && s[index_of_key(s, k)].0
            == k,
        !keys_of(s).contains(k) ==> index_of_key(s, k) == -1,
        forall|i: int| 0 <= i < s.len() && s[i].0 == k ==> index_of_key(s, k) == i,
{
    if keys_of(s).contains(k) {
        let j = choose|j: int| 0 <= j < keys_of(s).len() && keys_of(s)[j] == k;
        assert(s[j].0 == k);
        let i = index_of_key(s, k);
        assert forall|m: int| 0 <= m < s.len() && s[m].0 == k implies i == m by {
            assert(keys_of(s)[m] == keys_of(s)[i]);
        }
    } else {
        assert forall|m: int| 0 <= m < s.len() && s[m].0 == k implies false by {
            assert(keys_of(s)[m] == k);
        }
    }
}

} // verus!
