//! Association lists: a `Vec` of key/value pairs with unique keys, read as a
//! finite map.

use vstd::prelude::*;
use crate::primitives::{Address, U256};

verus! {

/// No key occurs twice in `s`.
pub open spec fn keys_unique<K, V>(s: Seq<(K, V)>) -> bool {
    forall|i: int, j: int| 0 <= i < s.len() && 0 <= j < s.len() && i != j ==> s[i].0 != s[j].0
}

/// The map that `s` stands for: a later pair wins over an earlier one.
pub open spec fn map_of<K, V>(s: Seq<(K, V)>) -> Map<K, V>
    decreases s.len(),
{
    if s.len() == 0 {
        Map::empty()
    } else {
        map_of(s.drop_last()).insert(s.last().0, s.last().1)
    }
}

/// A key is in the map exactly when some pair carries it.
pub proof fn lemma_map_of_dom<K, V>(s: Seq<(K, V)>, k: K)
    ensures
        map_of(s).contains_key(k) <==> exists|i: int| 0 <= i < s.len() && s[i].0 == k,
    decreases s.len(),
{
    if s.len() > 0 {
        lemma_map_of_dom(s.drop_last(), k);
        if map_of(s).contains_key(k) && s.last().0 != k {
            let i = choose|i: int| 0 <= i < s.len() - 1 && s.drop_last()[i].0 == k;
            assert(s[i].0 == k);
        }
        if exists|i: int| 0 <= i < s.len() && s[i].0 == k {
            let i = choose|i: int| 0 <= i < s.len() && s[i].0 == k;
            if i < s.len() - 1 {
                assert(s.drop_last()[i].0 == k);
            }
        }
    }
}

/// With unique keys, each pair's value is what the map holds for its key.
pub proof fn lemma_map_of_at<K, V>(s: Seq<(K, V)>, i: int)
    requires
        keys_unique(s),
        0 <= i < s.len(),
    ensures
        map_of(s).contains_key(s[i].0),
        map_of(s)[s[i].0] == s[i].1,
    decreases s.len(),
{
    if i < s.len() - 1 {
        assert(s.drop_last()[i] == s[i]);
        lemma_map_of_at(s.drop_last(), i);
    }
}

/// Replacing the value of an existing pair replaces it in the map.
pub proof fn lemma_map_of_update<K, V>(s: Seq<(K, V)>, i: int, v: V)
    requires
        keys_unique(s),
        0 <= i < s.len(),
    ensures
        keys_unique(s.update(i, (s[i].0, v))),
        map_of(s.update(i, (s[i].0, v))) == map_of(s).insert(s[i].0, v),
    decreases s.len(),
{
    let t = s.update(i, (s[i].0, v));
    assert(keys_unique(t));
    if i == s.len() - 1 {
        assert(t.drop_last() =~= s.drop_last());
        assert(map_of(t) =~= map_of(s).insert(s[i].0, v));
    } else {
        assert(t.drop_last() =~= s.drop_last().update(i, (s[i].0, v)));
        assert(s.drop_last()[i] == s[i]);
        lemma_map_of_update(s.drop_last(), i, v);
        assert(map_of(t) =~= map_of(s).insert(s[i].0, v));
    }
}

/// Appending a pair with a fresh key adds it to the map and keeps keys unique.
pub proof fn lemma_map_of_push<K, V>(s: Seq<(K, V)>, k: K, v: V)
    requires
        keys_unique(s),
        !map_of(s).contains_key(k),
    ensures
        keys_unique(s.push((k, v))),
        map_of(s.push((k, v))) == map_of(s).insert(k, v),
{
    lemma_map_of_dom(s, k);
    assert(s.push((k, v)).drop_last() =~= s);
}

/// With unique keys, the first pair may be added last instead.
pub proof fn lemma_map_of_prepend<K, V>(s: Seq<(K, V)>)
    requires
        keys_unique(s),
        s.len() > 0,
    ensures
        keys_unique(s.drop_first()),
        map_of(s) == map_of(s.drop_first()).insert(s[0].0, s[0].1),
    decreases s.len(),
{
    assert(keys_unique(s.drop_first()));
    if s.len() > 1 {
        let t = s.drop_last();
        assert(keys_unique(t));
        lemma_map_of_prepend(t);
        assert(s.drop_first().drop_last() =~= t.drop_first());
        assert(s.drop_first().last() == s.last());
        assert(s[0].0 != s.last().0);
        assert(map_of(s) =~= map_of(s.drop_first()).insert(s[0].0, s[0].1));
    } else {
        assert(s.drop_first() =~= Seq::<(K, V)>::empty());
        assert(s.drop_last() =~= Seq::<(K, V)>::empty());
        assert(map_of(Seq::<(K, V)>::empty()) == Map::<K, V>::empty());
        assert(map_of(s) =~= map_of(s.drop_first()).insert(s[0].0, s[0].1));
    }
}

/// Two lists with the same keys in the same places, whose values are related
/// pair by pair, stand for maps with the same keys whose values are related
/// key by key.
pub proof fn lemma_map_of_related<K, V, W>(
    s: Seq<(K, V)>,
    t: Seq<(K, W)>,
    rel: spec_fn(V, W) -> bool,
)
    requires
        keys_unique(s),
        t.len() == s.len(),
        forall|j: int| 0 <= j < s.len() ==> (#[trigger] t[j]).0 == s[j].0 && rel(s[j].1, t[j].1),
    ensures
        keys_unique(t),
        map_of(t).dom() == map_of(s).dom(),
        forall|k: K| #[trigger] map_of(s).contains_key(k) ==> rel(map_of(s)[k], map_of(t)[k]),
{
    assert(keys_unique(t)) by {
        assert forall|i: int, j: int|
            0 <= i < t.len() && 0 <= j < t.len() && i != j implies t[i].0 != t[j].0 by {
            assert(t[i].0 == s[i].0 && t[j].0 == s[j].0);
        }
    }
    assert forall|k: K| map_of(s).contains_key(k) <==> map_of(t).contains_key(k) by {
        lemma_map_of_dom(s, k);
        lemma_map_of_dom(t, k);
        if map_of(s).contains_key(k) {
            let i = choose|i: int| 0 <= i < s.len() && s[i].0 == k;
            assert(t[i].0 == k);
        }
        if map_of(t).contains_key(k) {
            let i = choose|i: int| 0 <= i < t.len() && t[i].0 == k;
            assert(t[i].0 == s[i].0);
        }
    }
    assert(map_of(t).dom() =~= map_of(s).dom());
    assert forall|k: K| #[trigger] map_of(s).contains_key(k) implies rel(
        map_of(s)[k],
        map_of(t)[k],
    ) by {
        lemma_map_of_dom(s, k);
        let i = choose|i: int| 0 <= i < s.len() && s[i].0 == k;
        assert(t[i].0 == s[i].0 && rel(s[i].1, t[i].1));
        lemma_map_of_at(s, i);
        lemma_map_of_at(t, i);
    }
}

/// The index of the pair whose key is `a`, if any.
pub fn find_address<V>(entries: &Vec<(Address, V)>, a: &Address) -> (r: Option<usize>)
    ensures
        match r {
            Some(i) => i < entries@.len() && entries@[i as int].0 == *a,
            None => forall|j: int| 0 <= j < entries@.len() ==> entries@[j].0 != *a,
        },
{
    let mut i: usize = 0;
    while i < entries.len()
        invariant
            i <= entries@.len(),
            forall|j: int| 0 <= j < i ==> entries@[j].0 != *a,
        decreases entries@.len() - i,
    {
        if entries[i].0 == *a {
            return Some(i);
        }
        i = i + 1;
    }
    None
}

/// The index of the pair whose key is `k`, if any.
pub fn find_word<V>(entries: &Vec<(U256, V)>, k: &U256) -> (r: Option<usize>)
    ensures
        match r {
            Some(i) => i < entries@.len() && entries@[i as int].0 == *k,
            None => forall|j: int| 0 <= j < entries@.len() ==> entries@[j].0 != *k,
        },
{
    let mut i: usize = 0;
    while i < entries.len()
        invariant
            i <= entries@.len(),
            forall|j: int| 0 <= j < i ==> entries@[j].0 != *k,
        decreases entries@.len() - i,
    {
        if entries[i].0 == *k {
            return Some(i);
        }
        i = i + 1;
    }
    None
}

/// Sets the value of key `k`, replacing any earlier value.
pub fn insert_word<V>(entries: &mut Vec<(U256, V)>, k: U256, v: V)
    requires
        keys_unique(old(entries)@),
    ensures
        keys_unique(final(entries)@),
        map_of(final(entries)@) == map_of(old(entries)@).insert(k, v),
{
    match find_word(entries, &k) {
        Some(i) => {
            proof {
                lemma_map_of_update(entries@, i as int, v);
            }
            entries.set(i, (k, v));
        },
        None => {
            proof {
                lemma_map_of_dom(entries@, k);
                lemma_map_of_push(entries@, k, v);
            }
            entries.push((k, v));
        },
    }
}

/// Sets the value of address `a`, replacing any earlier value.
pub fn insert_address<V>(entries: &mut Vec<(Address, V)>, a: Address, v: V)
    requires
        keys_unique(old(entries)@),
    ensures
        keys_unique(final(entries)@),
        map_of(final(entries)@) == map_of(old(entries)@).insert(a, v),
{
    match find_address(entries, &a) {
        Some(i) => {
            proof {
                lemma_map_of_update(entries@, i as int, v);
            }
            entries.set(i, (a, v));
        },
        None => {
            proof {
                lemma_map_of_dom(entries@, a);
                lemma_map_of_push(entries@, a, v);
            }
            entries.push((a, v));
        },
    }
}

} // verus!
