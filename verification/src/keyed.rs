//! Sequences of keyed entries read as finite maps.
use vstd::prelude::*;

verus! {

pub open spec fn has_key<V>(s: Seq<(Seq<char>, V)>, k: Seq<char>) -> bool {
    exists|i: int| 0 <= i < s.len() && (#[trigger] s[i]).0 == k
}

pub open spec fn key_index<V>(s: Seq<(Seq<char>, V)>, k: Seq<char>) -> int {
    choose|i: int| 0 <= i < s.len() && (#[trigger] s[i]).0 == k
}

pub open spec fn keys_unique<V>(s: Seq<(Seq<char>, V)>) -> bool {
    forall|i: int, j: int|
        0 <= i < s.len() && 0 <= j < s.len() && i != j ==> (#[trigger] s[i]).0 != (#[trigger] s[j]).0
}

/// The map from each key to the value stored beside it.
pub open spec fn keyed_map<V>(s: Seq<(Seq<char>, V)>) -> Map<Seq<char>, V> {
    Map::new(|k: Seq<char>| has_key(s, k), |k: Seq<char>| s[key_index(s, k)].1)
}

pub proof fn lemma_keyed_at<V>(s: Seq<(Seq<char>, V)>, i: int)
    requires
        keys_unique(s),
        0 <= i < s.len(),
    ensures
        keyed_map(s).contains_key(s[i].0),
        keyed_map(s)[s[i].0] == s[i].1,
{
    let k = s[i].0;
    assert(has_key(s, k));
    let j = key_index(s, k);
    assert(s[j].0 == k);
}

pub proof fn lemma_keyed_absent<V>(s: Seq<(Seq<char>, V)>, k: Seq<char>)
    requires
        forall|i: int| 0 <= i < s.len() ==> (#[trigger] s[i]).0 != k,
    ensures
        !keyed_map(s).contains_key(k),
{
}

/// Replacing the value at an index keeps the keys and updates one entry of the map.
pub proof fn lemma_keyed_update<V>(s: Seq<(Seq<char>, V)>, i: int, v: V)
    requires
        keys_unique(s),
        0 <= i < s.len(),
    ensures
        keys_unique(s.update(i, (s[i].0, v))),
        keyed_map(s.update(i, (s[i].0, v))) == keyed_map(s).insert(s[i].0, v),
{
    let t = s.update(i, (s[i].0, v));
    assert(keys_unique(t)) by {
        assert forall|a: int, b: int|
            0 <= a < t.len() && 0 <= b < t.len() && a != b implies (#[trigger] t[a]).0 != (#[trigger] t[b]).0 by {
            assert(t[a].0 == s[a].0);
            assert(t[b].0 == s[b].0);
        }
    }
    let m = keyed_map(s).insert(s[i].0, v);
    assert forall|k: Seq<char>| #[trigger] keyed_map(t).contains_key(k) <==> m.contains_key(k) by {
        if has_key(t, k) {
            let j = choose|j: int| 0 <= j < t.len() && (#[trigger] t[j]).0 == k;
            assert(s[j].0 == k);
        }
        if has_key(s, k) {
            let j = choose|j: int| 0 <= j < s.len() && (#[trigger] s[j]).0 == k;
            assert(t[j].0 == k);
        }
    }
    assert forall|k: Seq<char>| #[trigger] keyed_map(t).contains_key(k) implies keyed_map(t)[k] == m[k] by {
        let j = choose|j: int| 0 <= j < t.len() && (#[trigger] t[j]).0 == k;
        lemma_keyed_at(t, j);
        if j != i {
            assert(s[j] == t[j]);
            lemma_keyed_at(s, j);
        }
    }
    assert(keyed_map(t) =~= m);
}

/// Inserting an entry with a new key at any position adds that key to the map.
pub proof fn lemma_keyed_insert<V>(s: Seq<(Seq<char>, V)>, p: int, e: (Seq<char>, V))
    requires
        keys_unique(s),
        0 <= p <= s.len(),
        !has_key(s, e.0),
    ensures
        keys_unique(s.insert(p, e)),
        keyed_map(s.insert(p, e)) == keyed_map(s).insert(e.0, e.1),
{
    let t = s.insert(p, e);
    assert forall|a: int| 0 <= a < t.len() implies (#[trigger] t[a]) == (if a < p {
        s[a]
    } else if a == p {
        e
    } else {
        s[a - 1]
    }) by {}
    assert(keys_unique(t)) by {
        assert forall|a: int, b: int|
            0 <= a < t.len() && 0 <= b < t.len() && a != b implies (#[trigger] t[a]).0 != (#[trigger] t[b]).0 by {
            if a != p && b != p {
                let sa = if a < p { a } else { a - 1 };
                let sb = if b < p { b } else { b - 1 };
                assert(s[sa].0 != s[sb].0);
            } else if a == p {
                let sb = if b < p { b } else { b - 1 };
                assert(s[sb].0 != e.0);
            } else {
                let sa = if a < p { a } else { a - 1 };
                assert(s[sa].0 != e.0);
            }
        }
    }
    let m = keyed_map(s).insert(e.0, e.1);
    assert forall|k: Seq<char>| #[trigger] keyed_map(t).contains_key(k) <==> m.contains_key(k) by {
        if has_key(t, k) {
            let j = choose|j: int| 0 <= j < t.len() && (#[trigger] t[j]).0 == k;
            if j < p {
                assert(s[j].0 == k);
            } else if j > p {
                assert(s[j - 1].0 == k);
            }
        }
        if has_key(s, k) {
            let j = choose|j: int| 0 <= j < s.len() && (#[trigger] s[j]).0 == k;
            if j < p {
                assert(t[j].0 == k);
            } else {
                assert(t[j + 1].0 == k);
            }
        }
        if k == e.0 {
            assert(t[p].0 == k);
        }
    }
    assert forall|k: Seq<char>| #[trigger] keyed_map(t).contains_key(k) implies keyed_map(t)[k] == m[k] by {
        let j = choose|j: int| 0 <= j < t.len() && (#[trigger] t[j]).0 == k;
        lemma_keyed_at(t, j);
        if j < p {
            lemma_keyed_at(s, j);
        } else if j > p {
            lemma_keyed_at(s, j - 1);
        }
    }
    assert(keyed_map(t) =~= m);
}


/// With distinct keys, the map has one key per entry.
pub proof fn lemma_keyed_len<V>(s: Seq<(Seq<char>, V)>)
    requires
        keys_unique(s),
    ensures
        keyed_map(s).dom().finite(),
        keyed_map(s).dom().len() == s.len(),
    decreases s.len(),
{
    if s.len() == 0 {
        assert(keyed_map(s).dom() =~= Set::<Seq<char>>::empty());
    } else {
        let p = s.drop_last();
        let e = s.last();
        assert(keys_unique(p));
        lemma_keyed_len(p);
        assert(!has_key(p, e.0)) by {
            if has_key(p, e.0) {
                let j = choose|j: int| 0 <= j < p.len() && (#[trigger] p[j]).0 == e.0;
                assert(s[j].0 == s[s.len() - 1].0);
            }
        }
        assert(p.insert(p.len() as int, e) =~= s);
        lemma_keyed_insert(p, p.len() as int, e);
        assert(!keyed_map(p).dom().contains(e.0));
        assert(keyed_map(s).dom() =~= keyed_map(p).dom().insert(e.0));
    }
}

} // verus!
