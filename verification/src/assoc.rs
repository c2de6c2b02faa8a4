//! Association sequences keyed by strings, and their ghost map views.
//!
//! Several structures in this crate store key/value pairs in insertion order
//! and are specified through the finite map obtained by inserting the pairs
//! left to right (so a later pair with the same key wins, matching map
//! insertion semantics).

use vstd::prelude::*;

verus! {

/// The map obtained by inserting the pairs left to right; a later pair with
/// the same key overwrites an earlier one.
pub open spec fn string_pairs_map<V>(s: Seq<(String, V)>) -> Map<Seq<char>, V>
    decreases s.len(),
{
    if s.len() == 0 {
        Map::<Seq<char>, V>::empty()
    } else {
        string_pairs_map(s.drop_last()).insert(s.last().0@, s.last().1)
    }
}

/// Whether the keys of the pair sequence are pairwise distinct.
pub open spec fn unique_string_keys<V>(s: Seq<(String, V)>) -> bool {
    forall|i: int, j: int| 0 <= i < j < s.len() ==> s[i].0@ != s[j].0@
}

/// A key is in the map view exactly when some pair holds it.
pub proof fn lemma_pairs_map_domain<V>(s: Seq<(String, V)>, key: Seq<char>)
    ensures
        string_pairs_map(s).contains_key(key) <==> exists|i: int| 0 <= i < s.len() && s[i].0@ == key,
    decreases s.len(),
{
    if s.len() == 0 {
    } else {
        lemma_pairs_map_domain(s.drop_last(), key);
        if s.last().0@ == key {
            assert(s[s.len() - 1].0@ == key);
        } else {
            if string_pairs_map(s).contains_key(key) {
                let i = choose|i: int| 0 <= i < s.drop_last().len() && s.drop_last()[i].0@ == key;
                assert(s[i].0@ == key);
            }
            if exists|i: int| 0 <= i < s.len() && s[i].0@ == key {
                let i = choose|i: int| 0 <= i < s.len() && s[i].0@ == key;
                assert(i < s.len() - 1);
                assert(s.drop_last()[i].0@ == key);
            }
        }
    }
}

/// The value at a key is the value of the last pair holding that key.
pub proof fn lemma_pairs_map_get<V>(s: Seq<(String, V)>, key: Seq<char>, i: int)
    requires
        0 <= i < s.len(),
        s[i].0@ == key,
        forall|j: int| i < j < s.len() ==> s[j].0@ != key,
    ensures
        string_pairs_map(s).contains_key(key),
        string_pairs_map(s)[key] == s[i].1,
    decreases s.len(),
{
    if i == s.len() - 1 {
    } else {
        assert(s.drop_last()[i] == s[i]);
        lemma_pairs_map_get(s.drop_last(), key, i);
        assert(s.last().0@ != key);
    }
}

/// A key held by no pair is not in the map view.
pub proof fn lemma_pairs_map_absent<V>(s: Seq<(String, V)>, key: Seq<char>)
    requires
        forall|j: int| 0 <= j < s.len() ==> s[j].0@ != key,
    ensures
        !string_pairs_map(s).contains_key(key),
{
    lemma_pairs_map_domain(s, key);
}

/// Replacing the value at the unique index holding a key updates the map
/// view as an insertion would.
pub proof fn lemma_pairs_map_update<V>(s: Seq<(String, V)>, i: int, p: (String, V))
    requires
        0 <= i < s.len(),
        s[i].0@ == p.0@,
        forall|j: int| 0 <= j < s.len() && j != i ==> s[j].0@ != p.0@,
    ensures
        string_pairs_map(s.update(i, p)) == string_pairs_map(s).insert(p.0@, p.1),
    decreases s.len(),
{
    let t = s.update(i, p);
    if i == s.len() - 1 {
        assert(t.drop_last() =~= s.drop_last());
        assert(t.last() == p);
        assert(string_pairs_map(t) == string_pairs_map(s.drop_last()).insert(p.0@, p.1));
        assert(string_pairs_map(s).insert(p.0@, p.1) == string_pairs_map(s.drop_last()).insert(
            s.last().0@,
            s.last().1,
        ).insert(p.0@, p.1));
        assert(s.last().0@ == p.0@);
        assert(string_pairs_map(s.drop_last()).insert(s.last().0@, s.last().1).insert(p.0@, p.1)
            =~= string_pairs_map(s.drop_last()).insert(p.0@, p.1));
    } else {
        assert(t.drop_last() =~= s.drop_last().update(i, p));
        assert(t.last() == s.last());
        lemma_pairs_map_update(s.drop_last(), i, p);
        assert(string_pairs_map(t) == string_pairs_map(s.drop_last()).insert(p.0@, p.1).insert(
            s.last().0@,
            s.last().1,
        ));
        assert(s.last().0@ != p.0@);
        assert(string_pairs_map(s.drop_last()).insert(p.0@, p.1).insert(s.last().0@, s.last().1)
            =~= string_pairs_map(s.drop_last()).insert(s.last().0@, s.last().1).insert(
            p.0@,
            p.1,
        ));
    }
}

/// Appending a pair inserts its key into the map view.
pub proof fn lemma_pairs_map_push<V>(s: Seq<(String, V)>, p: (String, V))
    ensures
        string_pairs_map(s.push(p)) == string_pairs_map(s).insert(p.0@, p.1),
{
    assert(s.push(p).drop_last() =~= s);
    assert(s.push(p).last() == p);
}

/// The map obtained by inserting key/value pairs left to right, for pair
/// sequences whose keys are already mathematical values.
pub open spec fn pairs_map<K, V>(s: Seq<(K, V)>) -> Map<K, V>
    decreases s.len(),
{
    if s.len() == 0 {
        Map::<K, V>::empty()
    } else {
        pairs_map(s.drop_last()).insert(s.last().0, s.last().1)
    }
}

/// Whether the keys of the pair sequence are pairwise distinct.
pub open spec fn pairs_unique<K, V>(s: Seq<(K, V)>) -> bool {
    forall|i: int, j: int| 0 <= i < j < s.len() ==> s[i].0 != s[j].0
}

/// A key is in the map view exactly when some pair holds it.
pub proof fn lemma_gpairs_map_domain<K, V>(s: Seq<(K, V)>, key: K)
    ensures
        pairs_map(s).contains_key(key) <==> exists|i: int| 0 <= i < s.len() && s[i].0 == key,
    decreases s.len(),
{
    if s.len() == 0 {
    } else {
        lemma_gpairs_map_domain(s.drop_last(), key);
        if s.last().0 == key {
            assert(s[s.len() - 1].0 == key);
        } else {
            if pairs_map(s).contains_key(key) {
                let i = choose|i: int| 0 <= i < s.drop_last().len() && s.drop_last()[i].0 == key;
                assert(s[i].0 == key);
            }
            if exists|i: int| 0 <= i < s.len() && s[i].0 == key {
                let i = choose|i: int| 0 <= i < s.len() && s[i].0 == key;
                assert(i < s.len() - 1);
                assert(s.drop_last()[i].0 == key);
            }
        }
    }
}

/// The value at a key is the value of the last pair holding that key.
pub proof fn lemma_gpairs_map_get<K, V>(s: Seq<(K, V)>, key: K, i: int)
    requires
        0 <= i < s.len(),
        s[i].0 == key,
        forall|j: int| i < j < s.len() ==> s[j].0 != key,
    ensures
        pairs_map(s).contains_key(key),
        pairs_map(s)[key] == s[i].1,
    decreases s.len(),
{
    if i == s.len() - 1 {
    } else {
        assert(s.drop_last()[i] == s[i]);
        lemma_gpairs_map_get(s.drop_last(), key, i);
        assert(s.last().0 != key);
    }
}

/// A key held by no pair is not in the map view.
pub proof fn lemma_gpairs_map_absent<K, V>(s: Seq<(K, V)>, key: K)
    requires
        forall|j: int| 0 <= j < s.len() ==> s[j].0 != key,
    ensures
        !pairs_map(s).contains_key(key),
{
    lemma_gpairs_map_domain(s, key);
}

/// Replacing the value at the unique index holding a key updates the map
/// view as an insertion would.
pub proof fn lemma_gpairs_map_update<K, V>(s: Seq<(K, V)>, i: int, p: (K, V))
    requires
        0 <= i < s.len(),
        s[i].0 == p.0,
        forall|j: int| 0 <= j < s.len() && j != i ==> s[j].0 != p.0,
    ensures
        pairs_map(s.update(i, p)) == pairs_map(s).insert(p.0, p.1),
    decreases s.len(),
{
    let t = s.update(i, p);
    if i == s.len() - 1 {
        assert(t.drop_last() =~= s.drop_last());
        assert(t.last() == p);
        assert(pairs_map(s).insert(p.0, p.1) == pairs_map(s.drop_last()).insert(
            s.last().0,
            s.last().1,
        ).insert(p.0, p.1));
        assert(s.last().0 == p.0);
        assert(pairs_map(s.drop_last()).insert(s.last().0, s.last().1).insert(p.0, p.1)
            =~= pairs_map(s.drop_last()).insert(p.0, p.1));
    } else {
        assert(t.drop_last() =~= s.drop_last().update(i, p));
        assert(t.last() == s.last());
        lemma_gpairs_map_update(s.drop_last(), i, p);
        assert(pairs_map(t) == pairs_map(s.drop_last()).insert(p.0, p.1).insert(
            s.last().0,
            s.last().1,
        ));
        assert(s.last().0 != p.0);
        assert(pairs_map(s.drop_last()).insert(p.0, p.1).insert(s.last().0, s.last().1)
            =~= pairs_map(s.drop_last()).insert(s.last().0, s.last().1).insert(p.0, p.1));
    }
}

/// Appending a pair inserts its key into the map view.
pub proof fn lemma_gpairs_map_push<K, V>(s: Seq<(K, V)>, p: (K, V))
    ensures
        pairs_map(s.push(p)) == pairs_map(s).insert(p.0, p.1),
{
    assert(s.push(p).drop_last() =~= s);
    assert(s.push(p).last() == p);
}

} // verus!
