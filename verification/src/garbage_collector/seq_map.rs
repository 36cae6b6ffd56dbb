use vstd::prelude::*;

verus! {

/// The map obtained by inserting the pairs of `s` one after the other:
/// a later pair replaces an earlier one with the same key.
pub open spec fn seq_to_map<K, V>(s: Seq<(K, V)>) -> Map<K, V>
    decreases s.len(),
{
    if s.len() == 0 {
        Map::empty()
    } else {
        seq_to_map(s.drop_last()).insert(s.last().0, s.last().1)
    }
}

/// No two pairs of `s` have the same key.
pub open spec fn keys_distinct<K, V>(s: Seq<(K, V)>) -> bool {
    forall|i: int, j: int| 0 <= i < s.len() && 0 <= j < s.len() && i != j ==> s[i].0 != s[j].0
}

/// `k` is the key of some pair of `s`.
pub open spec fn has_key<K, V>(s: Seq<(K, V)>, k: K) -> bool {
    exists|i: int| 0 <= i < s.len() && s[i].0 == k
}

/// The keys of the map are exactly the keys of the pairs.
pub proof fn lemma_seq_to_map_dom<K, V>(s: Seq<(K, V)>)
    ensures
        forall|k: K| #[trigger] seq_to_map(s).contains_key(k) <==> has_key(s, k),
    decreases s.len(),
{
    if s.len() > 0 {
        let r = s.drop_last();
        lemma_seq_to_map_dom(r);
        assert forall|k: K| #[trigger] seq_to_map(s).contains_key(k) <==> has_key(s, k) by {
            if seq_to_map(s).contains_key(k) {
                if k == s.last().0 {
                    assert(s[s.len() - 1].0 == k);
                } else {
                    assert(seq_to_map(r).contains_key(k));
                    assert(has_key(r, k));
                    let i = choose|i: int| 0 <= i < r.len() && r[i].0 == k;
                    assert(s[i].0 == k);
                }
            }
            if has_key(s, k) {
                let i = choose|i: int| 0 <= i < s.len() && s[i].0 == k;
                if i < s.len() - 1 {
                    assert(r[i].0 == k);
                    assert(has_key(r, k));
                    assert(seq_to_map(r).contains_key(k));
                }
            }
        }
    }
}

/// A pair that no later pair overrides gives the map its value for that key.
pub proof fn lemma_seq_to_map_last<K, V>(s: Seq<(K, V)>, i: int)
    requires
        0 <= i < s.len(),
        forall|j: int| i < j < s.len() ==> s[j].0 != s[i].0,
    ensures
        seq_to_map(s).contains_key(s[i].0),
        seq_to_map(s)[s[i].0] == s[i].1,
    decreases s.len(),
{
    if i < s.len() - 1 {
        let r = s.drop_last();
        assert forall|j: int| i < j < r.len() implies r[j].0 != r[i].0 by {
            assert(r[j] == s[j]);
        }
        lemma_seq_to_map_last(r, i);
        assert(s[s.len() - 1].0 != s[i].0);
    }
}

/// With distinct keys, each pair gives the map its value for its key.
pub proof fn lemma_seq_to_map_index<K, V>(s: Seq<(K, V)>, i: int)
    requires
        0 <= i < s.len(),
        keys_distinct(s),
    ensures
        seq_to_map(s).contains_key(s[i].0),
        seq_to_map(s)[s[i].0] == s[i].1,
{
    lemma_seq_to_map_last(s, i);
}

/// Replacing the value of a pair, keys being distinct, replaces the map's value for that key.
pub proof fn lemma_seq_to_map_update<K, V>(s: Seq<(K, V)>, j: int, v: V)
    requires
        0 <= j < s.len(),
        keys_distinct(s),
    ensures
        seq_to_map(s.update(j, (s[j].0, v))) == seq_to_map(s).insert(s[j].0, v),
        keys_distinct(s.update(j, (s[j].0, v))),
    decreases s.len(),
{
    let k = s[j].0;
    let t = s.update(j, (k, v));
    assert(t.drop_last() == if j == s.len() - 1 { s.drop_last() } else { s.drop_last().update(j, (k, v)) });
    if j < s.len() - 1 {
        lemma_seq_to_map_update(s.drop_last(), j, v);
        assert(s.last().0 != k);
        assert(seq_to_map(t) =~= seq_to_map(s).insert(k, v));
    } else {
        assert(seq_to_map(t) =~= seq_to_map(s).insert(k, v));
    }
}

/// Appending a pair with a new key keeps the keys distinct.
pub proof fn lemma_keys_distinct_push<K, V>(s: Seq<(K, V)>, p: (K, V))
    requires
        keys_distinct(s),
        !has_key(s, p.0),
    ensures
        keys_distinct(s.push(p)),
{
    let t = s.push(p);
    assert forall|i: int, j: int| 0 <= i < t.len() && 0 <= j < t.len() && i != j implies t[i].0 != t[j].0 by {
        if i == s.len() {
            assert(t[j] == s[j]);
        } else if j == s.len() {
            assert(t[i] == s[i]);
        } else {
            assert(t[i] == s[i] && t[j] == s[j]);
        }
    }
}

} // verus!
