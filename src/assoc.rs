use vstd::prelude::*;

verus! {

/// The map described by a sequence of entries, where a later entry for a key
/// shadows an earlier one.
pub open spec fn assoc<T, K, V>(s: Seq<T>, key: spec_fn(T) -> K, val: spec_fn(T) -> V) -> Map<K, V>
    decreases s.len(),
{
    if s.len() == 0 {
        Map::empty()
    } else {
        assoc(s.drop_last(), key, val).insert(key(s.last()), val(s.last()))
    }
}

/// No two entries of `s` share a key.
pub open spec fn keys_unique<T, K>(s: Seq<T>, key: spec_fn(T) -> K) -> bool {
    forall|a: int, b: int| 0 <= a < b < s.len() ==> key(s[a]) != key(s[b])
}

pub proof fn lemma_assoc_push<T, K, V>(s: Seq<T>, x: T, key: spec_fn(T) -> K, val: spec_fn(T) -> V)
    ensures
        assoc(s.push(x), key, val) == assoc(s, key, val).insert(key(x), val(x)),
{
    assert(s.push(x).drop_last() =~= s);
}

pub proof fn lemma_assoc_contains<T, K, V>(s: Seq<T>, key: spec_fn(T) -> K, val: spec_fn(T) -> V, k: K)
    ensures
        assoc(s, key, val).contains_key(k) <==> exists|j: int| 0 <= j < s.len() && key(s[j]) == k,
    decreases s.len(),
{
    if s.len() > 0 {
        lemma_assoc_contains(s.drop_last(), key, val, k);
        if assoc(s, key, val).contains_key(k) && key(s.last()) != k {
            let j = choose|j: int| 0 <= j < s.len() - 1 && key(s.drop_last()[j]) == k;
            assert(key(s[j]) == k);
        }
        if exists|j: int| 0 <= j < s.len() && key(s[j]) == k {
            let j = choose|j: int| 0 <= j < s.len() && key(s[j]) == k;
            if j < s.len() - 1 {
                assert(key(s.drop_last()[j]) == k);
            }
        }
    }
}

pub proof fn lemma_assoc_index<T, K, V>(s: Seq<T>, key: spec_fn(T) -> K, val: spec_fn(T) -> V, j: int)
    requires
        keys_unique(s, key),
        0 <= j < s.len(),
    ensures
        assoc(s, key, val).contains_key(key(s[j])),
        assoc(s, key, val)[key(s[j])] == val(s[j]),
    decreases s.len(),
{
    if j < s.len() - 1 {
        lemma_assoc_index(s.drop_last(), key, val, j);
    }
}

pub proof fn lemma_assoc_update<T, K, V>(s: Seq<T>, t: Seq<T>, i: int, key: spec_fn(T) -> K, val: spec_fn(T) -> V)
    requires
        keys_unique(s, key),
        0 <= i < s.len(),
        t.len() == s.len(),
        forall|j: int| 0 <= j < s.len() && j != i ==> t[j] == s[j],
        key(t[i]) == key(s[i]),
    ensures
        assoc(t, key, val) == assoc(s, key, val).insert(key(s[i]), val(t[i])),
        keys_unique(t, key),
    decreases s.len(),
{
    if i == s.len() - 1 {
        assert(t.drop_last() =~= s.drop_last());
    } else {
        lemma_assoc_update(s.drop_last(), t.drop_last(), i, key, val);
        assert(key(s.last()) != key(s[i]));
        assert(assoc(t, key, val) =~= assoc(s, key, val).insert(key(s[i]), val(t[i])));
    }
}

pub proof fn lemma_assoc_remove<T, K, V>(s: Seq<T>, i: int, key: spec_fn(T) -> K, val: spec_fn(T) -> V)
    requires
        keys_unique(s, key),
        0 <= i < s.len(),
    ensures
        assoc(s.remove(i), key, val) == assoc(s, key, val).remove(key(s[i])),
        keys_unique(s.remove(i), key),
    decreases s.len(),
{
    let r = s.remove(i);
    if i == s.len() - 1 {
        assert(r =~= s.drop_last());
        lemma_assoc_contains(s.drop_last(), key, val, key(s[i]));
        assert(assoc(r, key, val) =~= assoc(s, key, val).remove(key(s[i])));
    } else {
        lemma_assoc_remove(s.drop_last(), i, key, val);
        assert(r.drop_last() =~= s.drop_last().remove(i));
        assert(r.last() == s.last());
        assert(key(s.last()) != key(s[i]));
        assert(assoc(r, key, val) =~= assoc(s, key, val).remove(key(s[i])));
    }
}

pub proof fn lemma_assoc_len<T, K, V>(s: Seq<T>, key: spec_fn(T) -> K, val: spec_fn(T) -> V)
    requires
        keys_unique(s, key),
    ensures
        assoc(s, key, val).dom().finite(),
        assoc(s, key, val).dom().len() == s.len(),
    decreases s.len(),
{
    if s.len() > 0 {
        lemma_assoc_len(s.drop_last(), key, val);
        lemma_assoc_contains(s.drop_last(), key, val, key(s.last()));
    }
}

pub proof fn lemma_assoc_prepend<T, K, V>(x: T, t: Seq<T>, key: spec_fn(T) -> K, val: spec_fn(T) -> V)
    requires
        forall|j: int| 0 <= j < t.len() ==> key(t[j]) != key(x),
    ensures
        assoc(seq![x] + t, key, val) == assoc(t, key, val).insert(key(x), val(x)),
    decreases t.len(),
{
    if t.len() == 0 {
        assert(seq![x] + t =~= seq![x]);
        assert(seq![x].drop_last() =~= Seq::<T>::empty());
        assert(seq![x].last() == x);
        assert(assoc(seq![x].drop_last(), key, val) == Map::<K, V>::empty());
        assert(assoc(t, key, val) == Map::<K, V>::empty());
        assert(assoc(seq![x], key, val) =~= assoc(t, key, val).insert(key(x), val(x)));
    } else {
        lemma_assoc_prepend(x, t.drop_last(), key, val);
        assert((seq![x] + t).drop_last() =~= seq![x] + t.drop_last());
        assert(key(t.last()) != key(x));
        assert(assoc(seq![x] + t, key, val) =~= assoc(t, key, val).insert(key(x), val(x)));
    }
}

pub proof fn lemma_assoc_congruent<T, K, V>(s: Seq<T>, t: Seq<T>, key: spec_fn(T) -> K, val: spec_fn(T) -> V)
    requires
        s.len() == t.len(),
        forall|j: int| 0 <= j < s.len() ==> key(s[j]) == key(t[j]) && val(s[j]) == val(t[j]),
    ensures
        assoc(s, key, val) == assoc(t, key, val),
    decreases s.len(),
{
    if s.len() > 0 {
        lemma_assoc_congruent(s.drop_last(), t.drop_last(), key, val);
    }
}

} // verus!
