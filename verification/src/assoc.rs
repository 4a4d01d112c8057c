//! Association lists: a sequence of (key, value) entries with distinct keys,
//! read as a map. Putting a key updates its entry in place or appends one;
//! removing it takes its entry out; the other entries keep their order.
use vstd::prelude::*;

verus! {

/// No key occurs twice.
pub open spec fn keys_distinct<K, V>(s: Seq<(K, V)>) -> bool {
    forall|i: int, j: int| 0 <= i < j < s.len() ==> #[trigger] s[i].0 != #[trigger] s[j].0
}

/// The index of the first entry with key `k`, or -1.
pub open spec fn key_index<K, V>(s: Seq<(K, V)>, k: K) -> int
    decreases s.len(),
{
    if s.len() == 0 {
        -1
    } else if s[0].0 == k {
        0
    } else {
        let r = key_index(s.drop_first(), k);
        if r < 0 {
            -1
        } else {
            r + 1
        }
    }
}

/// The entries read as a map (a later entry wins, were keys repeated).
pub open spec fn assoc_map<K, V>(s: Seq<(K, V)>) -> Map<K, V>
    decreases s.len(),
{
    if s.len() == 0 {
        Map::empty()
    } else {
        assoc_map(s.drop_last()).insert(s.last().0, s.last().1)
    }
}

/// `k` now maps to `v`: its entry is updated in place, or one is appended.
pub open spec fn assoc_put<K, V>(s: Seq<(K, V)>, k: K, v: V) -> Seq<(K, V)> {
    let i = key_index(s, k);
    if i < 0 {
        s.push((k, v))
    } else {
        s.update(i, (k, v))
    }
}

/// `k`'s entry, if any, is taken out.
pub open spec fn assoc_remove<K, V>(s: Seq<(K, V)>, k: K) -> Seq<(K, V)> {
    let i = key_index(s, k);
    if i < 0 {
        s
    } else {
        s.remove(i)
    }
}

pub proof fn lemma_key_index<K, V>(s: Seq<(K, V)>, k: K)
    ensures
        -1 <= key_index(s, k) < s.len(),
        key_index(s, k) >= 0 ==> s[key_index(s, k)].0 == k,
        key_index(s, k) >= 0 ==> forall|j: int| 0 <= j < key_index(s, k) ==> #[trigger] s[j].0 != k,
        key_index(s, k) < 0 ==> forall|j: int| 0 <= j < s.len() ==> #[trigger] s[j].0 != k,
    decreases s.len(),
{
    if s.len() > 0 && s[0].0 != k {
        lemma_key_index(s.drop_first(), k);
        assert forall|j: int| 0 < j < s.len() implies #[trigger] s[j].0 == s.drop_first()[j - 1].0 by {}
    }
}

/// The map has exactly the keys of the entries, with an entry's value.
pub proof fn lemma_assoc_map<K, V>(s: Seq<(K, V)>)
    requires
        keys_distinct(s),
    ensures
        forall|k: K| #[trigger] assoc_map(s).contains_key(k) <==> key_index(s, k) >= 0,
        forall|i: int| 0 <= i < s.len() ==> assoc_map(s).contains_key(#[trigger] s[i].0) && assoc_map(s)[s[i].0] == s[i].1,
    decreases s.len(),
{
    if s.len() > 0 {
        let p = s.drop_last();
        assert(keys_distinct(p)) by {
            assert forall|i: int, j: int| 0 <= i < j < p.len() implies #[trigger] p[i].0 != #[trigger] p[j].0 by {
                assert(p[i] == s[i] && p[j] == s[j]);
            }
        }
        lemma_assoc_map(p);
        assert forall|k: K| #[trigger] assoc_map(s).contains_key(k) <==> key_index(s, k) >= 0 by {
            lemma_key_index(s, k);
            lemma_key_index(p, k);
            if key_index(s, k) >= 0 {
                let i = key_index(s, k);
                if i < p.len() {
                    assert(p[i].0 == k);
                }
            }
            if key_index(p, k) >= 0 {
                assert(s[key_index(p, k)].0 == k);
            }
        }
        assert forall|i: int| 0 <= i < s.len() implies assoc_map(s).contains_key(#[trigger] s[i].0) && assoc_map(s)[s[i].0] == s[i].1 by {
            if i < p.len() {
                assert(p[i] == s[i]);
                assert(s[i].0 != s.last().0);
            }
        }
    }
}

/// Putting keeps keys distinct and reads as a map insert.
pub proof fn lemma_assoc_put<K, V>(s: Seq<(K, V)>, k: K, v: V)
    requires
        keys_distinct(s),
    ensures
        keys_distinct(assoc_put(s, k, v)),
        assoc_map(assoc_put(s, k, v)) == assoc_map(s).insert(k, v),
{
    lemma_key_index(s, k);
    let t = assoc_put(s, k, v);
    assert(keys_distinct(t)) by {
        assert forall|i: int, j: int| 0 <= i < j < t.len() implies #[trigger] t[i].0 != #[trigger] t[j].0 by {
            if key_index(s, k) >= 0 {
                assert(t[i].0 == s[i].0 && t[j].0 == s[j].0);
            } else if j < s.len() {
                assert(t[i] == s[i] && t[j] == s[j]);
            }
        }
    }
    lemma_assoc_map(s);
    lemma_assoc_map(t);
    assert forall|x: K| #[trigger] assoc_map(t).contains_key(x) == assoc_map(s).insert(k, v).contains_key(x) by {
        lemma_key_index(s, x);
        lemma_key_index(t, x);
        if x == k {
            let i = if key_index(s, k) < 0 { s.len() as int } else { key_index(s, k) };
            assert(t[i].0 == k);
        } else {
            if key_index(t, x) >= 0 {
                let i = key_index(t, x);
                assert(t[i].0 == x);
                assert(i < s.len());
                assert(t[i] == s[i]);
            }
            if key_index(s, x) >= 0 {
                let i = key_index(s, x);
                assert(s[i].0 == x);
                assert(t[i] == s[i]);
            }
        }
    }
    assert forall|x: K| #[trigger] assoc_map(t).contains_key(x) implies assoc_map(t)[x] == assoc_map(s).insert(k, v)[x] by {
        lemma_key_index(t, x);
        let i = key_index(t, x);
        assert(t[i].0 == x);
        if x != k {
            assert(t[i] == s[i]);
        }
    }
    assert(assoc_map(t) =~= assoc_map(s).insert(k, v));
}

/// Removing keeps keys distinct and reads as a map remove.
pub proof fn lemma_assoc_remove<K, V>(s: Seq<(K, V)>, k: K)
    requires
        keys_distinct(s),
    ensures
        keys_distinct(assoc_remove(s, k)),
        assoc_map(assoc_remove(s, k)) == assoc_map(s).remove(k),
{
    lemma_key_index(s, k);
    let t = assoc_remove(s, k);
    let r = key_index(s, k);
    assert forall|i: int| 0 <= i < t.len() implies #[trigger] t[i] == (if r >= 0 && i >= r { s[i + 1] } else { s[i] }) by {}
    assert(keys_distinct(t)) by {
        assert forall|i: int, j: int| 0 <= i < j < t.len() implies #[trigger] t[i].0 != #[trigger] t[j].0 by {
            let ii = if r >= 0 && i >= r { i + 1 } else { i };
            let jj = if r >= 0 && j >= r { j + 1 } else { j };
            assert(t[i] == s[ii] && t[j] == s[jj]);
        }
    }
    lemma_assoc_map(s);
    lemma_assoc_map(t);
    assert forall|x: K| #[trigger] assoc_map(t).contains_key(x) == assoc_map(s).remove(k).contains_key(x) by {
        lemma_key_index(s, x);
        lemma_key_index(t, x);
        if key_index(t, x) >= 0 {
            let i = key_index(t, x);
            let ii = if r >= 0 && i >= r { i + 1 } else { i };
            assert(t[i] == s[ii]);
        }
        if x != k && key_index(s, x) >= 0 {
            let i = key_index(s, x);
            if r >= 0 && i > r {
                assert(t[i - 1] == s[i]);
            } else {
                assert(i != r);
                assert(t[i] == s[i]);
            }
        }
    }
    assert forall|x: K| #[trigger] assoc_map(t).contains_key(x) implies assoc_map(t)[x] == assoc_map(s).remove(k)[x] by {
        lemma_key_index(t, x);
        let i = key_index(t, x);
        let ii = if r >= 0 && i >= r { i + 1 } else { i };
        assert(t[i] == s[ii]);
    }
    assert(assoc_map(t) =~= assoc_map(s).remove(k));
}

} // verus!
