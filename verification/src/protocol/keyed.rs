//! A small map from names to values that keeps insertion order.
use vstd::prelude::*;

verus! {

/// Whether index `i` holds the first entry with key `k`.
pub open spec fn spec_is_key_index<V>(s: Seq<(String, V)>, k: Seq<char>, i: int) -> bool {
    0 <= i < s.len() && s[i].0@ == k && forall|j: int| 0 <= j < i ==> s[j].0@ != k
}

/// Whether some entry has key `k`.
pub open spec fn spec_has_key<V>(s: Seq<(String, V)>, k: Seq<char>) -> bool {
    exists|i: int| 0 <= i < s.len() && s[i].0@ == k
}

/// The index of the first entry with key `k`.
pub open spec fn spec_key_index<V>(s: Seq<(String, V)>, k: Seq<char>) -> Option<int> {
    if spec_has_key(s, k) {
        Some(choose|i: int| spec_is_key_index(s, k, i))
    } else {
        None
    }
}

/// The value stored under key `k`.
pub open spec fn spec_get<V>(s: Seq<(String, V)>, k: Seq<char>) -> Option<V> {
    match spec_key_index(s, k) {
        Some(i) => Some(s[i].1),
        None => None,
    }
}

/// Keys are unique.
pub open spec fn spec_unique_keys<V>(s: Seq<(String, V)>) -> bool {
    forall|i: int, j: int| 0 <= i < s.len() && 0 <= j < s.len() && i != j ==> s[i].0@ != s[j].0@
}

/// Storing `v` under `k`: an entry with that key is overwritten in place,
/// otherwise the pair is appended.
pub open spec fn spec_insert<V>(s: Seq<(String, V)>, k: String, v: V) -> Seq<(String, V)> {
    match spec_key_index(s, k@) {
        Some(i) => s.update(i, (s[i].0, v)),
        None => s.push((k, v)),
    }
}

/// Removing the entry with key `k`, if any.
pub open spec fn spec_remove<V>(s: Seq<(String, V)>, k: Seq<char>) -> Seq<(String, V)> {
    match spec_key_index(s, k) {
        Some(i) => s.remove(i),
        None => s,
    }
}

pub proof fn lemma_key_index<V>(s: Seq<(String, V)>, k: Seq<char>)
    ensures
        match spec_key_index(s, k) {
            Some(i) => spec_is_key_index(s, k, i),
            None => forall|j: int| 0 <= j < s.len() ==> s[j].0@ != k,
        },
{
    if spec_has_key(s, k) {
        let w = choose|i: int| 0 <= i < s.len() && s[i].0@ == k;
        lemma_first_key(s, k, w);
    }
}

proof fn lemma_first_key<V>(s: Seq<(String, V)>, k: Seq<char>, w: int)
    requires
        0 <= w < s.len(),
        s[w].0@ == k,
    ensures
        exists|i: int| spec_is_key_index(s, k, i),
    decreases w,
{
    if exists|j: int| 0 <= j < w && s[j].0@ == k {
        let v = choose|j: int| 0 <= j < w && s[j].0@ == k;
        lemma_first_key(s, k, v);
    } else {
        assert(spec_is_key_index(s, k, w));
    }
}

pub proof fn lemma_key_index_is<V>(s: Seq<(String, V)>, k: Seq<char>, i: int)
    requires
        spec_is_key_index(s, k, i),
    ensures
        spec_key_index(s, k) == Some(i),
{
    let c = choose|c: int| spec_is_key_index(s, k, c);
    assert(spec_is_key_index(s, k, c));
    if c < i {
        assert(s[c].0@ != k);
    }
    if i < c {
        assert(s[i].0@ != k);
    }
}

/// The entries with each key taken by its text.
pub open spec fn spec_key_views<V>(s: Seq<(String, V)>) -> Seq<(Seq<char>, V)> {
    s.map_values(|e: (String, V)| (e.0@, e.1))
}

/// Whether index `i` holds the first entry with key text `k`.
pub open spec fn spec_is_vkey_index<V>(s: Seq<(Seq<char>, V)>, k: Seq<char>, i: int) -> bool {
    0 <= i < s.len() && s[i].0 == k && forall|j: int| 0 <= j < i ==> s[j].0 != k
}

/// Storing `v` under the key text `k`: the first entry with that key is
/// overwritten in place, otherwise the pair is appended.
pub open spec fn spec_insert_view<V>(s: Seq<(Seq<char>, V)>, k: Seq<char>, v: V) -> Seq<(Seq<char>, V)> {
    if exists|i: int| spec_is_vkey_index(s, k, i) {
        s.update(choose|i: int| spec_is_vkey_index(s, k, i), (k, v))
    } else {
        s.push((k, v))
    }
}

/// Inserting under a key, seen through the keys' texts.
pub proof fn lemma_insert_views<V>(s: Seq<(String, V)>, k: String, v: V)
    ensures
        spec_key_views(spec_insert(s, k, v)) == spec_insert_view(spec_key_views(s), k@, v),
{
    let w = spec_key_views(s);
    lemma_key_index(s, k@);
    match spec_key_index(s, k@) {
        Some(i) => {
            assert(spec_is_vkey_index(w, k@, i));
            let c = choose|c: int| spec_is_vkey_index(w, k@, c);
            assert(spec_is_vkey_index(w, k@, c));
            assert(spec_is_key_index(s, k@, c)) by {
                assert forall|j: int| 0 <= j < c implies s[j].0@ != k@ by {
                    assert(w[j].0 == s[j].0@);
                }
            }
            lemma_key_index_is(s, k@, c);
            assert(spec_key_views(spec_insert(s, k, v)) =~= spec_insert_view(w, k@, v));
        },
        None => {
            assert forall|i: int| !spec_is_vkey_index(w, k@, i) by {
                if 0 <= i < w.len() {
                    assert(w[i].0 == s[i].0@);
                }
            }
            assert(spec_key_views(spec_insert(s, k, v)) =~= spec_insert_view(w, k@, v));
        },
    }
}

/// A reading after a write of the same key gives the written value; other keys
/// are unaffected.
pub proof fn lemma_get_after_insert<V>(s: Seq<(String, V)>, k: String, v: V, other: Seq<char>)
    ensures
        spec_get(spec_insert(s, k, v), k@) == Some(v),
        other != k@ ==> spec_get(spec_insert(s, k, v), other) == spec_get(s, other),
{
    let t = spec_insert(s, k, v);
    lemma_key_index(s, k@);
    lemma_key_index(s, other);
    match spec_key_index(s, k@) {
        Some(i) => {
            assert(spec_is_key_index(t, k@, i));
            lemma_key_index_is(t, k@, i);
            if other != k@ {
                lemma_key_index(t, other);
                match spec_key_index(s, other) {
                    Some(j) => {
                        assert(spec_is_key_index(t, other, j));
                        lemma_key_index_is(t, other, j);
                    },
                    None => {
                        assert forall|j: int| 0 <= j < t.len() implies t[j].0@ != other by {
                            assert(t[j].0 == s[j].0);
                        }
                        assert(!spec_has_key(t, other));
                    },
                }
            }
        },
        None => {
            assert(spec_is_key_index(t, k@, s.len() as int));
            lemma_key_index_is(t, k@, s.len() as int);
            if other != k@ {
                match spec_key_index(s, other) {
                    Some(j) => {
                        assert(spec_is_key_index(t, other, j));
                        lemma_key_index_is(t, other, j);
                    },
                    None => {
                        assert forall|j: int| 0 <= j < t.len() implies t[j].0@ != other by {
                            if j < s.len() {
                                assert(t[j] == s[j]);
                            }
                        }
                        assert(!spec_has_key(t, other));
                    },
                }
            }
        },
    }
}

/// The index of the first entry with key `k`.
pub fn find_key<V>(s: &Vec<(String, V)>, k: &String) -> (r: Option<usize>)
    ensures
        match r {
            Some(i) => spec_key_index(s@, k@) == Some(i as int),
            None => spec_key_index(s@, k@) is None,
        },
{
    let mut i: usize = 0;
    while i < s.len()
        invariant
            i <= s@.len(),
            forall|j: int| 0 <= j < i ==> s@[j].0@ != k@,
        decreases s@.len() - i,
    {
        if s[i].0 == *k {
            proof {
                lemma_key_index_is(s@, k@, i as int);
            }
            return Some(i);
        }
        i += 1;
    }
    proof {
        lemma_key_index(s@, k@);
    }
    None
}

/// Stores `v` under `k` (see `spec_insert`).
pub fn insert_keyed<V>(s: &mut Vec<(String, V)>, k: String, v: V)
    requires
        spec_unique_keys(old(s)@),
    ensures
        final(s)@ == spec_insert(old(s)@, k, v),
        spec_unique_keys(final(s)@),
{
    proof {
        lemma_key_index(s@, k@);
    }
    match find_key(s, &k) {
        Some(i) => {
            proof {
                lemma_key_index(s@, k@);
            }
            let ghost before = s@;
            let key = s[i].0.clone();
            s.set(i, (key, v));
            proof {
                assert(s@ =~= before.update(i as int, (before[i as int].0, v)));
                assert forall|a: int, b: int|
                    0 <= a < s@.len() && 0 <= b < s@.len() && a != b implies s@[a].0@ != s@[b].0@ by {
                    assert(s@[a].0 == before[a].0);
                    assert(s@[b].0 == before[b].0);
                }
            }
        },
        None => {
            s.push((k, v));
            proof {
                assert forall|a: int, b: int|
                    0 <= a < s@.len() && 0 <= b < s@.len() && a != b implies s@[a].0@ != s@[b].0@ by {
                    if a < s@.len() - 1 && b < s@.len() - 1 {
                        assert(old(s)@[a].0@ != old(s)@[b].0@);
                    }
                }
            }
        },
    }
}

/// Removes the entry with key `k`, returning its value.
pub fn remove_keyed<V>(s: &mut Vec<(String, V)>, k: &String) -> (r: Option<V>)
    requires
        spec_unique_keys(old(s)@),
    ensures
        final(s)@ == spec_remove(old(s)@, k@),
        r == spec_get(old(s)@, k@),
        spec_unique_keys(final(s)@),
{
    match find_key(s, k) {
        Some(i) => {
            proof {
                lemma_key_index(s@, k@);
            }
            let ghost before = s@;
            let (_key, v) = s.remove(i);
            proof {
                assert forall|a: int, b: int|
                    0 <= a < s@.len() && 0 <= b < s@.len() && a != b implies s@[a].0@ != s@[b].0@ by {
                    let a2 = if a < i { a } else { a + 1 };
                    let b2 = if b < i { b } else { b + 1 };
                    assert(s@[a] == before[a2]);
                    assert(s@[b] == before[b2]);
                }
            }
            Some(v)
        },
        None => None,
    }
}

/// The value stored under `k`.
pub fn get_keyed<'a, V>(s: &'a Vec<(String, V)>, k: &String) -> (r: Option<&'a V>)
    ensures
        match spec_get(s@, k@) {
            Some(v) => r is Some && *r.unwrap() == v,
            None => r is None,
        },
{
    proof {
        lemma_key_index(s@, k@);
    }
    match find_key(s, k) {
        Some(i) => Some(&s[i].1),
        None => None,
    }
}

} // verus!
