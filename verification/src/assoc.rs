//! Association lists keyed by strings: the maps of the documentation store.

use vstd::prelude::*;

verus! {

/// The position of the first entry of `l` with key `k`, or -1 where there is none.
pub open spec fn key_index<V>(l: Seq<(Seq<char>, V)>, k: Seq<char>) -> int
    decreases l.len(),
{
    if l.len() == 0 {
        -1
    } else if l[0].0 == k {
        0
    } else {
        let r = key_index(l.drop_first(), k);
        if r < 0 {
            -1
        } else {
            r + 1
        }
    }
}

/// The value of the first entry of `l` with key `k`.
pub open spec fn lookup<V>(l: Seq<(Seq<char>, V)>, k: Seq<char>) -> Option<V> {
    let i = key_index(l, k);
    if i < 0 {
        None
    } else {
        Some(l[i].1)
    }
}

/// `l` with the value under `k` replaced by `v`, or with `(k, v)` added at the end.
pub open spec fn upsert<V>(l: Seq<(Seq<char>, V)>, k: Seq<char>, v: V) -> Seq<(Seq<char>, V)> {
    let i = key_index(l, k);
    if i < 0 {
        l.push((k, v))
    } else {
        l.update(i, (k, v))
    }
}

/// `key_index` finds a real entry, and no earlier entry has the key.
pub proof fn lemma_key_index<V>(l: Seq<(Seq<char>, V)>, k: Seq<char>)
    ensures
        -1 <= key_index(l, k) < l.len(),
        key_index(l, k) >= 0 ==> l[key_index(l, k)].0 == k,
        forall|j: int| 0 <= j < l.len() && (key_index(l, k) < 0 || j < key_index(l, k)) ==> l[j].0 != k,
    decreases l.len(),
{
    if l.len() > 0 && l[0].0 != k {
        lemma_key_index(l.drop_first(), k);
        assert forall|j: int| 0 <= j < l.len() && (key_index(l, k) < 0 || j < key_index(l, k)) implies l[j].0 != k by {
            if j > 0 {
                assert(l[j] == l.drop_first()[j - 1]);
            }
        }
    }
}

/// The key views of a list whose keys are strings, paired with its values.
pub open spec fn pairs_view<V>(l: Seq<(String, V)>) -> Seq<(Seq<char>, V)> {
    l.map_values(|e: (String, V)| (e.0@, e.1))
}

/// The position of the first entry of `l` whose key is `k`.
pub fn find_key<V>(l: &Vec<(String, V)>, k: &str) -> (r: Option<usize>)
    ensures
        r is None <==> key_index(pairs_view(l@), k@) < 0,
        r matches Some(i) ==> i as int == key_index(pairs_view(l@), k@) && i < l@.len()
            && l@[i as int].0@ == k@,
{
    let ghost pv = pairs_view(l@);
    proof {
        lemma_key_index(pv, k@);
    }
    let mut i: usize = 0;
    while i < l.len()
        invariant
            i <= l@.len(),
            pv == pairs_view(l@),
            -1 <= key_index(pv, k@) < pv.len(),
            key_index(pv, k@) >= 0 ==> pv[key_index(pv, k@)].0 == k@,
            forall|j: int| 0 <= j < pv.len() && (key_index(pv, k@) < 0 || j < key_index(pv, k@)) ==> pv[j].0 != k@,
            forall|j: int| 0 <= j < i ==> pv[j].0 != k@,
        decreases l@.len() - i,
    {
        if crate::text::str_eq(l[i].0.as_str(), k) {
            assert(pv[i as int].0 == k@);
            return Some(i);
        }
        i = i + 1;
    }
    None
}

/// The first position of a key depends on the keys alone.
pub proof fn lemma_key_index_same_keys<V, W>(a: Seq<(Seq<char>, V)>, b: Seq<(Seq<char>, W)>, k: Seq<char>)
    requires
        a.len() == b.len(),
        forall|i: int| 0 <= i < a.len() ==> a[i].0 == b[i].0,
    ensures
        key_index(a, k) == key_index(b, k),
    decreases a.len(),
{
    if a.len() > 0 && a[0].0 != k {
        assert forall|i: int| 0 <= i < a.drop_first().len() implies a.drop_first()[i].0 == b.drop_first()[i].0 by {
            assert(a[i + 1].0 == b[i + 1].0);
        }
        lemma_key_index_same_keys(a.drop_first(), b.drop_first(), k);
    }
}

/// Whether `s` holds `x`.
pub open spec fn holds(s: Seq<Seq<char>>, x: Seq<char>) -> bool {
    exists|i: int| 0 <= i < s.len() && s[i] == x
}

/// `s` with `x` added at the end unless it is already there: inserting into a set of strings.
pub open spec fn set_add(s: Seq<Seq<char>>, x: Seq<char>) -> Seq<Seq<char>> {
    if holds(s, x) {
        s
    } else {
        s.push(x)
    }
}

/// The views of a list of strings.
pub open spec fn strings_view(v: Seq<String>) -> Seq<Seq<char>> {
    v.map_values(|s: String| s@)
}

/// Whether the string list `v` holds `x`.
pub fn contains_string(v: &Vec<String>, x: &str) -> (r: bool)
    ensures
        r == holds(strings_view(v@), x@),
{
    let mut i: usize = 0;
    while i < v.len()
        invariant
            i <= v@.len(),
            forall|j: int| 0 <= j < i ==> v@[j]@ != x@,
        decreases v@.len() - i,
    {
        if crate::text::str_eq(v[i].as_str(), x) {
            assert(strings_view(v@)[i as int] == x@);
            return true;
        }
        i = i + 1;
    }
    assert forall|j: int| 0 <= j < strings_view(v@).len() implies strings_view(v@)[j] != x@ by {
        assert(v@[j]@ != x@);
    }
    false
}

/// Reading a key back after writing it gives what was written, and every other key keeps its
/// value.
pub proof fn lemma_lookup_upsert<V>(l: Seq<(Seq<char>, V)>, k: Seq<char>, v: V, other: Seq<char>)
    ensures
        lookup(upsert(l, k, v), k) == Some(v),
        other != k ==> lookup(upsert(l, k, v), other) == lookup(l, other),
{
    let u = upsert(l, k, v);
    lemma_key_index(l, k);
    lemma_key_index(u, k);
    lemma_key_index(l, other);
    lemma_key_index(u, other);
    let i = key_index(l, k);
    assert(key_index(u, k) == (if i < 0 { l.len() as int } else { i })) by {
        let j = key_index(u, k);
        if i < 0 {
            assert(u[l.len() as int].0 == k);
        } else {
            assert(u[i].0 == k);
        }
    }
    if other != k {
        let a = key_index(l, other);
        let b = key_index(u, other);
        if a >= 0 {
            assert(u[a].0 == other);
            assert(b == a);
        } else {
            assert(b < 0) by {
                if b >= 0 {
                    assert(u[b].0 == other);
                    if b < l.len() {
                        assert(l[b].0 == other);
                    }
                }
            }
        }
    }
}

} // verus!
