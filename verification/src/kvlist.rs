use vstd::prelude::*;

use crate::textutil::str_eq;

verus! {

/// The mathematical reading of a list of string-keyed entries: each key and
/// each value as its view.
pub open spec fn kv_view<T: View>(m: Seq<(String, T)>) -> Seq<(Seq<char>, T::V)> {
    m.map_values(|p: (String, T)| (p.0@, p.1@))
}

/// The reading of a string-keyed entry list that views the keys alone,
/// leaving the values as they stand.
pub open spec fn key_view<V>(m: Seq<(String, V)>) -> Seq<(Seq<char>, V)> {
    m.map_values(|p: (String, V)| (p.0@, p.1))
}

/// Whether some entry of `m` has key `k`.
pub open spec fn spec_has_key<V>(m: Seq<(Seq<char>, V)>, k: Seq<char>) -> bool {
    exists|i: int| 0 <= i < m.len() && m[i].0 == k
}

/// The index of the first entry with key `k`, or -1.
pub open spec fn spec_key_index<V>(m: Seq<(Seq<char>, V)>, k: Seq<char>) -> int
    decreases m.len(),
{
    if m.len() == 0 {
        -1
    } else if m[0].0 == k {
        0
    } else {
        let rest = spec_key_index(m.drop_first(), k);
        if rest < 0 {
            -1
        } else {
            rest + 1
        }
    }
}

/// The value of the first entry with key `k`.
pub open spec fn spec_get<V>(m: Seq<(Seq<char>, V)>, k: Seq<char>) -> Option<V> {
    if spec_key_index(m, k) >= 0 {
        Some(m[spec_key_index(m, k)].1)
    } else {
        None
    }
}

/// No two entries share a key.
pub open spec fn spec_unique_keys<V>(m: Seq<(Seq<char>, V)>) -> bool {
    forall|i: int, j: int| 0 <= i < j < m.len() ==> m[i].0 != m[j].0
}

/// `m` updated at key `k`: the first entry with that key is replaced, or an
/// entry is appended when the key is new.
pub open spec fn spec_put<V>(m: Seq<(Seq<char>, V)>, k: Seq<char>, v: V) -> Seq<(Seq<char>, V)> {
    if spec_key_index(m, k) >= 0 {
        m.update(spec_key_index(m, k), (k, v))
    } else {
        m.push((k, v))
    }
}

/// `m` with the first entry keyed `k` removed, when there is one.
pub open spec fn spec_del<V>(m: Seq<(Seq<char>, V)>, k: Seq<char>) -> Seq<(Seq<char>, V)> {
    if spec_key_index(m, k) >= 0 {
        m.remove(spec_key_index(m, k))
    } else {
        m
    }
}

/// `m` with the first entry of each key of `rem` removed.
pub open spec fn remove_keys<V, W>(
    m: Seq<(Seq<char>, V)>,
    rem: Seq<(Seq<char>, W)>,
) -> Seq<(Seq<char>, V)>
    decreases rem.len(),
{
    if rem.len() == 0 {
        m
    } else {
        remove_keys(spec_del(m, rem[0].0), rem.drop_first())
    }
}

/// How `kv_view` reads an entry list, entry by entry.
pub proof fn lemma_kv_view_index<T: View>(m: Seq<(String, T)>)
    ensures
        kv_view(m).len() == m.len(),
        forall|j: int| 0 <= j < m.len() ==> kv_view(m)[j] == (m[j].0@, m[j].1@),
{
}

/// What `spec_key_index` returns: a valid index bearing `k` preceded by no
/// other, or -1 with `k` absent.
pub proof fn lemma_key_index<V>(m: Seq<(Seq<char>, V)>, k: Seq<char>)
    ensures
        -1 <= spec_key_index(m, k) < m.len(),
        spec_key_index(m, k) >= 0 ==> m[spec_key_index(m, k)].0 == k,
        forall|j: int| 0 <= j < spec_key_index(m, k) ==> m[j].0 != k,
        spec_key_index(m, k) == -1 ==> forall|j: int| 0 <= j < m.len() ==> m[j].0 != k,
        spec_has_key(m, k) <==> spec_key_index(m, k) >= 0,
    decreases m.len(),
{
    if m.len() == 0 {
    } else if m[0].0 == k {
    } else {
        lemma_key_index(m.drop_first(), k);
        assert forall|j: int| 0 <= j < spec_key_index(m, k) implies m[j].0 != k by {
            if j > 0 {
                assert(m.drop_first()[j - 1] == m[j]);
            }
        }
        if spec_key_index(m, k) == -1 {
            assert forall|j: int| 0 <= j < m.len() implies m[j].0 != k by {
                if j > 0 {
                    assert(m.drop_first()[j - 1] == m[j]);
                }
            }
            assert(!spec_has_key(m, k));
        }
    }
}

/// A scan that stops at the first entry with key `k` computes
/// `spec_key_index`.
pub proof fn lemma_key_index_is<V>(m: Seq<(Seq<char>, V)>, k: Seq<char>, i: int)
    requires
        0 <= i < m.len(),
        m[i].0 == k,
        forall|j: int| 0 <= j < i ==> m[j].0 != k,
    ensures
        spec_key_index(m, k) == i,
    decreases m.len(),
{
    if i == 0 {
    } else {
        assert forall|j: int| 0 <= j < i - 1 implies m.drop_first()[j].0 != k by {
            assert(m.drop_first()[j] == m[j + 1]);
        }
        assert(m.drop_first()[i - 1] == m[i]);
        lemma_key_index_is(m.drop_first(), k, i - 1);
    }
}

/// With unique keys, `spec_get` after `spec_put` reads the written value at
/// the written key and leaves every other key unchanged; uniqueness is kept.
pub proof fn lemma_put_get<V>(m: Seq<(Seq<char>, V)>, k: Seq<char>, v: V)
    requires
        spec_unique_keys(m),
    ensures
        spec_unique_keys(spec_put(m, k, v)),
        spec_get(spec_put(m, k, v), k) == Some(v),
        forall|k2: Seq<char>| k2 != k ==> spec_get(spec_put(m, k, v), k2) == spec_get(m, k2),
        spec_has_key(spec_put(m, k, v), k),
{
    lemma_key_index(m, k);
    let out = spec_put(m, k, v);
    let i = spec_key_index(m, k);
    assert forall|j: int| 0 <= j < out.len() && out[j].0 == k implies j == (if i >= 0 {
        i
    } else {
        m.len() as int
    }) by {}
    if i >= 0 {
        lemma_key_index_is(out, k, i);
    } else {
        lemma_key_index_is(out, k, m.len() as int);
    }
    assert forall|k2: Seq<char>| k2 != k implies spec_get(out, k2) == spec_get(m, k2) by {
        lemma_key_index(m, k2);
        lemma_key_index(out, k2);
        let j2 = spec_key_index(m, k2);
        if j2 >= 0 {
            lemma_key_index_is(out, k2, j2);
        } else {
            if spec_key_index(out, k2) >= 0 {
                lemma_key_index(out, k2);
                assert(false);
            }
        }
    }
}

/// With unique keys, `spec_del` removes exactly the key `k`: it is gone, the
/// other keys read as before, and uniqueness is kept.
pub proof fn lemma_del_get<V>(m: Seq<(Seq<char>, V)>, k: Seq<char>)
    requires
        spec_unique_keys(m),
    ensures
        spec_unique_keys(spec_del(m, k)),
        !spec_has_key(spec_del(m, k), k),
        forall|k2: Seq<char>| k2 != k ==> spec_get(spec_del(m, k), k2) == spec_get(m, k2),
{
    lemma_key_index(m, k);
    let out = spec_del(m, k);
    let i = spec_key_index(m, k);
    if i >= 0 {
        assert forall|j: int| 0 <= j < out.len() implies out[j].0 != k by {
            if j < i {
            } else {
                assert(out[j] == m[j + 1]);
            }
        }
        lemma_key_index(out, k);
        assert forall|k2: Seq<char>| k2 != k implies spec_get(out, k2) == spec_get(m, k2) by {
            lemma_key_index(m, k2);
            lemma_key_index(out, k2);
            let j2 = spec_key_index(m, k2);
            if j2 >= 0 {
                if j2 < i {
                    lemma_key_index_is(out, k2, j2);
                } else {
                    assert(m[j2].0 == k2 && j2 != i);
                    assert(out[j2 - 1] == m[j2]);
                    assert forall|j: int| 0 <= j < j2 - 1 implies out[j].0 != k2 by {
                        if j < i {
                        } else {
                            assert(out[j] == m[j + 1]);
                        }
                    }
                    lemma_key_index_is(out, k2, j2 - 1);
                }
            } else {
                if spec_key_index(out, k2) >= 0 {
                    lemma_key_index(out, k2);
                    let jo = spec_key_index(out, k2);
                    if jo < i {
                    } else {
                        assert(out[jo] == m[jo + 1]);
                    }
                    assert(false);
                }
            }
        }
    }
}

/// The value stored for `k`, borrowed, if any entry has that key.
pub fn map_get<'a, V: View>(m: &'a Vec<(String, V)>, k: &str) -> (r: Option<&'a V>)
    ensures
        match r {
            Some(v) => spec_get(kv_view(m@), k@) == Some(v@),
            None => !spec_has_key(kv_view(m@), k@),
        },
{
    let ghost km = kv_view(m@);
    let mut i: usize = 0;
    while i < m.len()
        invariant
            i <= m.len(),
            km == kv_view(m@),
            km.len() == m@.len(),
            forall|j: int| 0 <= j < m@.len() ==> km[j] == (m@[j].0@, m@[j].1@),
            forall|j: int| 0 <= j < i ==> km[j].0 != k@,
        decreases m.len() - i,
    {
        if str_eq(m[i].0.as_str(), k) {
            proof {
                lemma_key_index_is(km, k@, i as int);
            }
            return Some(&m[i].1);
        }
        i = i + 1;
    }
    proof {
        lemma_key_index(km, k@);
    }
    None
}

/// Whether any entry of `m` has key `k`.
pub fn map_has_key<V: View>(m: &Vec<(String, V)>, k: &str) -> (r: bool)
    ensures
        r == spec_has_key(kv_view(m@), k@),
{
    let found = map_get(m, k);
    proof {
        lemma_key_index(kv_view(m@), k@);
    }
    match found {
        Some(_) => true,
        None => false,
    }
}

/// Store `v` under `k`: the first entry with that key is replaced, or a new
/// entry is appended.
pub fn map_put<V: View>(m: &mut Vec<(String, V)>, k: String, v: V)
    ensures
        kv_view(final(m)@) == spec_put(kv_view(old(m)@), k@, v@),
{
    let ghost km = kv_view(m@);
    let ghost vv = v@;
    let n = m.len();
    let mut i: usize = 0;
    while i < n
        invariant
            m@ == old(m)@,
            i <= n,
            n == m@.len(),
            km == kv_view(m@),
            km.len() == m@.len(),
            vv == v@,
            forall|j: int| 0 <= j < m@.len() ==> km[j] == (m@[j].0@, m@[j].1@),
            forall|j: int| 0 <= j < i ==> km[j].0 != k@,
        decreases n - i,
    {
        if str_eq(m[i].0.as_str(), k.as_str()) {
            proof {
                lemma_key_index_is(km, k@, i as int);
            }
            m.remove(i);
            m.insert(i, (k, v));
            proof {
                lemma_kv_view_index(m@);
                assert(kv_view(m@) =~= spec_put(km, k@, vv));
            }
            return ;
        }
        i = i + 1;
    }
    proof {
        lemma_key_index(km, k@);
    }
    m.push((k, v));
    proof {
        lemma_kv_view_index(m@);
        assert(kv_view(m@) =~= spec_put(km, k@, vv));
    }
}

/// Filtering a sequence extended by one element keeps the filtered prefix
/// and appends the element exactly when it passes.
pub proof fn lemma_filter_push<A>(s: Seq<A>, x: A, pred: spec_fn(A) -> bool)
    ensures
        s.push(x).filter(pred) == if pred(x) {
            s.filter(pred).push(x)
        } else {
            s.filter(pred)
        },
{
    reveal(Seq::filter);
    assert(s.push(x).drop_last() =~= s);
}

/// Remove the first entry keyed `k`, when there is one.
pub fn map_del<V: View>(m: &mut Vec<(String, V)>, k: &str)
    ensures
        kv_view(final(m)@) == spec_del(kv_view(old(m)@), k@),
{
    let ghost km = kv_view(m@);
    let n = m.len();
    let mut i: usize = 0;
    while i < n
        invariant
            m@ == old(m)@,
            i <= n,
            n == m@.len(),
            km == kv_view(m@),
            km.len() == m@.len(),
            forall|j: int| 0 <= j < m@.len() ==> km[j] == (m@[j].0@, m@[j].1@),
            forall|j: int| 0 <= j < i ==> km[j].0 != k@,
        decreases n - i,
    {
        if str_eq(m[i].0.as_str(), k) {
            proof {
                lemma_key_index_is(km, k@, i as int);
            }
            m.remove(i);
            proof {
                lemma_kv_view_index(m@);
                assert(kv_view(m@) =~= km.remove(i as int));
            }
            return ;
        }
        i = i + 1;
    }
    proof {
        lemma_key_index(km, k@);
    }
}

} // verus!
