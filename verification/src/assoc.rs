//! Sequences of key and value pairs read as maps. The tables of this crate
//! keep their entries in vectors; what they hold is stated as a `Map`.

use vstd::prelude::*;

verus! {

/// Whether some pair of the sequence has the key.
pub open spec fn has_key<K, V>(s: Seq<(K, V)>, k: K) -> bool {
    exists|i: int| 0 <= i < s.len() && (#[trigger] s[i]).0 == k
}

/// Whether no key stands in the sequence twice.
pub open spec fn distinct_keys<K, V>(s: Seq<(K, V)>) -> bool {
    forall|i: int, j: int| 0 <= i < j < s.len() ==> (#[trigger] s[i]).0 != (#[trigger] s[j]).0
}

/// A position at which the key stands, if it stands anywhere.
pub open spec fn index_of<K, V>(s: Seq<(K, V)>, k: K) -> int {
    choose|i: int| 0 <= i < s.len() && (#[trigger] s[i]).0 == k
}

/// The map from each key of the sequence to the value beside it.
pub open spec fn to_map<K, V>(s: Seq<(K, V)>) -> Map<K, V> {
    Map::new(|k: K| has_key(s, k), |k: K| s[index_of(s, k)].1)
}

/// With distinct keys, the map sends each key to the value of its own pair.
pub proof fn lemma_to_map_at<K, V>(s: Seq<(K, V)>, i: int)
    requires
        distinct_keys(s),
        0 <= i < s.len(),
    ensures
        to_map(s).contains_key(s[i].0),
        to_map(s)[s[i].0] == s[i].1,
{
    let k = s[i].0;
    assert(has_key(s, k));
    let j = index_of(s, k);
    assert(0 <= j < s.len() && s[j].0 == k);
    if j < i {
        assert(s[j].0 != s[i].0);
    }
    if i < j {
        assert(s[i].0 != s[j].0);
    }
}

/// A pair with a new key, added at the end, is an insertion into the map.
pub proof fn lemma_to_map_push<K, V>(s: Seq<(K, V)>, k: K, v: V)
    requires
        distinct_keys(s),
        !has_key(s, k),
    ensures
        distinct_keys(s.push((k, v))),
        to_map(s.push((k, v))) == to_map(s).insert(k, v),
{
    let t = s.push((k, v));
    assert forall|i: int, j: int| 0 <= i < j < t.len() implies (#[trigger] t[i]).0 != (
    #[trigger] t[j]).0 by {
        assert(t[i] == s[i]);
        if j < s.len() {
            assert(t[j] == s[j]);
        }
    }
    let m = to_map(s).insert(k, v);
    assert forall|q: K| to_map(t).contains_key(q) <==> m.contains_key(q) by {
        if has_key(t, q) {
            let j = index_of(t, q);
            if j < s.len() {
                assert(s[j].0 == q);
            }
        }
        if has_key(s, q) {
            let j = index_of(s, q);
            assert(t[j].0 == q);
        }
        if q == k {
            assert(t[s.len() as int].0 == q);
        }
    }
    assert forall|q: K| to_map(t).contains_key(q) implies to_map(t)[q] == m[q] by {
        let j = index_of(t, q);
        lemma_to_map_at(t, j);
        if j < s.len() {
            assert(s[j] == t[j]);
            lemma_to_map_at(s, j);
        }
    }
    assert(to_map(t) =~= m);
}

/// A new value beside a key that is there is an insertion into the map.
pub proof fn lemma_to_map_update<K, V>(s: Seq<(K, V)>, i: int, v: V)
    requires
        distinct_keys(s),
        0 <= i < s.len(),
    ensures
        distinct_keys(s.update(i, (s[i].0, v))),
        to_map(s.update(i, (s[i].0, v))) == to_map(s).insert(s[i].0, v),
{
    let k = s[i].0;
    let t = s.update(i, (k, v));
    assert forall|a: int, b: int| 0 <= a < b < t.len() implies (#[trigger] t[a]).0 != (
    #[trigger] t[b]).0 by {
        assert(t[a].0 == s[a].0);
        assert(t[b].0 == s[b].0);
    }
    let m = to_map(s).insert(k, v);
    assert forall|q: K| to_map(t).contains_key(q) <==> m.contains_key(q) by {
        if has_key(t, q) {
            let j = index_of(t, q);
            assert(s[j].0 == q);
        }
        if has_key(s, q) {
            let j = index_of(s, q);
            assert(t[j].0 == q);
        }
        if q == k {
            assert(t[i].0 == q);
        }
    }
    assert forall|q: K| to_map(t).contains_key(q) implies to_map(t)[q] == m[q] by {
        let j = index_of(t, q);
        lemma_to_map_at(t, j);
        if j != i {
            assert(s[j] == t[j]);
            lemma_to_map_at(s, j);
            if j < i {
                assert(s[j].0 != s[i].0);
            } else {
                assert(s[i].0 != s[j].0);
            }
        }
    }
    assert(to_map(t) =~= m);
}

/// A pair taken out of the sequence is a key taken out of the map.
pub proof fn lemma_to_map_remove<K, V>(s: Seq<(K, V)>, i: int)
    requires
        distinct_keys(s),
        0 <= i < s.len(),
    ensures
        distinct_keys(s.remove(i)),
        to_map(s.remove(i)) == to_map(s).remove(s[i].0),
{
    let k = s[i].0;
    let t = s.remove(i);
    assert forall|a: int| 0 <= a < t.len() implies #[trigger] t[a] == s[if a < i {
        a
    } else {
        a + 1
    }] by {}
    assert forall|a: int, b: int| 0 <= a < b < t.len() implies (#[trigger] t[a]).0 != (
    #[trigger] t[b]).0 by {
        let a1 = if a < i {
            a
        } else {
            a + 1
        };
        let b1 = if b < i {
            b
        } else {
            b + 1
        };
        assert(t[a] == s[a1]);
        assert(t[b] == s[b1]);
        assert(s[a1].0 != s[b1].0);
    }
    let m = to_map(s).remove(k);
    assert forall|q: K| to_map(t).contains_key(q) <==> m.contains_key(q) by {
        if has_key(t, q) {
            let j = index_of(t, q);
            let j1 = if j < i {
                j
            } else {
                j + 1
            };
            assert(t[j] == s[j1]);
            assert(s[j1].0 == q);
            if j1 < i {
                assert(s[j1].0 != s[i].0);
            } else {
                assert(s[i].0 != s[j1].0);
            }
        }
        if has_key(s, q) && q != k {
            let j = index_of(s, q);
            let j1 = if j < i {
                j
            } else {
                j - 1
            };
            assert(t[j1] == s[j]);
            assert(t[j1].0 == q);
        }
    }
    assert forall|q: K| to_map(t).contains_key(q) implies to_map(t)[q] == m[q] by {
        let j = index_of(t, q);
        lemma_to_map_at(t, j);
        let j1 = if j < i {
            j
        } else {
            j + 1
        };
        assert(t[j] == s[j1]);
        lemma_to_map_at(s, j1);
    }
    assert(to_map(t) =~= m);
}

/// The map of a sequence with distinct keys has as many keys as the
/// sequence has pairs.
pub proof fn lemma_to_map_len<K, V>(s: Seq<(K, V)>)
    requires
        distinct_keys(s),
    ensures
        to_map(s).dom().finite(),
        to_map(s).dom().len() == s.len(),
    decreases s.len(),
{
    if s.len() == 0 {
        assert(to_map(s).dom() =~= Set::<K>::empty());
    } else {
        let p = s.drop_last();
        let last = s.last();
        assert forall|i: int, j: int| 0 <= i < j < p.len() implies (#[trigger] p[i]).0 != (
        #[trigger] p[j]).0 by {
            assert(p[i] == s[i]);
            assert(p[j] == s[j]);
        }
        assert(!has_key(p, last.0)) by {
            if has_key(p, last.0) {
                let j = index_of(p, last.0);
                assert(p[j] == s[j]);
                assert(s[j].0 != s[s.len() - 1].0);
            }
        }
        lemma_to_map_len(p);
        assert(s =~= p.push((last.0, last.1)));
        lemma_to_map_push(p, last.0, last.1);
        assert(to_map(s).dom() =~= to_map(p).dom().insert(last.0));
    }
}

/// A new pair put anywhere into the sequence is an insertion into the map.
pub proof fn lemma_to_map_insert<K, V>(s: Seq<(K, V)>, i: int, k: K, v: V)
    requires
        distinct_keys(s),
        !has_key(s, k),
        0 <= i <= s.len(),
    ensures
        distinct_keys(s.insert(i, (k, v))),
        to_map(s.insert(i, (k, v))) == to_map(s).insert(k, v),
{
    let t = s.insert(i, (k, v));
    assert forall|a: int| 0 <= a < t.len() && a != i implies #[trigger] t[a] == s[if a < i {
        a
    } else {
        a - 1
    }] by {}
    assert forall|a: int, b: int| 0 <= a < b < t.len() implies (#[trigger] t[a]).0 != (
    #[trigger] t[b]).0 by {
        let a1 = if a < i {
            a
        } else {
            a - 1
        };
        let b1 = if b < i {
            b
        } else {
            b - 1
        };
        if a != i {
            assert(t[a] == s[a1]);
        }
        if b != i {
            assert(t[b] == s[b1]);
        }
        if a != i && b != i {
            assert(s[a1].0 != s[b1].0);
        }
    }
    let m = to_map(s).insert(k, v);
    assert forall|q: K| to_map(t).contains_key(q) <==> m.contains_key(q) by {
        if has_key(t, q) {
            let j = index_of(t, q);
            if j != i {
                let j1 = if j < i {
                    j
                } else {
                    j - 1
                };
                assert(t[j] == s[j1]);
                assert(s[j1].0 == q);
            }
        }
        if has_key(s, q) {
            let j = index_of(s, q);
            let j1 = if j < i {
                j
            } else {
                j + 1
            };
            assert(t[j1] == s[j]);
            assert(t[j1].0 == q);
        }
        if q == k {
            assert(t[i].0 == q);
        }
    }
    assert forall|q: K| to_map(t).contains_key(q) implies to_map(t)[q] == m[q] by {
        let j = index_of(t, q);
        lemma_to_map_at(t, j);
        if j != i {
            let j1 = if j < i {
                j
            } else {
                j - 1
            };
            assert(t[j] == s[j1]);
            lemma_to_map_at(s, j1);
        }
    }
    assert(to_map(t) =~= m);
}

/// Whether the keys of the sequence rise from each pair to the next.
pub open spec fn is_ascending<V>(s: Seq<(nat, V)>) -> bool {
    forall|i: int, j: int| 0 <= i < j < s.len() ==> (#[trigger] s[i]).0 < (#[trigger] s[j]).0
}

/// The pairs of a map in the order of their keys: the one sequence with
/// rising keys that holds what the map holds. Meant for finite maps.
pub open spec fn ascending<V>(m: Map<nat, V>) -> Seq<(nat, V)> {
    choose|s: Seq<(nat, V)>| is_ascending(s) && to_map(s) == m
}

/// Rising keys are distinct keys.
pub proof fn lemma_ascending_distinct<V>(s: Seq<(nat, V)>)
    requires
        is_ascending(s),
    ensures
        distinct_keys(s),
{
}

/// Two sequences with rising keys that hold one map are one sequence.
pub proof fn lemma_ascending_unique<V>(s: Seq<(nat, V)>, t: Seq<(nat, V)>)
    requires
        is_ascending(s),
        is_ascending(t),
        to_map(s) == to_map(t),
    ensures
        s == t,
    decreases s.len(),
{
    lemma_to_map_len(s);
    lemma_to_map_len(t);
    if s.len() == 0 {
        assert(s =~= t);
    } else {
        let n = s.len() - 1;
        lemma_to_map_at(s, n);
        lemma_to_map_at(t, n);
        let js = index_of(t, s[n].0);
        let jt = index_of(s, t[n].0);
        assert(t[js].0 == s[n].0);
        assert(s[jt].0 == t[n].0);
        if js < n {
            assert(t[js].0 < t[n].0);
        }
        if jt < n {
            assert(s[jt].0 < s[n].0);
        }
        assert(s[n].0 == t[n].0);
        assert(s[n] == t[n]);
        let ps = s.drop_last();
        let pt = t.drop_last();
        lemma_to_map_remove(s, n);
        lemma_to_map_remove(t, n);
        assert(s.remove(n) =~= ps);
        assert(t.remove(n) =~= pt);
        assert forall|i: int, j: int| 0 <= i < j < ps.len() implies (#[trigger] ps[i]).0 < (
        #[trigger] ps[j]).0 by {
            assert(ps[i] == s[i] && ps[j] == s[j]);
        }
        assert forall|i: int, j: int| 0 <= i < j < pt.len() implies (#[trigger] pt[i]).0 < (
        #[trigger] pt[j]).0 by {
            assert(pt[i] == t[i] && pt[j] == t[j]);
        }
        lemma_ascending_unique(ps, pt);
        assert(s =~= ps.push(s[n]));
        assert(t =~= pt.push(t[n]));
    }
}

/// A sequence with rising keys is the pairs of its own map in the order of
/// their keys.
pub proof fn lemma_ascending_of<V>(s: Seq<(nat, V)>)
    requires
        is_ascending(s),
    ensures
        ascending(to_map(s)) == s,
{
    let t = ascending(to_map(s));
    assert(is_ascending(t) && to_map(t) == to_map(s));
    lemma_ascending_unique(t, s);
}

/// In a sequence with rising keys, a key that is not there has its place:
/// all keys before the place are less, all from the place on are greater.
pub proof fn lemma_ascending_place<V>(s: Seq<(nat, V)>, k: nat) -> (p: int)
    requires
        is_ascending(s),
        !has_key(s, k),
    ensures
        0 <= p <= s.len(),
        forall|j: int| 0 <= j < p ==> (#[trigger] s[j]).0 < k,
        forall|j: int| p <= j < s.len() ==> k < (#[trigger] s[j]).0,
    decreases s.len(),
{
    if s.len() == 0 {
        0
    } else {
        let n = s.len() - 1;
        assert(s[n].0 != k);
        if s[n].0 < k {
            assert forall|j: int| 0 <= j < s.len() implies (#[trigger] s[j]).0 < k by {
                if j < n {
                    assert(s[j].0 < s[n].0);
                }
            }
            s.len() as int
        } else {
            let ps = s.drop_last();
            assert forall|i: int, j: int| 0 <= i < j < ps.len() implies (#[trigger] ps[i]).0 < (
            #[trigger] ps[j]).0 by {
                assert(ps[i] == s[i] && ps[j] == s[j]);
            }
            assert(!has_key(ps, k)) by {
                if has_key(ps, k) {
                    let j = index_of(ps, k);
                    assert(s[j].0 == k);
                }
            }
            let p = lemma_ascending_place(ps, k);
            assert forall|j: int| 0 <= j < p implies (#[trigger] s[j]).0 < k by {
                assert(ps[j] == s[j]);
            }
            assert forall|j: int| p <= j < s.len() implies k < (#[trigger] s[j]).0 by {
                if j < n {
                    assert(ps[j] == s[j]);
                }
            }
            p
        }
    }
}

/// A new pair put at the place of its key keeps the keys rising.
pub proof fn lemma_ascending_insert<V>(s: Seq<(nat, V)>, p: int, k: nat, v: V)
    requires
        is_ascending(s),
        0 <= p <= s.len(),
        forall|j: int| 0 <= j < p ==> (#[trigger] s[j]).0 < k,
        forall|j: int| p <= j < s.len() ==> k < (#[trigger] s[j]).0,
    ensures
        is_ascending(s.insert(p, (k, v))),
        !has_key(s, k),
{
    let t = s.insert(p, (k, v));
    assert forall|a: int, b: int| 0 <= a < b < t.len() implies (#[trigger] t[a]).0 < (
    #[trigger] t[b]).0 by {
        if a < p {
            assert(t[a] == s[a]);
        } else if a > p {
            assert(t[a] == s[a - 1]);
        }
        if b < p {
            assert(t[b] == s[b]);
        } else if b > p {
            assert(t[b] == s[b - 1]);
        }
        if a != p && b != p {
            let a1 = if a < p {
                a
            } else {
                a - 1
            };
            let b1 = if b < p {
                b
            } else {
                b - 1
            };
            assert(s[a1].0 < s[b1].0);
        }
    }
    if has_key(s, k) {
        let j = index_of(s, k);
        assert(s[j].0 == k);
    }
}

/// Every finite map has its pairs in the order of their keys: a sequence
/// with rising keys that holds what the map holds.
pub proof fn lemma_ascending_exists<V>(m: Map<nat, V>)
    requires
        m.dom().finite(),
    ensures
        is_ascending(ascending(m)),
        to_map(ascending(m)) == m,
        ascending(m).len() == m.dom().len(),
    decreases m.dom().len(),
{
    if m.dom().len() == 0 {
        let e = Seq::<(nat, V)>::empty();
        assert(m.dom() =~= Set::<nat>::empty());
        assert(to_map(e) =~= m);
        assert(is_ascending(e));
    } else {
        let k = m.dom().choose();
        let rest = m.remove(k);
        assert(rest.dom() =~= m.dom().remove(k));
        lemma_ascending_exists(rest);
        let s = ascending(rest);
        assert(!has_key(s, k)) by {
            if has_key(s, k) {
                assert(to_map(s).contains_key(k));
            }
        }
        let p = lemma_ascending_place(s, k);
        lemma_ascending_insert(s, p, k, m[k]);
        lemma_ascending_distinct(s);
        lemma_to_map_insert(s, p, k, m[k]);
        let t = s.insert(p, (k, m[k]));
        assert(to_map(t) =~= m);
        assert(is_ascending(t) && to_map(t) == m);
    }
    let r = ascending(m);
    lemma_ascending_distinct(r);
    lemma_to_map_len(r);
}

} // verus!
