//! Sums over finite maps.
use vstd::prelude::*;

use crate::collections;

verus! {

/// The sum of `f` over the entries of a finite map.
pub open spec fn total<K, V>(m: Map<K, V>, f: spec_fn(K, V) -> nat) -> nat
    decreases m.dom().len(),
    when m.dom().finite()
{
    if m.dom().len() == 0 {
        0
    } else {
        let key = m.dom().choose();
        f(key, m[key]) + total(m.remove(key), f)
    }
}

/// Any entry may be counted first.
pub proof fn lemma_total_split<K, V>(m: Map<K, V>, f: spec_fn(K, V) -> nat, key: K)
    requires
        m.dom().finite(),
        m.contains_key(key),
    ensures
        total(m, f) == f(key, m[key]) + total(m.remove(key), f),
    decreases m.dom().len(),
{
    let c = m.dom().choose();
    assert(m.dom().contains(key));
    assert(m.dom().contains(c));
    if c != key {
        lemma_total_split(m.remove(c), f, key);
        lemma_total_split(m.remove(key), f, c);
        assert(m.remove(c).remove(key) =~= m.remove(key).remove(c));
    }
}

/// Binding a key replaces what its former value counted.
pub proof fn lemma_total_insert<K, V>(m: Map<K, V>, f: spec_fn(K, V) -> nat, key: K, value: V)
    requires
        m.dom().finite(),
    ensures
        total(m.insert(key, value), f) == f(key, value) + total(m.remove(key), f),
        m.contains_key(key) ==> total(m, f) == f(key, m[key]) + total(m.remove(key), f),
        !m.contains_key(key) ==> total(m, f) == total(m.remove(key), f),
{
    let n = m.insert(key, value);
    lemma_total_split(n, f, key);
    assert(n.remove(key) =~= m.remove(key));
    if m.contains_key(key) {
        lemma_total_split(m, f, key);
    } else {
        assert(m.remove(key) =~= m);
    }
}

/// A map with fewer entries has a smaller sum.
pub proof fn lemma_total_kept<K, V>(m: Map<K, V>, f: spec_fn(K, V) -> nat, p: spec_fn(K, V) -> bool)
    requires
        m.dom().finite(),
    ensures
        collections::kept(m, p).dom().finite(),
        total(collections::kept(m, p), f) <= total(m, f),
    decreases m.dom().len(),
{
    let k = collections::kept(m, p);
    assert(k.dom().subset_of(m.dom()));
    vstd::set_lib::lemma_set_subset_finite(m.dom(), k.dom());
    if m.dom().len() == 0 {
        assert(m.dom() =~= Set::empty());
        assert(k.dom() =~= Set::empty());
    } else {
        let c = m.dom().choose();
        assert(m.dom().contains(c));
        lemma_total_kept(m.remove(c), f, p);
        if p(c, m[c]) {
            lemma_total_split(k, f, c);
            assert(k.remove(c) =~= collections::kept(m.remove(c), p));
        } else {
            assert(k =~= collections::kept(m.remove(c), p));
        }
    }
}

/// The sum of `f` over a list of entries.
pub open spec fn list_total<K, V>(s: Seq<(K, V)>, f: spec_fn(K, V) -> nat) -> nat
    decreases s.len(),
{
    if s.len() == 0 {
        0
    } else {
        list_total(s.drop_last(), f) + f(s.last().0, s.last().1)
    }
}

/// The sum over a map is the sum over its entries in any order.
pub proof fn lemma_list_total<K, V>(s: Seq<(K, V)>, f: spec_fn(K, V) -> nat)
    requires
        collections::distinct_keys(s),
    ensures
        list_total(s, f) == total(collections::listed_map(s), f),
    decreases s.len(),
{
    collections::lemma_listed_finite(s);
    if s.len() == 0 {
        assert(collections::listed_map(s).dom() =~= Set::empty());
    } else {
        let t = s.drop_last();
        let (key, value) = s.last();
        lemma_list_total(t, f);
        assert(t.push((key, value)) =~= s);
        assert(!collections::lists_key(t, key)) by {
            if collections::lists_key(t, key) {
                let i = choose|i: int| 0 <= i < t.len() && (#[trigger] t[i]).0 == key;
                assert(s[i].0 == s[s.len() - 1].0);
            }
        }
        collections::lemma_listed_push(t, key, value);
        collections::lemma_listed_finite(t);
        lemma_total_insert(collections::listed_map(t), f, key, value);
        assert(collections::listed_map(t).remove(key) =~= collections::listed_map(t));
    }
}

/// Counts the entries whose key satisfies `p`.
pub open spec fn counting<K, V>(p: spec_fn(K) -> bool) -> spec_fn(K, V) -> nat {
    |key: K, value: V|
        if p(key) {
            1nat
        } else {
            0nat
        }
}

/// The sum of ones over the keys that satisfy `p` is the number of those keys.
pub proof fn lemma_total_counts<K, V>(m: Map<K, V>, p: spec_fn(K) -> bool)
    requires
        m.dom().finite(),
    ensures
        total(m, counting(p)) == m.dom().filter(p).len(),
        m.dom().filter(p).finite(),
    decreases m.dom().len(),
{
    let s = m.dom().filter(p);
    m.dom().lemma_len_filter(p);
    if m.dom().len() == 0 {
        assert(m.dom() =~= Set::empty());
        assert(s =~= Set::empty());
    } else {
        let c = m.dom().choose();
        assert(m.dom().contains(c));
        lemma_total_counts(m.remove(c), p);
        let t = m.remove(c).dom().filter(p);
        if p(c) {
            assert(s.remove(c) =~= t);
            assert(s.contains(c));
        } else {
            assert(s =~= t);
        }
    }
}

} // verus!
