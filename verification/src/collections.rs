//! Small keyed collections.
//!
//! [`VecMap`] keeps its entries in insertion order, one per key, and is
//! described by the finite map from the views of its keys to the views of its
//! values. [`PeerSet`] is an ascending list of peer ids without repetitions.
use vstd::prelude::*;

use crate::bytes;

verus! {

/// A value that can be copied by its view.
pub trait Duplicate: View + Sized {
    fn duplicate(&self) -> (r: Self)
        ensures
            r@ == self@,
    ;
}

/// A key that can be compared and copied by its view.
pub trait MapKey: Duplicate {
    fn same(&self, other: &Self) -> (r: bool)
        ensures
            r == (self@ == other@),
    ;
}

impl Duplicate for u32 {
    fn duplicate(&self) -> (r: Self) {
        *self
    }
}

impl MapKey for u32 {
    fn same(&self, other: &Self) -> (r: bool) {
        *self == *other
    }
}

impl Duplicate for String {
    fn duplicate(&self) -> (r: Self) {
        self.clone()
    }
}

impl MapKey for String {
    fn same(&self, other: &Self) -> (r: bool) {
        *self == *other
    }
}

impl Duplicate for Vec<u8> {
    fn duplicate(&self) -> (r: Self) {
        bytes::copy_bytes(self)
    }
}

/// What an optional value shows of itself.
pub open spec fn option_view<T: View>(value: Option<T>) -> Option<T::V> {
    match value {
        Some(inner) => Some(inner@),
        None => None,
    }
}

/// What the values of a list show of themselves.
pub open spec fn list_view<T: View>(list: Seq<T>) -> Seq<T::V> {
    Seq::new(list.len(), |i: int| list[i]@)
}

pub fn duplicate_option<T: Duplicate>(value: &Option<T>) -> (r: Option<T>)
    ensures
        option_view(r) == option_view(*value),
{
    match value {
        Some(inner) => Some(inner.duplicate()),
        None => None,
    }
}

pub fn duplicate_list<T: Duplicate>(list: &Vec<T>) -> (r: Vec<T>)
    ensures
        list_view(r@) == list_view(list@),
{
    let mut r: Vec<T> = Vec::new();
    let mut i: usize = 0;
    while i < list.len()
        invariant
            i <= list@.len(),
            r@.len() == i,
            forall|j: int| 0 <= j < i ==> (#[trigger] r@[j])@ == list@[j]@,
        decreases list@.len() - i,
    {
        r.push(list[i].duplicate());
        i += 1;
    }
    assert(list_view(r@) =~= list_view(list@));
    r
}

/// No two entries of `s` have the same key.
pub open spec fn distinct_keys<K, V>(s: Seq<(K, V)>) -> bool {
    forall|i: int, j: int| 0 <= i < s.len() && 0 <= j < s.len() && i != j ==> (#[trigger] s[i]).0 != (#[trigger] s[j]).0
}

/// `s` has an entry under `key`.
pub open spec fn lists_key<K, V>(s: Seq<(K, V)>, key: K) -> bool {
    exists|i: int| 0 <= i < s.len() && (#[trigger] s[i]).0 == key
}

/// The map that a list of entries stands for.
pub open spec fn listed_map<K, V>(s: Seq<(K, V)>) -> Map<K, V> {
    Map::new(
        |key: K| lists_key(s, key),
        |key: K| s[choose|i: int| 0 <= i < s.len() && (#[trigger] s[i]).0 == key].1,
    )
}

/// The entries of `m` that satisfy `p`.
pub open spec fn kept<K, V>(m: Map<K, V>, p: spec_fn(K, V) -> bool) -> Map<K, V> {
    Map::new(|key: K| m.contains_key(key) && p(key, m[key]), |key: K| m[key])
}

/// `m` with `f` applied to every value.
pub open spec fn mapped<K, V>(m: Map<K, V>, f: spec_fn(V) -> V) -> Map<K, V> {
    Map::new(|key: K| m.contains_key(key), |key: K| f(m[key]))
}

/// The value under `key`, or `default`.
pub open spec fn value_or<K, V>(m: Map<K, V>, key: K, default: V) -> V {
    if m.contains_key(key) {
        m[key]
    } else {
        default
    }
}

pub proof fn lemma_listed_at<K, V>(s: Seq<(K, V)>, i: int)
    requires
        distinct_keys(s),
        0 <= i < s.len(),
    ensures
        listed_map(s).contains_key(s[i].0),
        listed_map(s)[s[i].0] == s[i].1,
{
    let c = choose|j: int| 0 <= j < s.len() && (#[trigger] s[j]).0 == s[i].0;
    assert(c == i);
}

pub proof fn lemma_listed_find<K, V>(s: Seq<(K, V)>, key: K) -> (i: int)
    requires
        distinct_keys(s),
        listed_map(s).contains_key(key),
    ensures
        0 <= i < s.len(),
        s[i].0 == key,
        s[i].1 == listed_map(s)[key],
{
    let c = choose|j: int| 0 <= j < s.len() && (#[trigger] s[j]).0 == key;
    lemma_listed_at(s, c);
    c
}

pub proof fn lemma_listed_push<K, V>(s: Seq<(K, V)>, key: K, value: V)
    requires
        distinct_keys(s),
        !lists_key(s, key),
    ensures
        distinct_keys(s.push((key, value))),
        listed_map(s.push((key, value))) == listed_map(s).insert(key, value),
{
    let t = s.push((key, value));
    assert forall|k: K| listed_map(t).contains_key(k) <==> listed_map(s).insert(key, value).contains_key(k) by {
        if lists_key(s, k) {
            let i = choose|i: int| 0 <= i < s.len() && (#[trigger] s[i]).0 == k;
            assert(t[i].0 == k);
        }
        if k == key {
            assert(t[s.len() as int].0 == k);
        }
        if lists_key(t, k) {
            let i = choose|i: int| 0 <= i < t.len() && (#[trigger] t[i]).0 == k;
            if i < s.len() {
                assert(s[i].0 == k);
            }
        }
    }
    assert forall|k: K| listed_map(t).contains_key(k) implies listed_map(t)[k] == listed_map(s).insert(key, value)[k] by {
        let i = lemma_listed_find(t, k);
        if i < s.len() {
            assert(s[i] == t[i]);
            lemma_listed_at(s, i);
        }
    }
    assert(listed_map(t) =~= listed_map(s).insert(key, value));
}

pub proof fn lemma_listed_update<K, V>(s: Seq<(K, V)>, i: int, value: V)
    requires
        distinct_keys(s),
        0 <= i < s.len(),
    ensures
        distinct_keys(s.update(i, (s[i].0, value))),
        listed_map(s.update(i, (s[i].0, value))) == listed_map(s).insert(s[i].0, value),
{
    let t = s.update(i, (s[i].0, value));
    assert forall|j: int| 0 <= j < t.len() implies (#[trigger] t[j]).0 == s[j].0 by {}
    assert(distinct_keys(t));
    lemma_listed_at(s, i);
    assert forall|k: K| lists_key(t, k) <==> lists_key(s, k) by {
        if lists_key(s, k) {
            let j = choose|j: int| 0 <= j < s.len() && (#[trigger] s[j]).0 == k;
            assert(t[j].0 == k);
        }
        if lists_key(t, k) {
            let j = choose|j: int| 0 <= j < t.len() && (#[trigger] t[j]).0 == k;
            assert(s[j].0 == k);
        }
    }
    assert forall|k: K| listed_map(t).contains_key(k) implies listed_map(t)[k] == listed_map(s).insert(s[i].0, value)[k] by {
        let j = lemma_listed_find(t, k);
        lemma_listed_at(s, j);
        assert(s[j].0 == k);
    }
    assert(listed_map(t) =~= listed_map(s).insert(s[i].0, value));
}

pub proof fn lemma_listed_remove<K, V>(s: Seq<(K, V)>, i: int)
    requires
        distinct_keys(s),
        0 <= i < s.len(),
    ensures
        distinct_keys(s.remove(i)),
        listed_map(s.remove(i)) == listed_map(s).remove(s[i].0),
{
    let t = s.remove(i);
    assert forall|j: int| 0 <= j < t.len() implies (#[trigger] t[j]) == s[if j < i { j } else { j + 1 }] by {}
    assert(distinct_keys(t));
    assert forall|k: K| lists_key(t, k) <==> (lists_key(s, k) && k != s[i].0) by {
        if lists_key(s, k) && k != s[i].0 {
            let j = choose|j: int| 0 <= j < s.len() && (#[trigger] s[j]).0 == k;
            let m = if j < i { j } else { j - 1 };
            assert(t[m].0 == k);
        }
        if lists_key(t, k) {
            let j = choose|j: int| 0 <= j < t.len() && (#[trigger] t[j]).0 == k;
            let m = if j < i { j } else { j + 1 };
            assert(s[m].0 == k);
        }
    }
    assert forall|k: K| listed_map(t).contains_key(k) implies listed_map(t)[k] == listed_map(s).remove(s[i].0)[k] by {
        let j = lemma_listed_find(t, k);
        let m = if j < i { j } else { j + 1 };
        lemma_listed_at(s, m);
    }
    assert(listed_map(t) =~= listed_map(s).remove(s[i].0));
}

/// Applying `f` to the values of a list applies it to the values of its map.
pub proof fn lemma_listed_mapped<K, V>(s: Seq<(K, V)>, t: Seq<(K, V)>, f: spec_fn(V) -> V)
    requires
        distinct_keys(s),
        t.len() == s.len(),
        forall|i: int| 0 <= i < s.len() ==> (#[trigger] t[i]).0 == s[i].0 && t[i].1 == f(s[i].1),
    ensures
        listed_map(t) == mapped(listed_map(s), f),
{
    assert(distinct_keys(t));
    assert forall|key: K| lists_key(t, key) <==> lists_key(s, key) by {
        if lists_key(s, key) {
            let i = choose|i: int| 0 <= i < s.len() && (#[trigger] s[i]).0 == key;
            assert(t[i].0 == key);
        }
        if lists_key(t, key) {
            let i = choose|i: int| 0 <= i < t.len() && (#[trigger] t[i]).0 == key;
            assert(s[i].0 == key);
        }
    }
    assert forall|key: K| listed_map(t).contains_key(key) implies listed_map(t)[key] == f(listed_map(s)[key]) by {
        let i = lemma_listed_find(t, key);
        lemma_listed_at(s, i);
    }
    assert(listed_map(t) =~= mapped(listed_map(s), f));
}

/// A list has finitely many keys.
pub proof fn lemma_listed_finite<K, V>(s: Seq<(K, V)>)
    ensures
        listed_map(s).dom().finite(),
{
    let keys = s.map_values(|entry: (K, V)| entry.0);
    keys.lemma_cardinality_of_set();
    assert(listed_map(s).dom().subset_of(keys.to_set())) by {
        assert forall|key: K| lists_key(s, key) implies keys.to_set().contains(key) by {
            let i = choose|i: int| 0 <= i < s.len() && (#[trigger] s[i]).0 == key;
            assert(keys[i] == key);
        }
    }
    vstd::set_lib::lemma_set_subset_finite(keys.to_set(), listed_map(s).dom());
}

/// A list with distinct keys has as many keys as entries.
pub proof fn lemma_listed_len<K, V>(s: Seq<(K, V)>)
    requires
        distinct_keys(s),
    ensures
        listed_map(s).dom().len() == s.len(),
    decreases s.len(),
{
    if s.len() == 0 {
        assert(listed_map(s).dom() =~= Set::empty());
    } else {
        let t = s.drop_last();
        let (key, value) = s.last();
        assert(t.push((key, value)) =~= s);
        assert(!lists_key(t, key)) by {
            if lists_key(t, key) {
                let i = choose|i: int| 0 <= i < t.len() && (#[trigger] t[i]).0 == key;
                assert(s[i].0 == s[s.len() - 1].0);
            }
        }
        lemma_listed_push(t, key, value);
        lemma_listed_len(t);
        lemma_listed_finite(t);
        assert(listed_map(s).dom() =~= listed_map(t).dom().insert(key));
    }
}

/// A map over a list of entries with distinct keys.
pub struct VecMap<K: MapKey, V: View> {
    keys: Vec<K>,
    values: Vec<V>,
}

impl<K: MapKey, V: View> View for VecMap<K, V> {
    type V = Map<K::V, V::V>;

    open spec fn view(&self) -> Map<K::V, V::V> {
        listed_map(self.listing())
    }
}

impl<K: MapKey, V: View> VecMap<K, V> {
    /// The entries in the order in which they are kept.
    pub closed spec fn listing(self) -> Seq<(K::V, V::V)> {
        Seq::new(self.keys@.len(), |i: int| (self.keys@[i]@, self.values@[i]@))
    }

    #[verifier::type_invariant]
    spec fn well_formed(self) -> bool {
        &&& self.keys@.len() == self.values@.len()
        &&& forall|i: int, j: int|
            0 <= i < self.keys@.len() && 0 <= j < self.keys@.len() && i != j ==> (
            #[trigger] self.keys@[i])@ != (#[trigger] self.keys@[j])@
    }

    /// What holds of the view of every value holds of the values of the map, of which
    /// there are finitely many.
    pub proof fn lemma_values(self, p: spec_fn(V::V) -> bool)
        requires
            forall|value: V| p(#[trigger] value@),
        ensures
            forall|key: K::V| #[trigger] self@.contains_key(key) ==> p(self@[key]),
            self@.dom().finite(),
    {
        let s = self.listing();
        lemma_listed_finite(s);
        assert forall|key: K::V| #[trigger] self@.contains_key(key) implies p(self@[key]) by {
            let i = choose|i: int| 0 <= i < s.len() && (#[trigger] s[i]).0 == key;
            assert(p(self.values@[i]@));
        }
    }

    pub fn new() -> (r: Self)
        ensures
            r.listing() == Seq::<(K::V, V::V)>::empty(),
            r@ == Map::<K::V, V::V>::empty(),
    {
        let r = VecMap { keys: Vec::new(), values: Vec::new() };
        assert(r@ =~= Map::<K::V, V::V>::empty());
        r
    }

    pub fn len(&self) -> (r: usize)
        ensures
            r == self.listing().len(),
            r == self@.dom().len(),
            distinct_keys(self.listing()),
    {
        proof {
            use_type_invariant(self);
            lemma_listed_len(self.listing());
        }
        self.keys.len()
    }

    pub fn is_empty(&self) -> (r: bool)
        ensures
            r == (self@ == Map::<K::V, V::V>::empty()),
    {
        proof {
            use_type_invariant(self);
            if self.keys@.len() == 0 {
                assert(self@ =~= Map::<K::V, V::V>::empty());
            } else {
                lemma_listed_at(self.listing(), 0);
            }
        }
        self.keys.len() == 0
    }

    pub fn key_at(&self, i: usize) -> (r: &K)
        requires
            i < self.listing().len(),
        ensures
            r@ == self.listing()[i as int].0,
            distinct_keys(self.listing()),
    {
        proof {
            use_type_invariant(self);
        }
        &self.keys[i]
    }

    pub fn value_at(&self, i: usize) -> (r: &V)
        requires
            i < self.listing().len(),
        ensures
            r@ == self.listing()[i as int].1,
            distinct_keys(self.listing()),
            self@.contains_key(self.listing()[i as int].0),
            self@[self.listing()[i as int].0] == r@,
    {
        proof {
            use_type_invariant(self);
            lemma_listed_at(self.listing(), i as int);
        }
        &self.values[i]
    }

    pub fn value_at_mut(&mut self, i: usize) -> (r: &mut V)
        requires
            i < old(self).listing().len(),
        ensures
            r@ == old(self).listing()[i as int].1,
            distinct_keys(old(self).listing()),
            distinct_keys(final(self).listing()),
            final(self).listing() == old(self).listing().update(
                i as int,
                (old(self).listing()[i as int].0, final(r)@),
            ),
            final(self)@ == old(self)@.insert(old(self).listing()[i as int].0, final(r)@),
    {
        proof {
            use_type_invariant(&*self);
            let s = self.listing();
            assert forall|v: V::V| #[trigger] distinct_keys(s.update(i as int, (s[i as int].0, v)))
                && listed_map(s.update(i as int, (s[i as int].0, v))) == listed_map(s).insert(s[i as int].0, v) by {
                lemma_listed_update(s, i as int, v);
            }
        }
        &mut self.values[i]
    }

    /// The index of `key`.
    pub fn find(&self, key: &K) -> (r: Option<usize>)
        ensures
            distinct_keys(self.listing()),
            r matches Some(i) ==> i < self.listing().len() && self.listing()[i as int].0 == key@
                && self@.contains_key(key@) && self@[key@] == self.listing()[i as int].1,
            r is None ==> !self@.contains_key(key@) && !lists_key(self.listing(), key@),
    {
        proof {
            use_type_invariant(self);
        }
        let mut i: usize = 0;
        while i < self.keys.len()
            invariant
                i <= self.keys@.len(),
                distinct_keys(self.listing()),
                self.listing().len() == self.keys@.len(),
                forall|j: int| 0 <= j < i ==> (#[trigger] self.listing()[j]).0 != key@,
            decreases self.keys@.len() - i,
        {
            if self.keys[i].same(key) {
                proof {
                    lemma_listed_at(self.listing(), i as int);
                }
                return Some(i);
            }
            i += 1;
        }
        None
    }

    pub fn contains_key(&self, key: &K) -> (r: bool)
        ensures
            r == self@.contains_key(key@),
    {
        self.find(key).is_some()
    }

    pub fn get(&self, key: &K) -> (r: Option<&V>)
        ensures
            r matches Some(v) ==> self@.contains_key(key@) && v@ == self@[key@],
            r is None ==> !self@.contains_key(key@),
    {
        match self.find(key) {
            Some(i) => Some(self.value_at(i)),
            None => None,
        }
    }

    pub fn get_mut(&mut self, key: &K) -> (r: Option<&mut V>)
        ensures
            match r {
                Some(v) => {
                    &&& old(self)@.contains_key(key@)
                    &&& v@ == old(self)@[key@]
                    &&& final(self)@ == old(self)@.insert(key@, final(v)@)
                },
                None => !old(self)@.contains_key(key@) && final(self)@ == old(self)@,
            },
    {
        match self.find(key) {
            Some(i) => Some(self.value_at_mut(i)),
            None => None,
        }
    }

    /// Adds an entry under a new key at the end.
    pub fn append(&mut self, key: K, value: V)
        requires
            !lists_key(old(self).listing(), key@),
        ensures
            final(self).listing() == old(self).listing().push((key@, value@)),
            final(self)@ == old(self)@.insert(key@, value@),
            distinct_keys(final(self).listing()),
    {
        proof {
            use_type_invariant(&*self);
            lemma_listed_push(self.listing(), key@, value@);
        }
        let ghost before = self.listing();
        let mut whole: VecMap<K, V> = VecMap::new();
        std::mem::swap(self, &mut whole);
        let VecMap { mut keys, mut values } = whole;
        assert forall|i: int| 0 <= i < keys@.len() implies (#[trigger] keys@[i])@ != key@ by {
            assert(before[i].0 == keys@[i]@);
        }
        keys.push(key);
        values.push(value);
        let ghost after = Seq::new(keys@.len(), |i: int| (keys@[i]@, values@[i]@));
        assert(after =~= before.push((key@, value@)));
        let mut grown = VecMap { keys, values };
        std::mem::swap(self, &mut grown);
    }

    /// Binds `key` to `value`, whether or not it was bound before.
    pub fn insert(&mut self, key: K, value: V)
        ensures
            final(self)@ == old(self)@.insert(key@, value@),
    {
        match self.find(&key) {
            Some(i) => {
                let slot = self.value_at_mut(i);
                *slot = value;
            },
            None => self.append(key, value),
        }
    }

    /// The value under `key`; `default` is bound there first if the key is new.
    pub fn entry(&mut self, key: K, default: V) -> (r: &mut V)
        ensures
            r@ == if old(self)@.contains_key(key@) {
                old(self)@[key@]
            } else {
                default@
            },
            final(self)@ == old(self)@.insert(key@, final(r)@),
    {
        match self.find(&key) {
            Some(i) => self.value_at_mut(i),
            None => {
                let i: usize = self.len();
                self.append(key, default);
                self.value_at_mut(i)
            },
        }
    }

    /// Takes the entry at index `i` out; the later entries move up.
    pub fn remove_at(&mut self, i: usize) -> (r: (K, V))
        requires
            i < old(self).listing().len(),
        ensures
            r.0@ == old(self).listing()[i as int].0,
            r.1@ == old(self).listing()[i as int].1,
            distinct_keys(old(self).listing()),
            distinct_keys(final(self).listing()),
            final(self).listing() == old(self).listing().remove(i as int),
            final(self)@ == old(self)@.remove(old(self).listing()[i as int].0),
    {
        proof {
            use_type_invariant(&*self);
            lemma_listed_remove(self.listing(), i as int);
        }
        let ghost before = self.listing();
        let mut whole: VecMap<K, V> = VecMap::new();
        std::mem::swap(self, &mut whole);
        let VecMap { mut keys, mut values } = whole;
        let key = keys.remove(i);
        let value = values.remove(i);
        let ghost after = Seq::new(keys@.len(), |j: int| (keys@[j]@, values@[j]@));
        assert(after =~= before.remove(i as int));
        let mut shrunk = VecMap { keys, values };
        std::mem::swap(self, &mut shrunk);
        (key, value)
    }

    pub fn remove(&mut self, key: &K) -> (r: Option<V>)
        ensures
            r matches Some(v) ==> old(self)@.contains_key(key@) && v@ == old(self)@[key@],
            r is None ==> !old(self)@.contains_key(key@),
            final(self)@ == old(self)@.remove(key@),
    {
        match self.find(key) {
            Some(i) => Some(self.remove_at(i).1),
            None => {
                assert(self@.remove(key@) =~= self@);
                None
            },
        }
    }

    /// Drops every entry that `keep` turns down; `p` is what `keep` decides.
    pub(crate) fn retain<F: Fn(&K, &V) -> bool>(
        &mut self,
        keep: F,
        Ghost(p): Ghost<spec_fn(K::V, V::V) -> bool>,
    )
        requires
            forall|k: &K, v: &V| #[trigger] keep.requires((k, v)),
            forall|k: &K, v: &V, b: bool| #[trigger] keep.ensures((k, v), b) ==> b == p(k@, v@),
        ensures
            final(self)@ == kept(old(self)@, p),
    {
        let ghost before = self@;
        let mut i: usize = 0;
        while i < self.len()
            invariant
                i <= self.listing().len(),
                forall|k: &K, v: &V| #[trigger] keep.requires((k, v)),
                forall|k: &K, v: &V, b: bool| #[trigger] keep.ensures((k, v), b) ==> b == p(k@, v@),
                forall|j: int| 0 <= j < i ==> p((#[trigger] self.listing()[j]).0, self.listing()[j].1),
                forall|key: K::V| #[trigger] self@.contains_key(key) ==> before.contains_key(key) && self@[key] == before[key],
                forall|key: K::V| #[trigger] before.contains_key(key) && p(key, before[key]) ==> self@.contains_key(key),
            decreases self.listing().len() - i,
        {
            let good = keep(self.key_at(i), self.value_at(i));
            if good {
                i += 1;
            } else {
                let ghost s = self.listing();
                self.remove_at(i);
            }
        }
        proof {
            assert forall|key: K::V| #[trigger] self@.contains_key(key) implies p(key, self@[key]) by {
                let j = lemma_listed_find(self.listing(), key);
            }
            assert(self@ =~= kept(before, p));
        }
    }
}

/// The values of `s` have ascending ranks.
pub open spec fn ranked<T>(s: Seq<T>, rank: spec_fn(T) -> int) -> bool {
    forall|i: int, j: int| 0 <= i < j < s.len() ==> rank(#[trigger] s[i]) < rank(#[trigger] s[j])
}

/// The members of `s` by ascending rank.
pub open spec fn ranked_list<T>(s: Set<T>, rank: spec_fn(T) -> int) -> Seq<T> {
    choose|l: Seq<T>| ranked(l, rank) && #[trigger] l.to_set() == s
}

/// A set has at most one list by ascending rank.
pub proof fn lemma_ranked_unique<T>(a: Seq<T>, b: Seq<T>, rank: spec_fn(T) -> int)
    requires
        ranked(a, rank),
        ranked(b, rank),
        a.to_set() == b.to_set(),
    ensures
        a == b,
    decreases a.len(),
{
    if a.len() == 0 {
        if b.len() > 0 {
            assert(b.to_set().contains(b[0]));
        }
        assert(a =~= b);
    } else if b.len() == 0 {
        assert(a.to_set().contains(a[0]));
    } else {
        let x = a.last();
        let y = b.last();
        assert(a.to_set().contains(x) && b.to_set().contains(y));
        assert(b.contains(x) && a.contains(y));
        let i = choose|i: int| 0 <= i < b.len() && b[i] == x;
        let j = choose|j: int| 0 <= j < a.len() && a[j] == y;
        assert(x == y);
        let p = a.drop_last();
        let q = b.drop_last();
        assert forall|v: T| p.to_set().contains(v) <==> q.to_set().contains(v) by {
            if p.contains(v) {
                let k = choose|k: int| 0 <= k < p.len() && p[k] == v;
                assert(a[k] == v);
                assert(a.to_set().contains(v));
                assert(b.contains(v));
                let m = choose|m: int| 0 <= m < b.len() && b[m] == v;
                assert(q[m] == v);
            }
            if q.contains(v) {
                let k = choose|k: int| 0 <= k < q.len() && q[k] == v;
                assert(b[k] == v);
                assert(b.to_set().contains(v));
                assert(a.contains(v));
                let m = choose|m: int| 0 <= m < a.len() && a[m] == v;
                assert(p[m] == v);
            }
        }
        assert(p.to_set() =~= q.to_set());
        lemma_ranked_unique(p, q, rank);
        assert(a =~= p.push(x));
        assert(b =~= q.push(y));
    }
}

/// A list by ascending rank is the list of its members.
pub proof fn lemma_ranked_list<T>(l: Seq<T>, rank: spec_fn(T) -> int)
    requires
        ranked(l, rank),
    ensures
        ranked_list(l.to_set(), rank) == l,
{
    let c = ranked_list(l.to_set(), rank);
    lemma_ranked_unique(c, l, rank);
}

/// `s` is strictly ascending.
pub open spec fn ascending(s: Seq<u32>) -> bool {
    forall|i: int, j: int| 0 <= i < j < s.len() ==> #[trigger] s[i] < #[trigger] s[j]
}

/// The members of `s` from the smallest to the largest.
pub open spec fn ascending_list(s: Set<u32>) -> Seq<u32> {
    choose|l: Seq<u32>| ascending(l) && #[trigger] l.to_set() == s
}

/// An ascending list is the list of its members.
pub proof fn lemma_ascending_list(l: Seq<u32>)
    requires
        ascending(l),
    ensures
        ascending_list(l.to_set()) == l,
{
    let c = ascending_list(l.to_set());
    lemma_ranked_unique(c, l, |id: u32| id as int);
}

/// A finite set has an ascending list.
pub proof fn lemma_ascending_list_exists(s: Set<u32>)
    requires
        s.finite(),
    ensures
        ascending(ascending_list(s)),
        ascending_list(s).to_set() == s,
{
    let l = lemma_ascending_list_of(s);
    assert(ascending(l) && l.to_set() == s);
}

proof fn lemma_ascending_list_of(s: Set<u32>) -> (l: Seq<u32>)
    requires
        s.finite(),
    ensures
        ascending(l),
        l.to_set() == s,
    decreases s.len(),
{
    if s.len() == 0 {
        assert(s =~= Set::empty());
        let l = Seq::<u32>::empty();
        assert(l.to_set() =~= s);
        l
    } else {
        let r = |a: u32, b: u32| a >= b;
        s.find_unique_minimal_ensures(r);
        let largest = s.find_unique_minimal(r);
        let rest = lemma_ascending_list_of(s.remove(largest));
        let l = rest.push(largest);
        assert forall|i: int, j: int| 0 <= i < j < l.len() implies #[trigger] l[i] < #[trigger] l[j] by {
            assert(rest.to_set().contains(l[i]));
            assert(s.contains(l[i]) && l[i] != largest);
            if j == rest.len() {
                assert(r(l[i], largest) ==> r(largest, l[i]));
            }
        }
        assert forall|x: u32| l.to_set().contains(x) <==> s.contains(x) by {
            if s.contains(x) && x != largest {
                assert(rest.to_set().contains(x));
                let i = choose|i: int| 0 <= i < rest.len() && rest[i] == x;
                assert(l[i] == x);
            }
            if x == largest {
                assert(l[rest.len() as int] == x);
            }
            if l.contains(x) {
                let i = choose|i: int| 0 <= i < l.len() && l[i] == x;
                if i < rest.len() {
                    assert(rest[i] == x);
                    assert(rest.to_set().contains(x));
                }
            }
        }
        assert(l.to_set() =~= s);
        l
    }
}

/// A set of peer ids, kept in ascending order.
pub struct PeerSet {
    ids: Vec<u32>,
}

impl View for PeerSet {
    type V = Set<u32>;

    closed spec fn view(&self) -> Set<u32> {
        self.ids@.to_set()
    }
}

impl PeerSet {
    #[verifier::type_invariant]
    spec fn well_formed(self) -> bool {
        ascending(self.ids@)
    }

    /// A set of peer ids is finite.
    pub proof fn lemma_finite(self)
        ensures
            self@.finite(),
    {
        self.ids@.lemma_cardinality_of_set();
    }

    pub fn new() -> (r: Self)
        ensures
            r@ == Set::<u32>::empty(),
    {
        let r = PeerSet { ids: Vec::new() };
        assert(r@ =~= Set::<u32>::empty());
        r
    }

    /// The members in ascending order.
    pub fn to_list(&self) -> (r: Vec<u32>)
        ensures
            r@ == ascending_list(self@),
            ascending(r@),
            r@.to_set() == self@,
    {
        proof {
            use_type_invariant(self);
            lemma_ascending_list(self.ids@);
        }
        let r = self.ids.clone();
        assert(r@ =~= self.ids@);
        r
    }

    pub fn duplicate(&self) -> (r: Self)
        ensures
            r@ == self@,
    {
        proof {
            use_type_invariant(self);
        }
        let ids = self.ids.clone();
        assert(ids@ =~= self.ids@);
        PeerSet { ids }
    }

    /// The index of the first member that is not below `id`.
    fn position(&self, id: u32) -> (r: usize)
        ensures
            r <= self.ids@.len(),
            forall|i: int| 0 <= i < r ==> #[trigger] self.ids@[i] < id,
            forall|i: int| r <= i < self.ids@.len() ==> #[trigger] self.ids@[i] >= id,
    {
        proof {
            use_type_invariant(self);
        }
        let mut i: usize = 0;
        while i < self.ids.len() && self.ids[i] < id
            invariant
                i <= self.ids@.len(),
                ascending(self.ids@),
                forall|j: int| 0 <= j < i ==> #[trigger] self.ids@[j] < id,
            decreases self.ids@.len() - i,
        {
            i += 1;
        }
        i
    }

    pub fn contains(&self, id: u32) -> (r: bool)
        ensures
            r == self@.contains(id),
    {
        proof {
            use_type_invariant(self);
        }
        let i: usize = self.position(id);
        let r = i < self.ids.len() && self.ids[i] == id;
        assert(r == self.ids@.contains(id)) by {
            if r {
                assert(self.ids@[i as int] == id);
            } else if self.ids@.contains(id) {
                let k = choose|k: int| 0 <= k < self.ids@.len() && self.ids@[k] == id;
                assert(self.ids@[i as int] >= id);
            }
        }
        r
    }

    /// Adds `id` and says whether it was new.
    pub fn insert(&mut self, id: u32) -> (r: bool)
        ensures
            r == !old(self)@.contains(id),
            final(self)@ == old(self)@.insert(id),
    {
        proof {
            use_type_invariant(&*self);
        }
        if self.contains(id) {
            assert(self@.insert(id) =~= self@);
            return false;
        }
        let i: usize = self.position(id);
        let ghost before = self.ids@;
        let mut whole = PeerSet::new();
        std::mem::swap(self, &mut whole);
        let PeerSet { mut ids } = whole;
        assert(!before.contains(id));
        ids.insert(i, id);
        proof {
            assert(ids@ =~= before.insert(i as int, id));
            assert forall|v: u32| ids@.to_set().contains(v) <==> before.to_set().insert(id).contains(v) by {
                if ids@.contains(v) {
                    let k = choose|k: int| 0 <= k < ids@.len() && ids@[k] == v;
                    if k < i {
                        assert(before[k] == v);
                    } else if k > i {
                        assert(before[k - 1] == v);
                    }
                }
                if before.contains(v) {
                    let k = choose|k: int| 0 <= k < before.len() && before[k] == v;
                    assert(ids@[if k < i { k } else { k + 1 }] == v);
                }
                assert(ids@[i as int] == id);
            }
            assert(ids@.to_set() =~= before.to_set().insert(id));
        }
        let mut grown = PeerSet { ids };
        std::mem::swap(self, &mut grown);
        true
    }

    /// Takes `id` out and says whether it was there.
    pub fn remove(&mut self, id: u32) -> (r: bool)
        ensures
            r == old(self)@.contains(id),
            final(self)@ == old(self)@.remove(id),
    {
        proof {
            use_type_invariant(&*self);
        }
        if !self.contains(id) {
            assert(self@.remove(id) =~= self@);
            return false;
        }
        let i: usize = self.position(id);
        let ghost before = self.ids@;
        let mut whole = PeerSet::new();
        std::mem::swap(self, &mut whole);
        let PeerSet { mut ids } = whole;
        assert(before.contains(id));
        assert(before[i as int] == id) by {
            let k = choose|k: int| 0 <= k < before.len() && before[k] == id;
            assert(before[i as int] >= id);
        }
        ids.remove(i);
        proof {
            assert(ids@ =~= before.remove(i as int));
            assert forall|v: u32| ids@.to_set().contains(v) <==> before.to_set().remove(id).contains(v) by {
                if ids@.contains(v) {
                    let k = choose|k: int| 0 <= k < ids@.len() && ids@[k] == v;
                    assert(before[if k < i { k } else { k + 1 }] == v);
                }
                if before.contains(v) && v != id {
                    let k = choose|k: int| 0 <= k < before.len() && before[k] == v;
                    assert(ids@[if k < i { k } else { k - 1 }] == v);
                }
            }
            assert(ids@.to_set() =~= before.to_set().remove(id));
        }
        let mut shrunk = PeerSet { ids };
        std::mem::swap(self, &mut shrunk);
        true
    }
}

} // verus!
