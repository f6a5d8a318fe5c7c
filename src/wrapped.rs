//! A map whose keys are a type of the caller's own, convertible to and from
//! `usize`: keys of one such map cannot be used on a map of another key
//! type by mistake. Every operation forwards to the untyped map and
//! converts keys at the boundary.
use vstd::prelude::*;
use vstd::std_specs::convert::{FromSpec, IntoSpec};
use vstd::std_specs::cmp::{PartialEqSpec, PartialOrdSpec, OrdSpec};
use crate::compare::{same_pairs, partial_compare_from, compare};
use core::cmp::Ordering;
use core::marker::PhantomData;
use crate::model::{is_live, pairs, insert_key, after_insert, after_remove, trim};

verus! {

/// The raw key that `k` stands for.
pub open spec fn raw<K: Into<usize>>(k: K) -> usize {
    k.into_spec()
}

/// The typed key that stands for raw key `i`.
pub open spec fn typed<K: From<usize>>(i: usize) -> K {
    K::from_spec(i)
}

/// A map that chooses keys of type `K` for you.
pub struct CompactMap<K: Into<usize> + From<usize>, V> {
    inner: crate::CompactMap<V>,
    _pd: PhantomData<K>,
}

impl<K: Into<usize> + From<usize>, V> View for CompactMap<K, V> {
    type V = Seq<Option<V>>;

    open spec fn view(&self) -> Seq<Option<V>> {
        self.unwrapped_spec()@
    }
}

impl<K: Into<usize> + From<usize>, V> CompactMap<K, V> {
    /// The untyped map underneath.
    pub closed spec fn unwrapped_spec(&self) -> crate::CompactMap<V> {
        self.inner
    }

    /// The free slots, in the order in which insertions reuse them.
    pub open spec fn free_list(&self) -> Seq<usize> {
        self.unwrapped_spec().free_list()
    }

    /// Well-formedness: that of the untyped map.
    pub open spec fn wf(&self) -> bool {
        self.unwrapped_spec().wf()
    }

    /// Takes out the untyped map.
    pub fn into_unwrapped(self) -> (r: crate::CompactMap<V>)
        ensures
            r == self.unwrapped_spec(),
    {
        self.inner
    }

    /// Wraps an untyped map; its keys are then read as keys of type `K`.
    pub fn from_unwrapped(s: crate::CompactMap<V>) -> (r: Self)
        ensures
            r.unwrapped_spec() == s,
            r@ == s@,
    {
        CompactMap { inner: s, _pd: PhantomData }
    }

    /// Borrows the untyped map.
    pub fn unwrapped(&self) -> (r: &crate::CompactMap<V>)
        ensures
            *r == self.unwrapped_spec(),
    {
        &self.inner
    }

    /// Borrows the untyped map for change.
    pub fn unwrapped_mut(&mut self) -> (r: &mut crate::CompactMap<V>)
        ensures
            *r == old(self).unwrapped_spec(),
            final(self).unwrapped_spec() == *final(r),
    {
        &mut self.inner
    }

    /// Creates an empty map.
    pub fn new() -> (r: Self)
        ensures
            r.wf(),
            r@ == Seq::<Option<V>>::empty(),
            r.free_list() == Seq::<usize>::empty(),
    {
        CompactMap { inner: crate::CompactMap::new(), _pd: PhantomData }
    }

    /// Creates an empty map with room for at least `capacity` values.
    pub fn with_capacity(capacity: usize) -> (r: Self)
        ensures
            r.wf(),
            r@ == Seq::<Option<V>>::empty(),
            r.free_list() == Seq::<usize>::empty(),
    {
        CompactMap { inner: crate::CompactMap::with_capacity(capacity), _pd: PhantomData }
    }

    /// The capacity of the backing vector.
    pub fn capacity(&self) -> (r: usize)
        ensures
            r >= self@.len(),
    {
        self.inner.capacity()
    }

    /// Reserves room for `len` more slots.
    pub fn reserve(&mut self, len: usize)
        requires
            old(self).wf(),
        ensures
            final(self).wf(),
            final(self)@ == old(self)@,
            final(self).free_list() == old(self).free_list(),
    {
        self.inner.reserve(len)
    }

    /// Reserves room for exactly `len` more slots.
    pub fn reserve_exact(&mut self, len: usize)
        requires
            old(self).wf(),
        ensures
            final(self).wf(),
            final(self)@ == old(self)@,
            final(self).free_list() == old(self).free_list(),
    {
        self.inner.reserve_exact(len)
    }

    /// Removes every value.
    pub fn clear(&mut self)
        ensures
            final(self).wf(),
            final(self)@ == Seq::<Option<V>>::empty(),
            final(self).free_list() == Seq::<usize>::empty(),
    {
        self.inner.clear()
    }

    /// Whether no value is live.
    pub fn is_empty_slow(&self) -> (r: bool)
        ensures
            r == (pairs(self@).len() == 0),
    {
        self.inner.is_empty_slow()
    }

    /// Stores `v` and returns its key.
    pub fn insert(&mut self, v: V) -> (k: K)
        requires
            old(self).wf(),
            old(self)@.len() < usize::MAX,
        ensures
            final(self).wf(),
            (final(self)@, final(self).free_list()) == after_insert(old(self)@, old(self).free_list(), v),
            K::obeys_from_spec() ==> k == typed::<K>(insert_key(old(self)@, old(self).free_list()) as usize),
    {
        let i = self.inner.insert(v);
        K::from(i)
    }

    /// Removes the value under key `i` and returns it.
    pub fn remove(&mut self, i: K) -> (r: Option<V>)
        requires
            old(self).wf(),
        ensures
            final(self).wf(),
            K::obeys_into_spec() ==> {
                &&& r == (if is_live(old(self)@, raw(i) as int) { old(self)@[raw(i) as int] } else { None })
                &&& (final(self)@, final(self).free_list()) == after_remove(old(self)@, old(self).free_list(), raw(i))
            },
    {
        let k: usize = i.into();
        self.inner.remove(k)
    }

    /// The value under key `i`, if any.
    pub fn get(&self, i: K) -> (r: Option<&V>)
        ensures
            K::obeys_into_spec() ==> match r {
                Some(v) => is_live(self@, raw(i) as int) && *v == self@[raw(i) as int]->Some_0,
                None => !is_live(self@, raw(i) as int),
            },
    {
        self.inner.get(i.into())
    }

    /// A mutable reference to the value under key `i`, if any.
    pub fn get_mut(&mut self, i: K) -> (r: Option<&mut V>)
        requires
            old(self).wf(),
        ensures
            final(self).wf(),
            final(self).free_list() == old(self).free_list(),
            K::obeys_into_spec() ==> {
                &&& r is Some <==> is_live(old(self)@, raw(i) as int)
                &&& r is Some ==> {
                    &&& *r->Some_0 == old(self)@[raw(i) as int]->Some_0
                    &&& final(self)@ == old(self)@.update(raw(i) as int, Some(*final(r->Some_0)))
                }
                &&& r is None ==> final(self)@ == old(self)@
            },
    {
        self.inner.get_mut(i.into())
    }

    /// Iterates over the `(key, &value)` pairs in ascending key order.
    pub fn iter(&self) -> (r: Iter<'_, K, V>)
        ensures
            r.remaining() == pairs(self@),
    {
        Iter { inner: self.inner.iter(), _pd: PhantomData }
    }

    /// Iterates over the `(key, &mut value)` pairs in ascending key order.
    pub fn iter_mut(&mut self) -> (r: IterMut<'_, K, V>)
        requires
            old(self).wf(),
        ensures
            r.inner.current() == old(self).unwrapped_spec(),
            *final(r.inner.map) == final(self).unwrapped_spec(),
            r.inner.remaining() == pairs(old(self)@),
    {
        IterMut { inner: self.inner.iter_mut(), _pd: PhantomData }
    }

    /// Turns the map into an iterator over its pairs in ascending key order.
    pub fn into_iter(self) -> (r: IntoIter<K, V>)
        ensures
            r.remaining() == pairs(self@),
    {
        IntoIter { inner: self.inner.into_iter(), _pd: PhantomData }
    }

    /// Iterates over the keys in ascending order.
    pub fn keys(&self) -> (r: Keys<'_, K, V>)
        ensures
            r.remaining() == pairs(self@),
    {
        Keys { inner: self.inner.keys(), _pd: PhantomData }
    }

    /// Iterates over the values in ascending order of their keys.
    pub fn values(&self) -> (r: crate::Values<'_, V>)
        ensures
            r.remaining() == pairs(self@),
    {
        self.inner.values()
    }

    /// Iterates over the values, borrowed for change, in ascending order of
    /// their keys.
    pub fn values_mut(&mut self) -> (r: crate::ValuesMut<'_, V>)
        requires
            old(self).wf(),
        ensures
            r.current() == old(self).unwrapped_spec(),
            *final(r.inner.map) == final(self).unwrapped_spec(),
            r.remaining() == pairs(old(self)@),
    {
        self.inner.values_mut()
    }

    /// Counts the live values.
    pub fn len_slow(&self) -> (r: usize)
        ensures
            r == pairs(self@).len(),
    {
        self.inner.len_slow()
    }

    /// Drops trailing free slots and spare capacity; rebuilds the free list.
    pub fn shrink_to_fit(&mut self)
        ensures
            final(self).wf(),
            final(self)@ == trim(old(self)@),
    {
        self.inner.shrink_to_fit()
    }

    /// Moves every pair out, in ascending key order; the map is left empty.
    pub fn drain(&mut self) -> (r: Drain<K, V>)
        ensures
            final(self).wf(),
            final(self)@ == Seq::<Option<V>>::empty(),
            r.remaining() == pairs(old(self)@),
    {
        Drain { inner: self.inner.drain(), _pd: PhantomData }
    }
}

impl<K: Into<usize> + From<usize>, V> Default for CompactMap<K, V> {
    fn default() -> (r: Self)
        ensures
            r.wf(),
            r@ == Seq::<Option<V>>::empty(),
    {
        CompactMap::new()
    }
}

impl<K: Into<usize> + From<usize>, V: PartialEq> PartialEq for CompactMap<K, V> {
    fn eq(&self, other: &Self) -> (r: bool) {
        self.inner == other.inner
    }
}

impl<K: Into<usize> + From<usize>, V: PartialEq> vstd::std_specs::cmp::PartialEqSpecImpl for CompactMap<K, V> {
    open spec fn obeys_eq_spec() -> bool {
        V::obeys_eq_spec()
    }

    open spec fn eq_spec(&self, other: &Self) -> bool {
        same_pairs(self@, other@)
    }
}

impl<K: Into<usize> + From<usize>, V: Eq> Eq for CompactMap<K, V> {
}

impl<K: Into<usize> + From<usize>, V: PartialOrd> PartialOrd for CompactMap<K, V> {
    fn partial_cmp(&self, other: &Self) -> (r: Option<Ordering>) {
        self.inner.partial_cmp(&other.inner)
    }
}

impl<K: Into<usize> + From<usize>, V: PartialOrd> vstd::std_specs::cmp::PartialOrdSpecImpl for CompactMap<K, V> {
    open spec fn obeys_partial_cmp_spec() -> bool {
        V::obeys_partial_cmp_spec()
    }

    open spec fn partial_cmp_spec(&self, other: &Self) -> Option<Ordering> {
        partial_compare_from(self@, other@, 0)
    }
}

impl<K: Into<usize> + From<usize>, V: Ord> CompactMap<K, V> {
    /// Compares two maps as `compare` orders them.
    pub fn cmp(&self, other: &Self) -> (r: Ordering)
        ensures
            V::obeys_cmp_spec() ==> r == compare(self@, other@),
    {
        self.inner.cmp(&other.inner)
    }
}

impl<K: Into<usize> + From<usize>, V: core::hash::Hash> core::hash::Hash for CompactMap<K, V> {
    fn hash<H: core::hash::Hasher>(&self, state: &mut H) {
        self.inner.hash_live(state)
    }
}

/// An iterator over the `(key, &value)` pairs of a map.
pub struct Iter<'a, K: Into<usize> + From<usize>, V> {
    inner: crate::Iter<'a, V>,
    _pd: PhantomData<K>,
}

impl<'a, K: Into<usize> + From<usize>, V> Iter<'a, K, V> {
    /// The pairs that this iterator has yet to yield, with raw keys.
    pub closed spec fn remaining(&self) -> Seq<(usize, V)> {
        self.inner.remaining()
    }

    /// The next live pair, or `None` once all have been yielded.
    pub fn next(&mut self) -> (r: Option<(K, &'a V)>)
        ensures
            match r {
                Some((k, v)) => {
                    &&& old(self).remaining().len() > 0
                    &&& old(self).remaining()[0].1 == *v
                    &&& K::obeys_from_spec() ==> k == typed::<K>(old(self).remaining()[0].0)
                    &&& final(self).remaining() == old(self).remaining().drop_first()
                },
                None => old(self).remaining().len() == 0 && final(self).remaining().len() == 0,
            },
    {
        match self.inner.next() {
            Some((k, v)) => Some((K::from(k), v)),
            None => None,
        }
    }
}

impl<'a, K: Into<usize> + From<usize>, V> Clone for Iter<'a, K, V> {
    fn clone(&self) -> (r: Self)
        ensures
            r.remaining() == self.remaining(),
    {
        Iter { inner: self.inner.clone(), _pd: PhantomData }
    }
}

/// An iterator over the `(key, &mut value)` pairs of a map.
pub struct IterMut<'a, K: Into<usize> + From<usize>, V> {
    /// The iterator with raw keys.
    pub inner: crate::IterMut<'a, V>,
    /// Marks the key type.
    pub _pd: PhantomData<K>,
}

impl<'a, K: Into<usize> + From<usize>, V> IterMut<'a, K, V> {
    /// The next live pair, with the value borrowed for change, or `None` once
    /// all have been yielded.
    pub fn next(&mut self) -> (r: Option<(K, &mut V)>)
        requires
            old(self).inner.current().wf(),
        ensures
            final(self).inner.current().wf(),
            final(self).inner.current().free_list() == old(self).inner.current().free_list(),
            *final(final(self).inner.map) == *final(old(self).inner.map),
            match r {
                Some((k, v)) => {
                    &&& old(self).inner.remaining().len() > 0
                    &&& old(self).inner.remaining()[0].1 == *v
                    &&& K::obeys_from_spec() ==> k == typed::<K>(old(self).inner.remaining()[0].0)
                    &&& final(self).inner.remaining() == old(self).inner.remaining().drop_first()
                    &&& final(self).inner.current()@ == old(self).inner.current()@.update(
                        old(self).inner.remaining()[0].0 as int,
                        Some(*final(v)),
                    )
                },
                None => {
                    &&& old(self).inner.remaining().len() == 0
                    &&& final(self).inner.remaining().len() == 0
                    &&& final(self).inner.current() == old(self).inner.current()
                },
            },
    {
        match self.inner.next() {
            Some((k, v)) => Some((K::from(k), v)),
            None => None,
        }
    }
}

/// An iterator that owns the pairs of a map it consumed.
pub struct IntoIter<K: Into<usize> + From<usize>, V> {
    inner: crate::IntoIter<V>,
    _pd: PhantomData<K>,
}

impl<K: Into<usize> + From<usize>, V> IntoIter<K, V> {
    /// The pairs that this iterator has yet to yield, with raw keys.
    pub closed spec fn remaining(&self) -> Seq<(usize, V)> {
        self.inner.remaining()
    }

    /// The next live pair, moved out, or `None` once all have been yielded.
    pub fn next(&mut self) -> (r: Option<(K, V)>)
        ensures
            match r {
                Some((k, v)) => {
                    &&& old(self).remaining().len() > 0
                    &&& old(self).remaining()[0].1 == v
                    &&& K::obeys_from_spec() ==> k == typed::<K>(old(self).remaining()[0].0)
                    &&& final(self).remaining() == old(self).remaining().drop_first()
                },
                None => old(self).remaining().len() == 0 && final(self).remaining().len() == 0,
            },
    {
        match self.inner.next() {
            Some((k, v)) => Some((K::from(k), v)),
            None => None,
        }
    }
}

/// An iterator over the keys of a map.
pub struct Keys<'a, K: Into<usize> + From<usize>, V> {
    inner: crate::Keys<'a, V>,
    _pd: PhantomData<K>,
}

impl<'a, K: Into<usize> + From<usize>, V> Keys<'a, K, V> {
    /// The pairs whose keys this iterator has yet to yield.
    pub closed spec fn remaining(&self) -> Seq<(usize, V)> {
        self.inner.remaining()
    }

    /// The next key, or `None` once all have been yielded.
    pub fn next(&mut self) -> (r: Option<K>)
        ensures
            match r {
                Some(k) => {
                    &&& old(self).remaining().len() > 0
                    &&& K::obeys_from_spec() ==> k == typed::<K>(old(self).remaining()[0].0)
                    &&& final(self).remaining() == old(self).remaining().drop_first()
                },
                None => old(self).remaining().len() == 0 && final(self).remaining().len() == 0,
            },
    {
        match self.inner.next() {
            Some(k) => Some(K::from(k)),
            None => None,
        }
    }
}

impl<'a, K: Into<usize> + From<usize>, V> Clone for Keys<'a, K, V> {
    fn clone(&self) -> (r: Self)
        ensures
            r.remaining() == self.remaining(),
    {
        Keys { inner: self.inner.clone(), _pd: PhantomData }
    }
}

/// An iterator that moves the pairs out of a map, which it leaves empty.
pub struct Drain<K: Into<usize> + From<usize>, V> {
    inner: crate::Drain<V>,
    _pd: PhantomData<K>,
}

impl<K: Into<usize> + From<usize>, V> Drain<K, V> {
    /// The pairs that this iterator has yet to yield, with raw keys.
    pub closed spec fn remaining(&self) -> Seq<(usize, V)> {
        self.inner.remaining()
    }

    /// The next live pair, moved out, or `None` once all have been yielded.
    pub fn next(&mut self) -> (r: Option<(K, V)>)
        ensures
            match r {
                Some((k, v)) => {
                    &&& old(self).remaining().len() > 0
                    &&& old(self).remaining()[0].1 == v
                    &&& K::obeys_from_spec() ==> k == typed::<K>(old(self).remaining()[0].0)
                    &&& final(self).remaining() == old(self).remaining().drop_first()
                },
                None => old(self).remaining().len() == 0 && final(self).remaining().len() == 0,
            },
    {
        match self.inner.next() {
            Some((k, v)) => Some((K::from(k), v)),
            None => None,
        }
    }
}

} // verus!
