//! Equality and order of maps: both look at the live `(key, value)` pairs
//! only, never at the free list or at trailing free slots.
use vstd::prelude::*;
use vstd::std_specs::cmp::{PartialEqSpec, PartialOrdSpec, OrdSpec};
use crate::map::CompactMap;
use crate::model::slot;
use core::cmp::Ordering;

verus! {

/// Two slots agree: both free, or both live with values that `V`'s `==`
/// relates.
pub open spec fn slots_agree<V: PartialEq>(x: Option<V>, y: Option<V>) -> bool {
    match (x, y) {
        (None, None) => true,
        (Some(p), Some(q)) => p.eq_spec(&q),
        _ => false,
    }
}

/// `a` and `b` have live values at the same keys, and `V`'s `==` relates the
/// two values at each of them.
pub open spec fn same_pairs<V: PartialEq>(a: Seq<Option<V>>, b: Seq<Option<V>>) -> bool {
    forall|k: int| 0 <= k ==> #[trigger] slots_agree(slot(a, k), slot(b, k))
}

/// How `a` compares with `b` from slot `k` on. Slots are compared in
/// ascending order, past the end of either sequence as free ones; at the
/// first slot where they differ, a free slot is less than a live one, and
/// two live ones compare as their values do, `a`'s against `b`'s.
pub open spec fn compare_from<V: Ord>(a: Seq<Option<V>>, b: Seq<Option<V>>, k: int) -> Ordering
    decreases (if a.len() > b.len() { a.len() } else { b.len() }) - k,
{
    if k < 0 || (k >= a.len() && k >= b.len()) {
        Ordering::Equal
    } else {
        match slot(a, k).cmp_spec(&slot(b, k)) {
            Ordering::Equal => compare_from(a, b, k + 1),
            o => o,
        }
    }
}

/// How `a` compares with `b` from slot `k` on, under a partial order of
/// the values: as `compare_from`, and `None` at the first slot where two
/// live values are not comparable.
pub open spec fn partial_compare_from<V: PartialOrd>(a: Seq<Option<V>>, b: Seq<Option<V>>, k: int) -> Option<Ordering>
    decreases (if a.len() > b.len() { a.len() } else { b.len() }) - k,
{
    if k < 0 || (k >= a.len() && k >= b.len()) {
        Some(Ordering::Equal)
    } else {
        match slot(a, k).partial_cmp_spec(&slot(b, k)) {
            Some(Ordering::Equal) => partial_compare_from(a, b, k + 1),
            o => o,
        }
    }
}

/// How `a` compares with `b`.
pub open spec fn compare<V: Ord>(a: Seq<Option<V>>, b: Seq<Option<V>>) -> Ordering {
    compare_from(a, b, 0)
}

impl<V: PartialEq> PartialEq for CompactMap<V> {
    fn eq(&self, other: &Self) -> (r: bool) {
        let n1 = self.len_raw();
        let n2 = other.len_raw();
        let n = if n1 > n2 { n1 } else { n2 };
        let mut i: usize = 0;
        while i < n
            invariant
                n == (if self@.len() > other@.len() { self@.len() } else { other@.len() }),
                V::obeys_eq_spec() ==> forall|k: int| 0 <= k < i ==> #[trigger] slots_agree(slot(self@, k), slot(other@, k)),
            decreases n - i,
        {
            match (self.get(i), other.get(i)) {
                (None, None) => {},
                (Some(p), Some(q)) => {
                    if !(*p == *q) {
                        proof {
                            assert(!slots_agree(slot(self@, i as int), slot(other@, i as int)) || !V::obeys_eq_spec());
                        }
                        return false;
                    }
                },
                _ => {
                    proof {
                        assert(!slots_agree(slot(self@, i as int), slot(other@, i as int)));
                    }
                    return false;
                },
            }
            i += 1;
        }
        proof {
            assert forall|k: int| 0 <= k implies #[trigger] slots_agree(slot(self@, k), slot(other@, k))
                || !V::obeys_eq_spec() by {
                if k >= n {
                    assert(slot(self@, k) is None && slot(other@, k) is None);
                }
            }
        }
        true
    }
}

impl<V: PartialEq> vstd::std_specs::cmp::PartialEqSpecImpl for CompactMap<V> {
    open spec fn obeys_eq_spec() -> bool {
        V::obeys_eq_spec()
    }

    open spec fn eq_spec(&self, other: &Self) -> bool {
        same_pairs(self@, other@)
    }
}

impl<V: Eq> Eq for CompactMap<V> {
}

impl<V: PartialOrd> PartialOrd for CompactMap<V> {
    fn partial_cmp(&self, other: &Self) -> (r: Option<Ordering>) {
        let n1 = self.len_raw();
        let n2 = other.len_raw();
        let n = if n1 > n2 { n1 } else { n2 };
        let mut i: usize = 0;
        while i < n
            invariant
                n == (if self@.len() > other@.len() { self@.len() } else { other@.len() }),
                i <= n,
                V::obeys_partial_cmp_spec() ==> partial_compare_from(self@, other@, 0)
                    == partial_compare_from(self@, other@, i as int),
            decreases n - i,
        {
            let ghost x = slot(self@, i as int);
            let ghost y = slot(other@, i as int);
            assert(partial_compare_from(self@, other@, i as int) == match x.partial_cmp_spec(&y) {
                Some(Ordering::Equal) => partial_compare_from(self@, other@, i + 1),
                o => o,
            });
            match (self.get(i), other.get(i)) {
                (None, None) => {},
                (Some(p), Some(q)) => {
                    assert(x == Some(*p) && y == Some(*q));
                    let o = p.partial_cmp(q);
                    match o {
                        Some(Ordering::Equal) => {},
                        _ => {
                            return o;
                        },
                    }
                },
                (Some(_), None) => {
                    return Some(Ordering::Greater);
                },
                (None, Some(_)) => {
                    return Some(Ordering::Less);
                },
            }
            i += 1;
        }
        Some(Ordering::Equal)
    }
}

impl<V: PartialOrd> vstd::std_specs::cmp::PartialOrdSpecImpl for CompactMap<V> {
    open spec fn obeys_partial_cmp_spec() -> bool {
        V::obeys_partial_cmp_spec()
    }

    open spec fn partial_cmp_spec(&self, other: &Self) -> Option<Ordering> {
        partial_compare_from(self@, other@, 0)
    }
}

impl<V: Ord> CompactMap<V> {
    /// Compares two maps as `compare` orders them: slot by slot in
    /// ascending key order, a live slot above a free one, and at the first
    /// pair of differing live values `self`'s value against `other`'s.
    pub fn cmp(&self, other: &Self) -> (r: Ordering)
        ensures
            V::obeys_cmp_spec() ==> r == compare(self@, other@),
    {
        let n1 = self.len_raw();
        let n2 = other.len_raw();
        let n = if n1 > n2 { n1 } else { n2 };
        let mut i: usize = 0;
        while i < n
            invariant
                n == (if self@.len() > other@.len() { self@.len() } else { other@.len() }),
                i <= n,
                V::obeys_cmp_spec() ==> compare(self@, other@) == compare_from(self@, other@, i as int),
            decreases n - i,
        {
            let ghost x = slot(self@, i as int);
            let ghost y = slot(other@, i as int);
            assert(compare_from(self@, other@, i as int) == match x.cmp_spec(&y) {
                Ordering::Equal => compare_from(self@, other@, i + 1),
                o => o,
            });
            match (self.get(i), other.get(i)) {
                (None, None) => {},
                (Some(p), Some(q)) => {
                    assert(x == Some(*p) && y == Some(*q));
                    let o = p.cmp(q);
                    match o {
                        Ordering::Equal => {},
                        _ => {
                            return o;
                        },
                    }
                },
                (Some(_), None) => {
                    return Ordering::Greater;
                },
                (None, Some(_)) => {
                    return Ordering::Less;
                },
            }
            i += 1;
        }
        Ordering::Equal
    }
}

} // verus!

verus! {

/// Relies on `Hasher::write_usize`: feeds a key to the hasher.
#[verifier::external_body]
fn hash_key<H: core::hash::Hasher>(k: usize, state: &mut H) {
    state.write_usize(k)
}

/// Relies on `Hash::hash`: feeds a value to the hasher.
#[verifier::external_body]
fn hash_value<V: core::hash::Hash, H: core::hash::Hasher>(v: &V, state: &mut H) {
    v.hash(state)
}

/// Hashes the live pairs in ascending key order, so that equal maps hash
/// alike whatever their free slots.
impl<V: core::hash::Hash> core::hash::Hash for CompactMap<V> {
    fn hash<H: core::hash::Hasher>(&self, state: &mut H) {
        self.hash_live(state)
    }
}

impl<V: core::hash::Hash> CompactMap<V> {
    /// Feeds each live key and its value to `state`, in ascending key order.
    pub(crate) fn hash_live<H: core::hash::Hasher>(&self, state: &mut H) {
        let n = self.len_raw();
        let mut i: usize = 0;
        while i < n
            decreases n - i,
        {
            match self.get(i) {
                Some(v) => {
                    hash_key(i, state);
                    hash_value(v, state);
                },
                None => {},
            }
            i += 1;
        }
    }
}

} // verus!
