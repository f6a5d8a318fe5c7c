//! Iteration over the live `(key, value)` pairs of a map, in ascending key
//! order. Each iterator offers `next`; none of them yields a pair twice.
use vstd::prelude::*;
use crate::map::{CompactMap, Entry, slots_of, SENTINEL};
use crate::model::{pairs, pairs_from, lemma_pairs_from_frame, lemma_pairs_from_update, lemma_pairs_from_len};

verus! {

/// An iterator over the `(key, &value)` pairs of a map.
pub struct Iter<'a, V> {
    data: &'a Vec<Entry<V>>,
    pos: usize,
}

impl<'a, V> Iter<'a, V> {
    /// The pairs that this iterator has yet to yield.
    pub closed spec fn remaining(&self) -> Seq<(usize, V)> {
        pairs_from(slots_of(self.data@), self.pos as int)
    }

    /// The next live pair, or `None` once all have been yielded.
    pub fn next(&mut self) -> (r: Option<(usize, &'a V)>)
        ensures
            match r {
                Some((k, v)) => {
                    &&& old(self).remaining().len() > 0
                    &&& old(self).remaining()[0] == (k, *v)
                    &&& final(self).remaining() == old(self).remaining().drop_first()
                },
                None => old(self).remaining().len() == 0 && final(self).remaining().len() == 0,
            },
    {
        let data: &'a Vec<Entry<V>> = self.data;
        while self.pos < data.len()
            invariant
                self.data == data,
                self.remaining() == old(self).remaining(),
            decreases data@.len() - self.pos,
        {
            let i = self.pos;
            self.pos = i + 1;
            match &data[i] {
                Entry::Occupied(v) => {
                    return Some((i, v));
                },
                Entry::Empty(_) => {},
            }
        }
        None
    }
}

impl<'a, V> Clone for Iter<'a, V> {
    fn clone(&self) -> (r: Self)
        ensures
            r.remaining() == self.remaining(),
    {
        Iter { data: self.data, pos: self.pos }
    }
}

/// An iterator that owns the slots it walks: the map it came from is gone
/// or has been emptied.
pub struct IntoIter<V> {
    data: Vec<Entry<V>>,
    pos: usize,
}

impl<V> IntoIter<V> {
    /// The pairs that this iterator has yet to yield.
    pub closed spec fn remaining(&self) -> Seq<(usize, V)> {
        pairs_from(slots_of(self.data@), self.pos as int)
    }

    pub(crate) fn over(data: Vec<Entry<V>>) -> (r: Self)
        ensures
            r.remaining() == pairs(slots_of(data@)),
    {
        IntoIter { data, pos: 0 }
    }

    /// The next live pair, moved out, or `None` once all have been yielded.
    pub fn next(&mut self) -> (r: Option<(usize, V)>)
        ensures
            match r {
                Some(p) => {
                    &&& old(self).remaining().len() > 0
                    &&& old(self).remaining()[0] == p
                    &&& final(self).remaining() == old(self).remaining().drop_first()
                },
                None => old(self).remaining().len() == 0 && final(self).remaining().len() == 0,
            },
    {
        while self.pos < self.data.len()
            invariant
                self.remaining() == old(self).remaining(),
            decreases self.data@.len() - self.pos,
        {
            let i = self.pos;
            self.pos = i + 1;
            if !self.data[i].is_empty() {
                let ghost before = slots_of(self.data@);
                let mut e = Entry::Empty(SENTINEL);
                std::mem::swap(&mut self.data[i], &mut e);
                proof {
                    lemma_pairs_from_frame(before, slots_of(self.data@), i + 1);
                }
                match e {
                    Entry::Occupied(v) => {
                        return Some((i, v));
                    },
                    Entry::Empty(_) => {},
                }
            }
        }
        None
    }
}

/// An iterator that moves the pairs out of a map, which it leaves empty.
pub struct Drain<V> {
    inner: IntoIter<V>,
}

impl<V> Drain<V> {
    /// The pairs that this iterator has yet to yield.
    pub closed spec fn remaining(&self) -> Seq<(usize, V)> {
        self.inner.remaining()
    }

    /// The next live pair, moved out, or `None` once all have been yielded.
    pub fn next(&mut self) -> (r: Option<(usize, V)>)
        ensures
            match r {
                Some(p) => {
                    &&& old(self).remaining().len() > 0
                    &&& old(self).remaining()[0] == p
                    &&& final(self).remaining() == old(self).remaining().drop_first()
                },
                None => old(self).remaining().len() == 0 && final(self).remaining().len() == 0,
            },
    {
        self.inner.next()
    }
}

/// An iterator over the keys of a map.
pub struct Keys<'a, V> {
    inner: Iter<'a, V>,
}

impl<'a, V> Keys<'a, V> {
    /// The pairs whose keys this iterator has yet to yield.
    pub closed spec fn remaining(&self) -> Seq<(usize, V)> {
        self.inner.remaining()
    }

    /// The next key, or `None` once all have been yielded.
    pub fn next(&mut self) -> (r: Option<usize>)
        ensures
            match r {
                Some(k) => {
                    &&& old(self).remaining().len() > 0
                    &&& old(self).remaining()[0].0 == k
                    &&& final(self).remaining() == old(self).remaining().drop_first()
                },
                None => old(self).remaining().len() == 0 && final(self).remaining().len() == 0,
            },
    {
        match self.inner.next() {
            Some((k, _)) => Some(k),
            None => None,
        }
    }
}

impl<'a, V> Clone for Keys<'a, V> {
    fn clone(&self) -> (r: Self)
        ensures
            r.remaining() == self.remaining(),
    {
        Keys { inner: self.inner.clone() }
    }
}

/// An iterator over the values of a map.
pub struct Values<'a, V> {
    inner: Iter<'a, V>,
}

impl<'a, V> Values<'a, V> {
    /// The pairs whose values this iterator has yet to yield.
    pub closed spec fn remaining(&self) -> Seq<(usize, V)> {
        self.inner.remaining()
    }

    /// The next value, or `None` once all have been yielded.
    pub fn next(&mut self) -> (r: Option<&'a V>)
        ensures
            match r {
                Some(v) => {
                    &&& old(self).remaining().len() > 0
                    &&& old(self).remaining()[0].1 == *v
                    &&& final(self).remaining() == old(self).remaining().drop_first()
                },
                None => old(self).remaining().len() == 0 && final(self).remaining().len() == 0,
            },
    {
        match self.inner.next() {
            Some((_, v)) => Some(v),
            None => None,
        }
    }
}

impl<'a, V> Clone for Values<'a, V> {
    fn clone(&self) -> (r: Self)
        ensures
            r.remaining() == self.remaining(),
    {
        Values { inner: self.inner.clone() }
    }
}

/// An iterator over the `(key, &mut value)` pairs of a map. Each value may
/// be changed in place; no slot is added, freed or moved.
pub struct IterMut<'a, V> {
    /// The map being walked.
    pub map: &'a mut CompactMap<V>,
    /// The first key not yet looked at.
    pub pos: usize,
}

impl<'a, V> IterMut<'a, V> {
    /// The map as the iterator holds it now.
    pub closed spec fn current(&self) -> CompactMap<V> {
        *self.map
    }

    /// The pairs that this iterator has yet to yield.
    pub closed spec fn remaining(&self) -> Seq<(usize, V)> {
        pairs_from(self.map@, self.pos as int)
    }

    /// The next live pair, with the value borrowed for change, or `None`
    /// once all have been yielded.
    pub fn next(&mut self) -> (r: Option<(usize, &mut V)>)
        requires
            old(self).current().wf(),
        ensures
            final(self).current().wf(),
            final(self).current().free_list() == old(self).current().free_list(),
            *final(final(self).map) == *final(old(self).map),
            match r {
                Some((k, v)) => {
                    &&& old(self).remaining().len() > 0
                    &&& old(self).remaining()[0] == (k, *v)
                    &&& final(self).remaining() == old(self).remaining().drop_first()
                    &&& final(self).current()@ == old(self).current()@.update(k as int, Some(*final(v)))
                },
                None => {
                    &&& old(self).remaining().len() == 0
                    &&& final(self).remaining().len() == 0
                    &&& final(self).current() == old(self).current()
                },
            },
    {
        proof {
            self.map.lemma_unfold();
        }
        let n = self.map.data.len();
        let mut i = self.pos;
        while i < n && self.map.data[i].is_empty()
            invariant
                n == self.map@.len(),
                n == self.map.data@.len(),
                *self.map == *old(self).map,
                self.pos == old(self).pos,
                i >= self.pos,
                pairs_from(self.map@, i as int) == old(self).remaining(),
            decreases n - i,
        {
            proof {
                self.map.lemma_unfold();
            }
            i += 1;
        }
        proof {
            self.map.lemma_unfold();
        }
        if i < n {
            proof {
                lemma_pairs_from_update(self.map@, i as int);
            }
            self.pos = i + 1;
            match self.map.get_mut(i) {
                Some(v) => Some((i, v)),
                None => None,
            }
        } else {
            self.pos = i;
            None
        }
    }
}

/// An iterator over the values of a map, borrowed for change.
pub struct ValuesMut<'a, V> {
    /// The iterator over the pairs.
    pub inner: IterMut<'a, V>,
}

impl<'a, V> ValuesMut<'a, V> {
    /// The pairs whose values this iterator has yet to yield.
    pub open spec fn remaining(&self) -> Seq<(usize, V)> {
        self.inner.remaining()
    }

    /// The map as the iterator holds it now.
    pub open spec fn current(&self) -> CompactMap<V> {
        self.inner.current()
    }

    /// The next value, borrowed for change, or `None` once all have been
    /// yielded.
    pub fn next(&mut self) -> (r: Option<&mut V>)
        requires
            old(self).current().wf(),
        ensures
            final(self).current().wf(),
            final(self).current().free_list() == old(self).current().free_list(),
            *final(final(self).inner.map) == *final(old(self).inner.map),
            match r {
                Some(v) => {
                    &&& old(self).remaining().len() > 0
                    &&& old(self).remaining()[0].1 == *v
                    &&& final(self).remaining() == old(self).remaining().drop_first()
                    &&& final(self).current()@ == old(self).current()@.update(
                        old(self).remaining()[0].0 as int,
                        Some(*final(v)),
                    )
                },
                None => {
                    &&& old(self).remaining().len() == 0
                    &&& final(self).remaining().len() == 0
                    &&& final(self).current() == old(self).current()
                },
            },
    {
        match self.inner.next() {
            Some((_, v)) => Some(v),
            None => None,
        }
    }
}

impl<V> CompactMap<V> {
    /// Iterates over the `(key, &value)` pairs in ascending key order.
    pub fn iter(&self) -> (r: Iter<'_, V>)
        ensures
            r.remaining() == pairs(self@),
    {
        proof {
            self.lemma_unfold();
        }
        Iter { data: &self.data, pos: 0 }
    }

    /// Iterates over the `(key, &mut value)` pairs in ascending key order.
    pub fn iter_mut(&mut self) -> (r: IterMut<'_, V>)
        requires
            old(self).wf(),
        ensures
            r.current() == *old(self),
            *final(r.map) == *final(self),
            r.remaining() == pairs(old(self)@),
    {
        IterMut { map: self, pos: 0 }
    }

    /// Iterates over the values, borrowed for change, in ascending order of
    /// their keys.
    pub fn values_mut(&mut self) -> (r: ValuesMut<'_, V>)
        requires
            old(self).wf(),
        ensures
            r.current() == *old(self),
            *final(r.inner.map) == *final(self),
            r.remaining() == pairs(old(self)@),
    {
        ValuesMut { inner: self.iter_mut() }
    }

    /// Counts the live values by walking every slot.
    pub fn len_slow(&self) -> (r: usize)
        ensures
            r == pairs(self@).len(),
    {
        let mut it = self.iter();
        let mut n: usize = 0;
        proof {
            self.lemma_unfold();
            assert(self.data@.len() == self.data.len());
            lemma_pairs_from_len(self@, 0);
        }
        loop
            invariant
                n + it.remaining().len() == pairs(self@).len(),
                pairs(self@).len() <= usize::MAX,
            ensures
                n == pairs(self@).len(),
            decreases it.remaining().len(),
        {
            match it.next() {
                Some(_) => {
                    n += 1;
                },
                None => {
                    break;
                },
            }
        }
        n
    }

    /// Whether no value is live, found by walking every slot.
    pub fn is_empty_slow(&self) -> (r: bool)
        ensures
            r == (pairs(self@).len() == 0),
    {
        self.len_slow() == 0
    }

    /// The map as text, `{k: v, ...}`: one piece per live pair, in
    /// ascending key order, joined by ", " inside braces. Each piece is the
    /// key in decimal, ": ", then the value as `V`'s `Debug` writes it.
    pub fn debug_string(&self) -> (r: String)
        where V: core::fmt::Debug
        ensures
            exists|pieces: Seq<Seq<char>>| {
                &&& pieces.len() == pairs(self@).len()
                &&& forall|j: int| 0 <= j < pieces.len() ==> #[trigger] piece_for_key(pieces[j], pairs(self@)[j].0)
                &&& r@ == seq!['{'] + joined(pieces) + seq!['}']
            },
    {
        let ghost all = pairs(self@);
        let mut out = String::new();
        out.append("{");
        proof {
            reveal_strlit("{");
            reveal_strlit(", ");
            reveal_strlit("}");
        }
        let mut it = self.iter();
        let mut first = true;
        let ghost mut pieces: Seq<Seq<char>> = Seq::empty();
        proof {
            assert(all.subrange(0, all.len() as int) =~= all);
        }
        loop
            invariant
                first == (pieces.len() == 0),
                pieces.len() <= all.len(),
                all == pairs(self@),
                it.remaining() == all.subrange(pieces.len() as int, all.len() as int),
                forall|j: int| 0 <= j < pieces.len() ==> #[trigger] piece_for_key(pieces[j], all[j].0),
                out@ == seq!['{'] + joined(pieces),
            ensures
                pieces.len() == all.len(),
                forall|j: int| 0 <= j < pieces.len() ==> #[trigger] piece_for_key(pieces[j], all[j].0),
                out@ == seq!['{'] + joined(pieces),
            decreases it.remaining().len(),
        {
            let ghost before = it.remaining();
            match it.next() {
                Some((k, v)) => {
                    assert(all[pieces.len() as int] == before[0]);
                    let ghost prev = out@;
                    if !first {
                        out.append(", ");
                        proof {
                            reveal_strlit(", ");
                            assert(out@ =~= prev + seq![',', ' ']);
                        }
                    }
                    let ghost mid = out@;
                    let item = debug_pair(k, v);
                    out.append(item.as_str());
                    assert(out@ =~= mid + item@);
                    proof {
                        let np = pieces.push(item@);
                        if pieces.len() > 0 {
                            assert(np.drop_last() =~= pieces);
                            assert(joined(np) == joined(pieces) + seq![',', ' '] + item@);
                            assert(out@ =~= seq!['{'] + joined(np));
                        } else {
                            assert(joined(np) == item@);
                            assert(joined(pieces) == Seq::<char>::empty());
                            assert(prev =~= seq!['{']);
                            assert(out@ =~= seq!['{'] + joined(np));
                        }
                        assert(before.drop_first() =~= all.subrange(np.len() as int, all.len() as int));
                        pieces = np;
                    }
                    first = false;
                },
                None => {
                    break;
                },
            }
        }
        out.append("}");
        proof {
            assert(out@ =~= seq!['{'] + joined(pieces) + seq!['}']);
        }
        out
    }

    /// Iterates over the keys in ascending order.
    pub fn keys(&self) -> (r: Keys<'_, V>)
        ensures
            r.remaining() == pairs(self@),
    {
        Keys { inner: self.iter() }
    }

    /// Iterates over the values in ascending order of their keys.
    pub fn values(&self) -> (r: Values<'_, V>)
        ensures
            r.remaining() == pairs(self@),
    {
        Values { inner: self.iter() }
    }

    /// Turns the map into an iterator over its `(key, value)` pairs in
    /// ascending key order.
    pub fn into_iter(self) -> (r: IntoIter<V>)
        ensures
            r.remaining() == pairs(self@),
    {
        proof {
            self.lemma_unfold();
        }
        IntoIter::over(self.data)
    }

    /// Moves every pair out, in ascending key order, into the returned
    /// iterator. The map is empty as soon as this returns, whatever becomes
    /// of the iterator; its backing vector keeps its capacity.
    pub fn drain(&mut self) -> (r: Drain<V>)
        ensures
            final(self).wf(),
            final(self)@ == Seq::<Option<V>>::empty(),
            final(self).free_list() == Seq::<usize>::empty(),
            r.remaining() == pairs(old(self)@),
    {
        proof {
            old(self).lemma_unfold();
        }
        let taken = self.data.split_off(0);
        self.free_head = SENTINEL;
        self.free = Ghost(Seq::empty());
        proof {
            self.lemma_unfold();
            assert(slots_of(self.data@) =~= Seq::<Option<V>>::empty());
            assert(taken@ =~= old(self).data@);
        }
        Drain { inner: IntoIter::over(taken) }
    }
}

/// The decimal digits of `n`, as `usize`'s `Display` writes them.
pub open spec fn decimal(n: nat) -> Seq<char>
    decreases n,
{
    let d = seq!['0', '1', '2', '3', '4', '5', '6', '7', '8', '9'][(n % 10) as int];
    if n < 10 {
        seq![d]
    } else {
        decimal(n / 10).push(d)
    }
}

/// `p` is a piece of text for key `k`: it starts with `k` in decimal and ": ".
pub open spec fn piece_for_key(p: Seq<char>, k: usize) -> bool {
    let head = decimal(k as nat) + seq![':', ' '];
    p.len() >= head.len() && p.take(head.len() as int) == head
}

/// Text pieces joined by ", ".
pub open spec fn joined(pieces: Seq<Seq<char>>) -> Seq<char>
    decreases pieces.len(),
{
    if pieces.len() == 0 {
        Seq::empty()
    } else if pieces.len() == 1 {
        pieces[0]
    } else {
        joined(pieces.drop_last()) + seq![',', ' '] + pieces.last()
    }
}

/// Relies on `format!`: `{}` writes the key in decimal, then ": ", then
/// `{:?}` writes the value as its `Debug` does.
#[verifier::external_body]
fn debug_pair<V: core::fmt::Debug>(k: usize, v: &V) -> (r: String)
    ensures
        piece_for_key(r@, k),
{
    format!("{}: {:?}", k, v)
}

} // verus!
