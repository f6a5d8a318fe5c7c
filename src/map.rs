//! The slot store and its free list.
use vstd::prelude::*;
use crate::model::{
    free_below, free_desc, free_list_fits, is_live, insert_key, after_insert, after_remove, after_insert_all, trim, build,
    place, place_all, free_slots, lemma_place_all_push, lemma_after_insert_all_push,
    lemma_after_insert_all_appends,
};

verus! {

/// Marks the end of the free list.
pub(crate) const SENTINEL: usize = usize::MAX;

/// One storage cell: a live value, or a free cell that links to the next
/// free cell.
#[derive(Clone)]
pub(crate) enum Entry<V> {
    Empty(usize),
    Occupied(V),
}

impl<V> Entry<V> {
    /// The value held, if the cell is live.
    pub(crate) open spec fn value(self) -> Option<V> {
        match self {
            Entry::Empty(_) => None,
            Entry::Occupied(v) => Some(v),
        }
    }

    /// Whether the cell is free.
    pub(crate) fn is_empty(&self) -> (r: bool)
        ensures
            r == (self.value() is None),
    {
        match self {
            Entry::Empty(_) => true,
            Entry::Occupied(_) => false,
        }
    }
}

/// A map that chooses small integer keys for you: store a value, and get
/// back the key under which it can be read or removed.
#[derive(Clone)]
pub struct CompactMap<V> {
    pub(crate) data: Vec<Entry<V>>,
    pub(crate) free_head: usize,
    pub(crate) free: Ghost<Seq<usize>>,
}

/// The slots of a vector of entries.
pub(crate) open spec fn slots_of<V>(d: Seq<Entry<V>>) -> Seq<Option<V>> {
    d.map_values(|e: Entry<V>| e.value())
}

/// The link that the `j`-th cell of the free list must hold.
pub(crate) open spec fn link_after(free: Seq<usize>, j: int) -> usize {
    if j + 1 < free.len() {
        free[j + 1]
    } else {
        SENTINEL
    }
}

/// `head` and the links stored in the free cells of `d` spell out `f`.
pub(crate) open spec fn links_fit<V>(d: Seq<Entry<V>>, head: usize, f: Seq<usize>) -> bool {
    &&& head == (if f.len() == 0 { SENTINEL } else { f[0] })
    &&& forall|j: int| #![trigger f[j]] 0 <= j < f.len() ==> (f[j] as int) < d.len()
        && d[f[j] as int] == Entry::<V>::Empty(link_after(f, j))
}

/// The parts of a well-formed map.
pub(crate) open spec fn parts_wf<V>(d: Seq<Entry<V>>, head: usize, f: Seq<usize>) -> bool {
    &&& links_fit(d, head, f)
    &&& free_list_fits(slots_of(d), f)
}

/// Writing a value into a live slot keeps the map well-formed.
proof fn lemma_overwrite_live<V>(d: Seq<Entry<V>>, head: usize, f: Seq<usize>, i: int)
    requires
        parts_wf(d, head, f),
        0 <= i < d.len(),
        d[i] is Occupied,
    ensures
        forall|x: V| #[trigger] parts_wf(d.update(i, Entry::Occupied(x)), head, f),
{
    assert forall|x: V| #[trigger] parts_wf(d.update(i, Entry::Occupied(x)), head, f) by {
        let nd = d.update(i, Entry::Occupied(x));
        assert(slots_of(nd) =~= slots_of(d).update(i, Some(x)));
        assert forall|j: int| #![trigger f[j]] 0 <= j < f.len() implies (f[j] as int) < nd.len()
            && nd[f[j] as int] == Entry::<V>::Empty(link_after(f, j)) by {
            assert(f[j] as int != i);
        }
        assert forall|k: int| 0 <= k < slots_of(nd).len() && slots_of(nd)[k] is None implies f.contains(k as usize) by {
            assert(slots_of(d)[k] is None);
        }
    }
}

/// Dropping a live last slot keeps the map well-formed.
proof fn lemma_drop_live_last<V>(d: Seq<Entry<V>>, head: usize, f: Seq<usize>)
    requires
        parts_wf(d, head, f),
        d.len() > 0,
        d.last() is Occupied,
    ensures
        parts_wf(d.drop_last(), head, f),
{
    let i = d.len() - 1;
    let nd = d.drop_last();
    assert(slots_of(nd) =~= slots_of(d).drop_last());
    assert forall|j: int| #![trigger f[j]] 0 <= j < f.len() implies (f[j] as int) < nd.len()
        && nd[f[j] as int] == Entry::<V>::Empty(link_after(f, j)) by {
        assert(f[j] as int != i);
    }
    assert forall|j: int| 0 <= j < f.len() implies (f[j] as int) < slots_of(nd).len() && slots_of(nd)[f[j] as int] is None by {
        assert(f[j] as int != i);
    }
    assert forall|k: int| 0 <= k < slots_of(nd).len() && slots_of(nd)[k] is None implies f.contains(k as usize) by {
        assert(slots_of(d)[k] is None);
    }
}

/// Linking a slot that is not yet on the free list in front of it.
proof fn lemma_link_front<V>(d: Seq<Entry<V>>, head: usize, f: Seq<usize>, i: usize)
    requires
        links_fit(d, head, f),
        f.no_duplicates(),
        (i as int) < d.len(),
        !f.contains(i),
    ensures
        links_fit(d.update(i as int, Entry::Empty(head)), i, seq![i].add(f)),
        seq![i].add(f).no_duplicates(),
{
    let nd = d.update(i as int, Entry::Empty(head));
    let nf = seq![i].add(f);
    assert forall|j: int| #![trigger nf[j]] 0 <= j < nf.len() implies (nf[j] as int) < nd.len()
        && nd[nf[j] as int] == Entry::<V>::Empty(link_after(nf, j)) by {
        if j > 0 {
            assert(nf[j] == f[j - 1]);
            assert(f[j - 1] != i);
        } else if f.len() > 0 {
            assert(nf[1] == f[0]);
        }
    }
    assert forall|a: int, b: int| 0 <= a < nf.len() && 0 <= b < nf.len() && a != b implies nf[a] != nf[b] by {
        if a > 0 && b > 0 {
            assert(nf[a] == f[a - 1] && nf[b] == f[b - 1]);
        } else if a == 0 {
            assert(nf[b] == f[b - 1]);
        } else {
            assert(nf[a] == f[a - 1]);
        }
    }
}

/// Freeing a live slot that is not the last one, and putting it at the head
/// of the free list, keeps the map well-formed.
proof fn lemma_free_live<V>(d: Seq<Entry<V>>, head: usize, f: Seq<usize>, i: usize)
    requires
        parts_wf(d, head, f),
        (i as int) < d.len(),
        d[i as int] is Occupied,
    ensures
        parts_wf(d.update(i as int, Entry::Empty(head)), i, seq![i].add(f)),
{
    let nd = d.update(i as int, Entry::Empty(head));
    let nf = seq![i].add(f);
    assert(slots_of(nd) =~= slots_of(d).update(i as int, None));
    assert(!f.contains(i)) by {
        if f.contains(i) {
            let j = choose|j: int| 0 <= j < f.len() && f[j] == i;
            assert(slots_of(d)[f[j] as int] is None);
        }
    }
    lemma_link_front(d, head, f, i);
    assert forall|j: int| 0 <= j < nf.len() implies (nf[j] as int) < slots_of(nd).len() && slots_of(nd)[nf[j] as int] is None by {
        if j > 0 {
            assert(nf[j] == f[j - 1]);
        }
    }
    assert forall|k: int| 0 <= k < slots_of(nd).len() && slots_of(nd)[k] is None implies nf.contains(k as usize) by {
        if k != i as int {
            assert(slots_of(d)[k] is None);
            let j = choose|j: int| 0 <= j < f.len() && f[j] == k as usize;
            assert(nf[j + 1] == k as usize);
        } else {
            assert(nf[0] == i);
        }
    }
}

impl<V> View for CompactMap<V> {
    type V = Seq<Option<V>>;

    closed spec fn view(&self) -> Seq<Option<V>> {
        slots_of(self.data@)
    }
}

impl<V> CompactMap<V> {
    /// The free slots, in the order in which insertions reuse them.
    pub closed spec fn free_list(&self) -> Seq<usize> {
        self.free@
    }

    /// The free list is threaded correctly through the free slots.
    pub(crate) open spec fn links_ok(&self) -> bool {
        links_fit(self.data@, self.free_head, self.free@)
    }

    /// Well-formedness: every operation keeps it.
    pub closed spec fn wf(&self) -> bool {
        parts_wf(self.data@, self.free_head, self.free@)
    }

    /// What the closed definitions of this type stand for.
    pub(crate) proof fn lemma_unfold(&self)
        ensures
            self@ == slots_of(self.data@),
            self.free_list() == self.free@,
            self.wf() == parts_wf(self.data@, self.free_head, self.free@),
    {
    }

    /// A well-formed map lists exactly its free slots on its free list, and
    /// no map has more slots than `usize` can count.
    pub proof fn lemma_wf_facts(&self)
        ensures
            self@.len() <= usize::MAX,
            self.wf() ==> free_list_fits(self@, self.free_list()),
    {
        assert(self.data@.len() == self.data.len());
    }

    /// Creates an empty map.
    pub fn new() -> (r: CompactMap<V>)
        ensures
            r.wf(),
            r@ == Seq::<Option<V>>::empty(),
            r.free_list() == Seq::<usize>::empty(),
    {
        CompactMap { data: Vec::new(), free_head: SENTINEL, free: Ghost(Seq::empty()) }
    }
    /// Creates an empty map with room for at least `capacity` values before
    /// the backing vector grows.
    pub fn with_capacity(capacity: usize) -> (r: Self)
        ensures
            r.wf(),
            r@ == Seq::<Option<V>>::empty(),
            r.free_list() == Seq::<usize>::empty(),
    {
        CompactMap { data: Vec::with_capacity(capacity), free_head: SENTINEL, free: Ghost(Seq::empty()) }
    }

    /// The number of slots, live or free.
    pub(crate) fn len_raw(&self) -> (r: usize)
        ensures
            r == self@.len(),
    {
        self.data.len()
    }

    /// The capacity of the backing vector.
    pub fn capacity(&self) -> (r: usize)
        ensures
            r >= self@.len(),
    {
        vec_capacity(&self.data)
    }

    /// Reserves room in the backing vector for `len` more slots.
    pub fn reserve(&mut self, len: usize)
        requires
            old(self).wf(),
        ensures
            final(self).wf(),
            final(self)@ == old(self)@,
            final(self).free_list() == old(self).free_list(),
    {
        self.data.reserve(len);
    }

    /// Reserves room in the backing vector for exactly `len` more slots.
    pub fn reserve_exact(&mut self, len: usize)
        requires
            old(self).wf(),
        ensures
            final(self).wf(),
            final(self)@ == old(self)@,
            final(self).free_list() == old(self).free_list(),
    {
        vec_reserve_exact(&mut self.data, len);
    }

    /// Removes every value; the map returns to its empty state.
    pub fn clear(&mut self)
        ensures
            final(self).wf(),
            final(self)@ == Seq::<Option<V>>::empty(),
            final(self).free_list() == Seq::<usize>::empty(),
    {
        self.free_head = SENTINEL;
        self.data.clear();
        self.free = Ghost(Seq::empty());
    }

    proof fn lemma_head_sentinel(&self)
        requires
            self.links_ok(),
        ensures
            (self.free_head == SENTINEL) == (self.free@.len() == 0),
    {
        if self.free@.len() > 0 {
            assert((self.free@[0] as int) < self.data@.len());
            assert(self.data@.len() == self.data.len());
        }
    }

    /// Stores `v` and returns its key: the most recently freed slot if there
    /// is one, else a new slot at the end.
    pub fn insert(&mut self, v: V) -> (k: usize)
        requires
            old(self).wf(),
            old(self)@.len() < usize::MAX,
        ensures
            final(self).wf(),
            !is_live(old(self)@, k as int),
            k == insert_key(old(self)@, old(self).free_list()),
            (final(self)@, final(self).free_list()) == after_insert(old(self)@, old(self).free_list(), v),
    {
        proof {
            self.lemma_head_sentinel();
        }
        let head = self.free_head;
        if head == SENTINEL {
            self.data.push(Entry::Occupied(v));
            proof {
                assert(self@ =~= old(self)@.push(Some(v)));
                assert forall|k: int| 0 <= k < self@.len() && self@[k] is None implies self.free@.contains(k as usize) by {
                    assert(old(self)@[k] is None);
                }
            }
            self.data.len() - 1
        } else {
            let ghost f = self.free@;
            assert(f[0] == head);
            let next = match &self.data[head] {
                Entry::Empty(n) => *n,
                Entry::Occupied(_) => SENTINEL,
            };
            assert(next == link_after(f, 0));
            self.data[head] = Entry::Occupied(v);
            self.free_head = next;
            self.free = Ghost(f.drop_first());
            proof {
                let nf = f.drop_first();
                assert(self@ =~= old(self)@.update(head as int, Some(v)));
                assert forall|j: int| #![trigger nf[j]] 0 <= j < nf.len() implies (nf[j] as int) < self.data@.len()
                    && self.data@[nf[j] as int] == Entry::<V>::Empty(link_after(nf, j)) by {
                    assert(nf[j] == f[j + 1]);
                    assert(f[j + 1] != f[0]);
                }
                assert forall|k: int| 0 <= k < self@.len() && self@[k] is None implies nf.contains(k as usize) by {
                    assert(old(self)@[k] is None);
                    let j = choose|j: int| 0 <= j < f.len() && f[j] == k as usize;
                    assert(j != 0);
                    assert(nf[j - 1] == k as usize);
                }
                assert forall|j: int| 0 <= j < nf.len() implies (nf[j] as int) < self@.len() && self@[nf[j] as int] is None by {
                    assert(nf[j] == f[j + 1]);
                    assert(f[j + 1] != f[0]);
                }
            }
            head
        }
    }

    /// Removes the value under key `i` and returns it; `None` when `i` holds
    /// no value. Removing the last slot shortens the vector; any other slot
    /// becomes the head of the free list.
    pub fn remove(&mut self, i: usize) -> (r: Option<V>)
        requires
            old(self).wf(),
        ensures
            final(self).wf(),
            !is_live(old(self)@, i as int) ==> r is None && *final(self) == *old(self),
            is_live(old(self)@, i as int) ==> r == old(self)@[i as int],
            (final(self)@, final(self).free_list()) == after_remove(old(self)@, old(self).free_list(), i),
    {
        if i >= self.data.len() {
            return None;
        }
        if self.data[i].is_empty() {
            return None;
        }
        let ghost f = self.free@;
        if i == self.data.len() - 1 {
            proof {
                lemma_drop_live_last(self.data@, self.free_head, f);
            }
            let e = self.data.pop();
            proof {
                assert(self@ =~= old(self)@.drop_last());
            }
            match e {
                Some(Entry::Occupied(v)) => Some(v),
                _ => None,
            }
        } else {
            proof {
                lemma_free_live(self.data@, self.free_head, f, i);
            }
            let mut e = Entry::Empty(self.free_head);
            std::mem::swap(&mut self.data[i], &mut e);
            self.free_head = i;
            self.free = Ghost(seq![i].add(f));
            proof {
                assert(self@ =~= old(self)@.update(i as int, None));
            }
            match e {
                Entry::Occupied(v) => Some(v),
                Entry::Empty(_) => None,
            }
        }
    }

    /// Rebuilds the free list from scratch by one ascending scan: each free
    /// slot found goes to the front, so the list ends up descending.
    fn reindex(&mut self)
        ensures
            final(self).wf(),
            final(self)@ == old(self)@,
            final(self).free_list() == free_desc(old(self)@),
    {
        self.free_head = SENTINEL;
        self.free = Ghost(Seq::empty());
        let n = self.data.len();
        let mut i: usize = 0;
        while i < n
            invariant
                n == self.data.len(),
                i <= n,
                slots_of(self.data@) == old(self)@,
                self.free@ == free_below(old(self)@, i as int),
                links_fit(self.data@, self.free_head, self.free@),
                self.free@.no_duplicates(),
                forall|j: int| 0 <= j < self.free@.len() ==> (self.free@[j] as int) < i
                    && slots_of(self.data@)[self.free@[j] as int] is None,
                forall|k: int| 0 <= k < i && slots_of(self.data@)[k] is None ==> self.free@.contains(k as usize),
            decreases n - i,
        {
            if self.data[i].is_empty() {
                let ghost d = self.data@;
                let ghost f = self.free@;
                proof {
                    assert(!f.contains(i)) by {
                        if f.contains(i) {
                            let j = choose|j: int| 0 <= j < f.len() && f[j] == i;
                        }
                    }
                    lemma_link_front(d, self.free_head, f, i);
                }
                self.data[i] = Entry::Empty(self.free_head);
                self.free_head = i;
                self.free = Ghost(seq![i].add(f));
                proof {
                    let nf = seq![i].add(f);
                    assert(slots_of(self.data@) =~= slots_of(d));
                    assert forall|j: int| 0 <= j < nf.len() implies (nf[j] as int) < i + 1
                        && slots_of(self.data@)[nf[j] as int] is None by {
                        if j > 0 {
                            assert(nf[j] == f[j - 1]);
                        }
                    }
                    assert forall|k: int| 0 <= k < i + 1 && slots_of(self.data@)[k] is None implies nf.contains(k as usize) by {
                        if k < i {
                            let j = choose|j: int| 0 <= j < f.len() && f[j] == k as usize;
                            assert(nf[j + 1] == k as usize);
                        } else {
                            assert(nf[0] == i);
                        }
                    }
                }
            }
            i += 1;
        }
    }

    /// Drops the trailing free slots, gives back spare capacity and rebuilds
    /// the free list. No key changes its value; which free key the next
    /// insertions reuse first is left open.
    pub fn shrink_to_fit(&mut self)
        ensures
            final(self).wf(),
            final(self)@ == trim(old(self)@),
            final(self).free_list() == free_desc(trim(old(self)@)),
    {
        loop
            invariant
                trim(slots_of(self.data@)) == trim(old(self)@),
            ensures
                slots_of(self.data@) == trim(old(self)@),
            decreases self.data@.len(),
        {
            let n = self.data.len();
            if n == 0 || !self.data[n - 1].is_empty() {
                break;
            }
            proof {
                assert(slots_of(self.data@).drop_last() =~= slots_of(self.data@.drop_last()));
            }
            self.data.pop();
        }
        vec_shrink_to_fit(&mut self.data);
        self.reindex();
    }

    /// Builds a map from `(key, value)` pairs, taken in order: a later pair
    /// for a key replaces an earlier one. Keys that no pair names below the
    /// largest one become free slots.
    #[verifier::rlimit(30)]
    pub fn from_pairs(ps: Vec<(usize, V)>) -> (r: Self)
        requires
            forall|j: int| 0 <= j < ps@.len() ==> ps@[j].0 < usize::MAX,
        ensures
            r.wf(),
            r@ == build(ps@),
    {
        let ghost orig = ps@;
        let n = ps.len();
        let mut stack = reversed(ps);
        let mut data: Vec<Entry<V>> = Vec::new();
        let mut i: usize = 0;
        while stack.len() > 0
            invariant
                stack@.len() + i == n,
                n == orig.len(),
                forall|j: int| 0 <= j < stack@.len() ==> stack@[j] == orig[n - 1 - j],
                forall|j: int| 0 <= j < orig.len() ==> orig[j].0 < usize::MAX,
                slots_of(data@) == place_all(Seq::empty(), orig.take(i as int)),
            decreases stack@.len(),
        {
            let (k, v) = stack.pop().unwrap();
            let ghost before = slots_of(data@);
            let ghost done = orig.take(i as int);
            assert(orig[i as int] == (k, v));
            place_entry(&mut data, k, v);
            proof {
                assert(orig.take(i + 1) =~= done.push((k, v)));
                lemma_place_all_push(Seq::empty(), done, (k, v));
            }
            i += 1;
        }
        proof {
            assert(orig.take(n as int) =~= orig);
        }
        let mut map = CompactMap { data, free_head: SENTINEL, free: Ghost(Seq::empty()) };
        map.reindex();
        map
    }

    /// The value under key `i`, if any.
    pub fn get(&self, i: usize) -> (r: Option<&V>)
        ensures
            match r {
                Some(v) => is_live(self@, i as int) && *v == self@[i as int]->Some_0,
                None => !is_live(self@, i as int),
            },
    {
        if i < self.data.len() {
            match &self.data[i] {
                Entry::Empty(_) => None,
                Entry::Occupied(v) => Some(v),
            }
        } else {
            None
        }
    }

    /// The value under key `i`, which the caller asserts is live.
    pub fn index(&self, i: usize) -> (r: &V)
        requires
            is_live(self@, i as int),
        ensures
            *r == self@[i as int]->Some_0,
    {
        match &self.data[i] {
            Entry::Occupied(v) => v,
            Entry::Empty(_) => {
                proof {
                    assert(self@[i as int] is None);
                }
                vstd::pervasive::unreached()
            },
        }
    }

    /// A mutable reference to the value under key `i`, which the caller
    /// asserts is live.
    pub fn index_mut(&mut self, i: usize) -> (r: &mut V)
        requires
            old(self).wf(),
            is_live(old(self)@, i as int),
        ensures
            *r == old(self)@[i as int]->Some_0,
            final(self)@ == old(self)@.update(i as int, Some(*final(r))),
            final(self).free_list() == old(self).free_list(),
            final(self).wf(),
    {
        match self.get_mut(i) {
            Some(v) => v,
            None => vstd::pervasive::unreached(),
        }
    }

    /// Builds a map holding `vs`, the value at position `i` under key `i`.
    pub fn from_values(vs: Vec<V>) -> (r: Self)
        ensures
            r.wf(),
            r@ == vs@.map_values(|v: V| Some(v)),
            r.free_list() == Seq::<usize>::empty(),
    {
        let mut map = CompactMap::with_capacity(vs.len());
        proof {
            lemma_after_insert_all_appends(Seq::<Option<V>>::empty(), vs@);
            assert(Seq::<Option<V>>::empty() + vs@.map_values(|v: V| Some(v)) =~= vs@.map_values(|v: V| Some(v)));
        }
        map.extend_values(vs);
        map
    }

    /// Inserts each value of `vs` in turn, as `insert` does.
    pub fn extend_values(&mut self, vs: Vec<V>)
        requires
            old(self).wf(),
            old(self)@.len() + vs@.len() <= usize::MAX,
        ensures
            final(self).wf(),
            (final(self)@, final(self).free_list()) == after_insert_all(old(self)@, old(self).free_list(), vs@),
    {
        let ghost orig = vs@;
        let ghost start = self@;
        let ghost f0 = self.free_list();
        let n = vs.len();
        let mut stack = reversed(vs);
        let mut i: usize = 0;
        while stack.len() > 0
            invariant
                self.wf(),
                stack@.len() + i == n,
                n == orig.len(),
                forall|j: int| 0 <= j < stack@.len() ==> stack@[j] == orig[n - 1 - j],
                self@.len() <= start.len() + i,
                start.len() + n <= usize::MAX,
                (self@, self.free_list()) == after_insert_all(start, f0, orig.take(i as int)),
            decreases stack@.len(),
        {
            let v = stack.pop().unwrap();
            let ghost done = orig.take(i as int);
            assert(orig[i as int] == v);
            self.insert(v);
            proof {
                assert(orig.take(i + 1) =~= done.push(v));
                lemma_after_insert_all_push(start, f0, done, v);
            }
            i += 1;
        }
        proof {
            assert(orig.take(n as int) =~= orig);
        }
    }

    /// A mutable reference to the value under key `i`, if any.
    pub fn get_mut(&mut self, i: usize) -> (r: Option<&mut V>)
        requires
            old(self).wf(),
        ensures
            r is Some <==> is_live(old(self)@, i as int),
            r is Some ==> {
                &&& *r->Some_0 == old(self)@[i as int]->Some_0
                &&& final(self)@ == old(self)@.update(i as int, Some(*final(r->Some_0)))
            },
            r is None ==> *final(self) == *old(self),
            final(self).free_list() == old(self).free_list(),
            final(self).wf(),
    {
        if i < self.data.len() && !self.data[i].is_empty() {
            proof {
                lemma_overwrite_live(self.data@, self.free_head, self.free@, i as int);
            }
            match &mut self.data[i] {
                Entry::Empty(_) => None,
                Entry::Occupied(v) => Some(v),
            }
        } else {
            None
        }
    }
}

/// The elements of `v` in reverse order.
fn reversed<T>(v: Vec<T>) -> (r: Vec<T>)
    ensures
        r@.len() == v@.len(),
        forall|j: int| 0 <= j < r@.len() ==> r@[j] == v@[v@.len() - 1 - j],
{
    let ghost orig = v@;
    let n = v.len();
    let mut rest = v;
    let mut out: Vec<T> = Vec::new();
    while rest.len() > 0
        invariant
            rest@ == orig.subrange(0, rest@.len() as int),
            out@.len() + rest@.len() == n,
            n == orig.len(),
            forall|j: int| 0 <= j < out@.len() ==> out@[j] == orig[n - 1 - j],
        decreases rest@.len(),
    {
        let p = rest.pop().unwrap();
        out.push(p);
    }
    out
}

/// Stores `v` at slot `k` of `data`, growing it with free cells as needed.
fn place_entry<V>(data: &mut Vec<Entry<V>>, k: usize, v: V)
    requires
        k < usize::MAX,
    ensures
        slots_of(final(data)@) == place(slots_of(old(data)@), k, v),
{
    let ghost s0 = slots_of(data@);
    while data.len() <= k
        invariant
            k < usize::MAX,
            s0.len() <= data@.len(),
            data@.len() == s0.len() || data@.len() <= k + 1,
            slots_of(data@) == s0 + free_slots((data@.len() - s0.len()) as nat),
        decreases k + 1 - data@.len(),
    {
        let ghost prev = data@;
        data.push(Entry::Empty(SENTINEL));
        proof {
            let m = (prev.len() - s0.len()) as nat;
            assert(slots_of(data@) =~= slots_of(prev).push(None));
            assert((s0 + free_slots::<V>(m)).push(None) =~= s0 + free_slots::<V>(m + 1));
        }
    }
    let ghost before = data@;
    data[k] = Entry::Occupied(v);
    proof {
        assert(slots_of(data@) =~= slots_of(before).update(k as int, Some(v)));
        if (k as int) < s0.len() {
            assert(slots_of(data@) =~= place(s0, k, v));
        } else {
            let m = (k - s0.len()) as nat;
            assert(before.len() == k + 1);
            assert(s0 + free_slots::<V>(m + 1) =~= (s0 + free_slots::<V>(m)).push(None));
            assert(slots_of(data@) =~= (s0 + free_slots::<V>(m)).push(Some(v)));
            assert((s0 + free_slots::<V>(m)).push(Some(v)) =~= s0 + free_slots::<V>(m) + seq![Some(v)]);
        }
    }
}

impl<V> Default for CompactMap<V> {
    fn default() -> (r: Self)
        ensures
            r.wf(),
            r@ == Seq::<Option<V>>::empty(),
            r.free_list() == Seq::<usize>::empty(),
    {
        CompactMap::new()
    }
}

/// Relies on `Vec::capacity`: a vector can hold at least its length.
#[verifier::external_body]
fn vec_capacity<T>(v: &Vec<T>) -> (r: usize)
    ensures
        r >= v@.len(),
{
    v.capacity()
}

/// Relies on `Vec::shrink_to_fit`: it changes the capacity, not the elements.
#[verifier::external_body]
fn vec_shrink_to_fit<T>(v: &mut Vec<T>)
    ensures
        final(v)@ == old(v)@,
{
    v.shrink_to_fit()
}

/// Relies on `Vec::reserve_exact`: it changes the capacity, not the elements.
#[verifier::external_body]
fn vec_reserve_exact<T>(v: &mut Vec<T>, additional: usize)
    ensures
        final(v)@ == old(v)@,
{
    v.reserve_exact(additional)
}

} // verus!
