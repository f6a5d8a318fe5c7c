//! Mathematical model of a slot store: a sequence of slots, each either
//! holding a value (`Some`) or free (`None`).
use vstd::prelude::*;

verus! {

/// The slot at `k`, or `None` when `k` lies past the end.
pub open spec fn slot<V>(s: Seq<Option<V>>, k: int) -> Option<V> {
    if 0 <= k < s.len() {
        s[k]
    } else {
        None
    }
}

/// Whether `k` denotes a live value in `s`.
pub open spec fn is_live<V>(s: Seq<Option<V>>, k: int) -> bool {
    0 <= k < s.len() && s[k] is Some
}

/// The key-to-value association of `s`: what equality observes.
pub open spec fn contents<V>(s: Seq<Option<V>>) -> Map<usize, V> {
    Map::new(|k: usize| is_live(s, k as int), |k: usize| s[k as int]->Some_0)
}

/// A free list fits `s` when it lists every free slot of `s` exactly once
/// and nothing else.
pub open spec fn free_list_fits<V>(s: Seq<Option<V>>, free: Seq<usize>) -> bool {
    &&& free.no_duplicates()
    &&& forall|j: int| 0 <= j < free.len() ==> (free[j] as int) < s.len() && s[free[j] as int] is None
    &&& forall|k: int| 0 <= k < s.len() && s[k] is None ==> free.contains(k as usize)
}

/// The key that an insertion into slots `s` with free list `f` returns: the
/// head of the free list, or a new slot at the end.
pub open spec fn insert_key<V>(s: Seq<Option<V>>, f: Seq<usize>) -> int {
    if f.len() == 0 {
        s.len() as int
    } else {
        f[0] as int
    }
}

/// Slots and free list after inserting `v`.
pub open spec fn after_insert<V>(s: Seq<Option<V>>, f: Seq<usize>, v: V) -> (Seq<Option<V>>, Seq<usize>) {
    if f.len() == 0 {
        (s.push(Some(v)), f)
    } else {
        (s.update(f[0] as int, Some(v)), f.drop_first())
    }
}

/// Slots and free list after removing key `k`: nothing changes when `k` is
/// not live; the last slot is dropped; any other slot is freed and goes to
/// the front of the free list.
pub open spec fn after_remove<V>(s: Seq<Option<V>>, f: Seq<usize>, k: usize) -> (Seq<Option<V>>, Seq<usize>) {
    if !is_live(s, k as int) {
        (s, f)
    } else if k + 1 == s.len() {
        (s.drop_last(), f)
    } else {
        (s.update(k as int, None), seq![k].add(f))
    }
}

/// The keys that inserting each value of `vs` in turn returns.
pub open spec fn insert_keys<V>(s: Seq<Option<V>>, f: Seq<usize>, vs: Seq<V>) -> Seq<int>
    decreases vs.len(),
{
    if vs.len() == 0 {
        Seq::empty()
    } else {
        let (s2, f2) = after_insert(s, f, vs[0]);
        seq![insert_key(s, f)] + insert_keys(s2, f2, vs.drop_first())
    }
}

/// Slots and free list after inserting each value of `vs` in turn.
pub open spec fn after_insert_all<V>(s: Seq<Option<V>>, f: Seq<usize>, vs: Seq<V>) -> (Seq<Option<V>>, Seq<usize>)
    decreases vs.len(),
{
    if vs.len() == 0 {
        (s, f)
    } else {
        let (s2, f2) = after_insert(s, f, vs[0]);
        after_insert_all(s2, f2, vs.drop_first())
    }
}

/// Inserting one more value after a run of insertions.
pub proof fn lemma_after_insert_all_push<V>(s: Seq<Option<V>>, f: Seq<usize>, vs: Seq<V>, v: V)
    ensures
        after_insert_all(s, f, vs.push(v)) == after_insert(after_insert_all(s, f, vs).0, after_insert_all(s, f, vs).1, v),
    decreases vs.len(),
{
    if vs.len() == 0 {
        assert(vs.push(v).drop_first() =~= Seq::<V>::empty());
        assert(vs.push(v)[0] == v);
        let (s2, f2) = after_insert(s, f, v);
        assert(after_insert_all(s2, f2, Seq::<V>::empty()) == (s2, f2));
    } else {
        assert(vs.push(v).drop_first() =~= vs.drop_first().push(v));
        assert(vs.push(v)[0] == vs[0]);
        let (s2, f2) = after_insert(s, f, vs[0]);
        lemma_after_insert_all_push(s2, f2, vs.drop_first(), v);
    }
}

/// With no free slot, a run of insertions appends its values in order.
pub proof fn lemma_after_insert_all_appends<V>(s: Seq<Option<V>>, vs: Seq<V>)
    ensures
        after_insert_all(s, Seq::empty(), vs) == (s + vs.map_values(|v: V| Some(v)), Seq::<usize>::empty()),
    decreases vs.len(),
{
    if vs.len() > 0 {
        lemma_after_insert_all_appends(s.push(Some(vs[0])), vs.drop_first());
        assert(s.push(Some(vs[0])) + vs.drop_first().map_values(|v: V| Some(v)) =~= s + vs.map_values(|v: V| Some(v)));
    } else {
        assert(s + vs.map_values(|v: V| Some(v)) =~= s);
    }
}

/// The free slots of `s` below `i`, highest first: the list that an
/// ascending scan builds when it puts each free slot it finds at the front.
pub open spec fn free_below<V>(s: Seq<Option<V>>, i: int) -> Seq<usize>
    decreases i,
{
    if i <= 0 {
        Seq::empty()
    } else if i - 1 < s.len() && s[i - 1] is None {
        seq![(i - 1) as usize] + free_below(s, i - 1)
    } else {
        free_below(s, i - 1)
    }
}

/// All free slots of `s`, in descending order.
pub open spec fn free_desc<V>(s: Seq<Option<V>>) -> Seq<usize> {
    free_below(s, s.len() as int)
}

/// The live `(key, value)` pairs of `s` at position `pos` and beyond, in
/// ascending key order.
pub open spec fn pairs_from<V>(s: Seq<Option<V>>, pos: int) -> Seq<(usize, V)>
    decreases s.len() - pos,
{
    if pos < 0 || pos >= s.len() {
        Seq::empty()
    } else {
        match s[pos] {
            Some(v) => seq![(pos as usize, v)] + pairs_from(s, pos + 1),
            None => pairs_from(s, pos + 1),
        }
    }
}

/// All live `(key, value)` pairs of `s`, in ascending key order: what
/// iteration yields.
pub open spec fn pairs<V>(s: Seq<Option<V>>) -> Seq<(usize, V)> {
    pairs_from(s, 0)
}

/// `s` without its trailing free slots.
pub open spec fn trim<V>(s: Seq<Option<V>>) -> Seq<Option<V>>
    decreases s.len(),
{
    if s.len() == 0 || s.last() is Some {
        s
    } else {
        trim(s.drop_last())
    }
}

/// `n` free slots.
pub open spec fn free_slots<V>(n: nat) -> Seq<Option<V>> {
    Seq::new(n, |_j: int| None::<V>)
}

/// `s` with `v` stored at slot `k`, grown with free slots where `k` lies
/// past its end.
pub open spec fn place<V>(s: Seq<Option<V>>, k: usize, v: V) -> Seq<Option<V>> {
    if (k as int) < s.len() {
        s.update(k as int, Some(v))
    } else {
        s + free_slots((k - s.len()) as nat) + seq![Some(v)]
    }
}

/// `s` with each pair of `ps` placed in turn: a later pair for a key
/// overwrites an earlier one.
pub open spec fn place_all<V>(s: Seq<Option<V>>, ps: Seq<(usize, V)>) -> Seq<Option<V>>
    decreases ps.len(),
{
    if ps.len() == 0 {
        s
    } else {
        place_all(place(s, ps[0].0, ps[0].1), ps.drop_first())
    }
}

/// The slots that a list of pairs describes.
pub open spec fn build<V>(ps: Seq<(usize, V)>) -> Seq<Option<V>> {
    place_all(Seq::empty(), ps)
}

/// Placing one more pair after a list of them.
pub proof fn lemma_place_all_push<V>(s: Seq<Option<V>>, ps: Seq<(usize, V)>, p: (usize, V))
    ensures
        place_all(s, ps.push(p)) == place(place_all(s, ps), p.0, p.1),
    decreases ps.len(),
{
    if ps.len() == 0 {
        assert(ps.push(p).drop_first() =~= Seq::<(usize, V)>::empty());
        assert(ps.push(p)[0] == p);
        assert(place_all(place(s, p.0, p.1), Seq::<(usize, V)>::empty()) == place(s, p.0, p.1));
    } else {
        assert(ps.push(p).drop_first() =~= ps.drop_first().push(p));
        assert(ps.push(p)[0] == ps[0]);
        lemma_place_all_push(place(s, ps[0].0, ps[0].1), ps.drop_first(), p);
    }
}

/// `pairs_from(s, pos)` reads only the slots at `pos` and beyond.
pub proof fn lemma_pairs_from_frame<V>(s1: Seq<Option<V>>, s2: Seq<Option<V>>, pos: int)
    requires
        0 <= pos,
        s1.len() == s2.len(),
        forall|j: int| pos <= j < s1.len() ==> s1[j] == s2[j],
    ensures
        pairs_from(s1, pos) == pairs_from(s2, pos),
    decreases s1.len() - pos,
{
    if pos < s1.len() {
        lemma_pairs_from_frame(s1, s2, pos + 1);
    }
}

/// There are at most as many pairs as slots from `pos` on.
pub proof fn lemma_pairs_from_len<V>(s: Seq<Option<V>>, pos: int)
    requires
        0 <= pos <= s.len(),
    ensures
        pairs_from(s, pos).len() <= s.len() - pos,
    decreases s.len() - pos,
{
    if pos < s.len() {
        lemma_pairs_from_len(s, pos + 1);
    }
}

/// Changing a slot does not change the pairs after it.
pub proof fn lemma_pairs_from_update<V>(s: Seq<Option<V>>, k: int)
    requires
        0 <= k < s.len(),
    ensures
        forall|x: Option<V>| #[trigger] pairs_from(s.update(k, x), k + 1) == pairs_from(s, k + 1),
{
    assert forall|x: Option<V>| #[trigger] pairs_from(s.update(k, x), k + 1) == pairs_from(s, k + 1) by {
        lemma_pairs_from_frame(s.update(k, x), s, k + 1);
    }
}

} // verus!
