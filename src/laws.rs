//! Laws that relate several operations of the map, stated over the model.
use vstd::prelude::*;
use vstd::std_specs::cmp::PartialEqSpec;
use crate::model::{
    slot, is_live, contents, pairs, pairs_from, trim, place, place_all, build, free_slots,
    insert_key, after_insert, after_remove, insert_keys, free_desc,
};
use crate::compare::{same_pairs, slots_agree, compare, compare_from};
use core::cmp::Ordering;

verus! {

/// Into a map with no free slots, each insertion appends: keys come out as
/// `n, n + 1, n + 2, ...` where `n` is the number of slots.
proof fn lemma_appending_keys<V>(s: Seq<Option<V>>, vs: Seq<V>)
    ensures
        insert_keys(s, Seq::empty(), vs) =~= Seq::new(vs.len(), |i: int| s.len() + i),
    decreases vs.len(),
{
    if vs.len() > 0 {
        lemma_appending_keys(s.push(Some(vs[0])), vs.drop_first());
    }
}

/// Inserting values into a new map, with no removal in between, returns the
/// keys `0, 1, 2, ...` in order.
pub proof fn lemma_fresh_keys<V>(vs: Seq<V>)
    ensures
        insert_keys(Seq::<Option<V>>::empty(), Seq::empty(), vs) == Seq::new(vs.len(), |i: int| i),
{
    lemma_appending_keys(Seq::<Option<V>>::empty(), vs);
    assert(Seq::new(vs.len(), |i: int| Seq::<Option<V>>::empty().len() + i) =~= Seq::new(vs.len(), |i: int| i));
}

/// Freed keys are reused last-in, first-out: right after removing a live key
/// that is not the last slot, the next insertion returns that key, and puts
/// the slots and the free list back as they were but for the new value.
pub proof fn lemma_reuse_last_freed<V>(s: Seq<Option<V>>, f: Seq<usize>, k: usize, v: V)
    requires
        is_live(s, k as int),
        k + 1 < s.len(),
    ensures
        insert_key(after_remove(s, f, k).0, after_remove(s, f, k).1) == k,
        after_insert(after_remove(s, f, k).0, after_remove(s, f, k).1, v) == (s.update(k as int, Some(v)), f),
{
    let (s2, f2) = after_remove(s, f, k);
    assert(f2.drop_first() =~= f);
    assert(s2.update(k as int, Some(v)) =~= s.update(k as int, Some(v)));
}

/// Facts about `trim`: it keeps a prefix, drops only free slots, and ends
/// on a live slot unless nothing is left.
proof fn lemma_trim<V>(t: Seq<Option<V>>)
    ensures
        trim(t).len() <= t.len(),
        trim(t) == t.take(trim(t).len() as int),
        forall|j: int| trim(t).len() <= j < t.len() ==> t[j] is None,
        trim(t).len() == 0 || trim(t).last() is Some,
    decreases t.len(),
{
    if t.len() == 0 {
        assert(t.take(0) =~= t);
    } else if t.last() is Some {
        assert(t.take(t.len() as int) =~= t);
    } else {
        lemma_trim(t.drop_last());
        assert(t.drop_last().take(trim(t).len() as int) =~= t.take(trim(t).len() as int));
        assert forall|j: int| trim(t).len() <= j < t.len() implies t[j] is None by {
            if j < t.len() - 1 {
                assert(t.drop_last()[j] == t[j]);
            }
        }
    }
}

/// Compaction ends the slots on the highest live key (or leaves none),
/// keeps the key-to-value association, and is idempotent: a second
/// `shrink_to_fit` leaves the slots and the free list as the first left them.
pub proof fn lemma_compaction<V>(s: Seq<Option<V>>)
    requires
        s.len() <= usize::MAX,
    ensures
        trim(s).len() <= s.len(),
        trim(s).len() == 0 || trim(s).last() is Some,
        contents(trim(s)) == contents(s),
        trim(trim(s)) == trim(s),
        free_desc(trim(trim(s))) == free_desc(trim(s)),
{
    lemma_trim_contents(s);
}

proof fn lemma_trim_contents<V>(s: Seq<Option<V>>)
    requires
        s.len() <= usize::MAX,
    ensures
        trim(s).len() <= s.len(),
        trim(s).len() == 0 || trim(s).last() is Some,
        contents(trim(s)) == contents(s),
{
    lemma_trim(s);
    let t = trim(s);
    assert forall|k: usize| #[trigger] contents(t).dom().contains(k) == contents(s).dom().contains(k) by {
        if (k as int) < t.len() {
            assert(t[k as int] == s[k as int]);
        }
    }
    assert forall|k: usize| #[trigger] contents(t).dom().contains(k) implies contents(t)[k] == contents(s)[k] by {
        assert(t[k as int] == s[k as int]);
    }
    assert(contents(t) =~= contents(s));
}

/// Maps whose live pairs agree have the same slot at every key.
proof fn lemma_same_contents_same_slots<V>(a: Seq<Option<V>>, b: Seq<Option<V>>, k: int)
    requires
        a.len() <= usize::MAX,
        b.len() <= usize::MAX,
        contents(a) == contents(b),
        0 <= k,
    ensures
        slot(a, k) == slot(b, k),
{
    if k < a.len() || k < b.len() {
        let key = k as usize;
        assert(key as int == k);
        assert(contents(a).dom().contains(key) == is_live(a, k));
        assert(contents(b).dom().contains(key) == is_live(b, k));
        if is_live(a, k) {
            assert(contents(a)[key] == contents(b)[key]);
            assert(contents(a)[key] == a[k]->Some_0);
            assert(contents(b)[key] == b[k]->Some_0);
        }
    }
}

/// Equality looks at the live `(key, value)` pairs only: two maps with the
/// same pairs are equal however their free lists and trailing free slots
/// differ, as long as `V`'s `==` relates each value to itself.
pub proof fn lemma_equality_ignores_layout<V: PartialEq>(a: Seq<Option<V>>, b: Seq<Option<V>>)
    requires
        a.len() <= usize::MAX,
        b.len() <= usize::MAX,
        contents(a) == contents(b),
        forall|v: V| #[trigger] v.eq_spec(&v),
    ensures
        same_pairs(a, b),
        forall|c: Seq<Option<V>>| #[trigger] same_pairs(a, c) == same_pairs(b, c),
{
    assert forall|k: int| 0 <= k implies #[trigger] slots_agree(slot(a, k), slot(b, k)) by {
        lemma_same_contents_same_slots(a, b, k);
        if slot(a, k) is Some {
            let v = slot(a, k)->Some_0;
            assert(v.eq_spec(&v));
        }
    }
    assert forall|c: Seq<Option<V>>| #[trigger] same_pairs(a, c) == same_pairs(b, c) by {
        assert forall|k: int| 0 <= k implies slot(a, k) == slot(b, k) by {
            lemma_same_contents_same_slots(a, b, k);
        }
        if same_pairs(a, c) {
            assert forall|k: int| 0 <= k implies #[trigger] slots_agree(slot(b, k), slot(c, k)) by {
                assert(slot(a, k) == slot(b, k));
                assert(slots_agree(slot(a, k), slot(c, k)));
            }
        }
        if same_pairs(b, c) {
            assert forall|k: int| 0 <= k implies #[trigger] slots_agree(slot(a, k), slot(c, k)) by {
                assert(slot(a, k) == slot(b, k));
                assert(slots_agree(slot(b, k), slot(c, k)));
            }
        }
    }
}

/// Past the last live slot of either side, the comparison finds no
/// difference.
proof fn lemma_compare_free_tail<V: Ord>(a: Seq<Option<V>>, b: Seq<Option<V>>, k: int)
    requires
        0 <= k,
        forall|j: int| k <= j ==> #[trigger] slot(a, j) is None && slot(b, j) is None,
    ensures
        compare_from(a, b, k) == Ordering::Equal,
    decreases (if a.len() > b.len() { a.len() } else { b.len() }) - k,
{
    if k < a.len() || k < b.len() {
        assert(slot(a, k) is None && slot(b, k) is None);
        lemma_compare_free_tail(a, b, k + 1);
    }
}

/// Comparing from slot `k` on sees only the slots, not where the sequences
/// end.
proof fn lemma_compare_same_slots<V: Ord>(a: Seq<Option<V>>, b: Seq<Option<V>>, c: Seq<Option<V>>, k: int)
    requires
        0 <= k,
        forall|j: int| 0 <= j ==> #[trigger] slot(a, j) == slot(b, j),
    ensures
        compare_from(a, c, k) == compare_from(b, c, k),
    decreases (if a.len() > b.len() { a.len() } else { b.len() }) + c.len() - k,
{
    let a_done = k >= a.len() && k >= c.len();
    let b_done = k >= b.len() && k >= c.len();
    if a_done || b_done {
        assert forall|j: int| k <= j implies #[trigger] slot(a, j) is None && slot(c, j) is None by {
            assert(slot(a, j) == slot(b, j));
        }
        assert forall|j: int| k <= j implies #[trigger] slot(b, j) is None && slot(c, j) is None by {
            assert(slot(a, j) == slot(b, j));
        }
        lemma_compare_free_tail(a, c, k);
        lemma_compare_free_tail(b, c, k);
    } else {
        assert(slot(a, k) == slot(b, k));
        lemma_compare_same_slots(a, b, c, k + 1);
    }
}

/// Order, like equality, looks at the live pairs only: maps with the same
/// pairs compare alike against any map.
pub proof fn lemma_order_ignores_layout<V: Ord>(a: Seq<Option<V>>, b: Seq<Option<V>>, c: Seq<Option<V>>)
    requires
        a.len() <= usize::MAX,
        b.len() <= usize::MAX,
        contents(a) == contents(b),
    ensures
        compare(a, c) == compare(b, c),
{
    assert forall|j: int| 0 <= j implies #[trigger] slot(a, j) == slot(b, j) by {
        lemma_same_contents_same_slots(a, b, j);
    }
    lemma_compare_same_slots(a, b, c, 0);
}

/// One step of rebuilding from pairs: the slots before `pos`, trimmed, with
/// the pairs from `pos` on placed onto them, give the trimmed slots.
proof fn lemma_rebuild_from<V>(s: Seq<Option<V>>, pos: int)
    requires
        s.len() <= usize::MAX,
        0 <= pos <= s.len(),
    ensures
        place_all(trim(s.take(pos)), pairs_from(s, pos)) == trim(s),
    decreases s.len() - pos,
{
    if pos == s.len() {
        assert(s.take(pos) =~= s);
    } else {
        let t = s.take(pos);
        let t1 = s.take(pos + 1);
        assert(t1.drop_last() =~= t);
        lemma_rebuild_from(s, pos + 1);
        match s[pos] {
            Some(v) => {
                lemma_trim(t);
                let m = trim(t).len();
                assert(trim(t) + free_slots::<V>((pos - m) as nat) + seq![Some(v)] =~= t1);
                assert(place(trim(t), pos as usize, v) == t1);
                assert(trim(t1) == t1);
                assert(pairs_from(s, pos).drop_first() == pairs_from(s, pos + 1));
            },
            None => {
                assert(trim(t1) == trim(t));
            },
        }
    }
}

/// Writing a map out as its live pairs and building a map from them gives
/// back the same slots without the trailing free ones, so the same live
/// pairs.
pub proof fn lemma_round_trip<V>(s: Seq<Option<V>>)
    requires
        s.len() <= usize::MAX,
    ensures
        build(pairs(s)) == trim(s),
        contents(build(pairs(s))) == contents(s),
{
    lemma_rebuild_from(s, 0);
    assert(s.take(0) =~= Seq::<Option<V>>::empty());
    lemma_trim_contents(s);
}

proof fn lemma_pairs_from_exact<V>(s: Seq<Option<V>>, pos: int)
    requires
        s.len() <= usize::MAX,
        0 <= pos <= s.len(),
    ensures
        forall|j: int| 0 <= j < pairs_from(s, pos).len() ==> {
            let p = #[trigger] pairs_from(s, pos)[j];
            &&& pos <= p.0 < s.len()
            &&& s[p.0 as int] == Some(p.1)
        },
        forall|k: int| pos <= k < s.len() && s[k] is Some ==> pairs_from(s, pos).contains((k as usize, s[k]->Some_0)),
        forall|i: int, j: int| 0 <= i < j < pairs_from(s, pos).len() ==> pairs_from(s, pos)[i].0 < pairs_from(s, pos)[j].0,
    decreases s.len() - pos,
{
    if pos < s.len() {
        lemma_pairs_from_exact(s, pos + 1);
        let rest = pairs_from(s, pos + 1);
        if s[pos] is Some {
            let ps = pairs_from(s, pos);
            assert(ps == seq![(pos as usize, s[pos]->Some_0)] + rest);
            assert forall|j: int| 0 <= j < ps.len() implies {
                let p = #[trigger] ps[j];
                &&& pos <= p.0 < s.len()
                &&& s[p.0 as int] == Some(p.1)
            } by {
                if j > 0 {
                    assert(ps[j] == rest[j - 1]);
                }
            }
            assert forall|k: int| pos <= k < s.len() && s[k] is Some implies ps.contains((k as usize, s[k]->Some_0)) by {
                if k == pos {
                    assert(ps[0] == (k as usize, s[k]->Some_0));
                } else {
                    let j = choose|j: int| 0 <= j < rest.len() && rest[j] == (k as usize, s[k]->Some_0);
                    assert(ps[j + 1] == rest[j]);
                }
            }
            assert forall|i: int, j: int| 0 <= i < j < ps.len() implies ps[i].0 < ps[j].0 by {
                assert(ps[j] == rest[j - 1]);
                if i > 0 {
                    assert(ps[i] == rest[i - 1]);
                }
            }
        }
    }
}

/// Iteration yields exactly the pairs `(k, v)` for which `get(k)` returns
/// `v`, each once, in strictly ascending key order.
pub proof fn lemma_iteration_complete<V>(s: Seq<Option<V>>)
    requires
        s.len() <= usize::MAX,
    ensures
        forall|k: usize, v: V| #[trigger] pairs(s).contains((k, v)) <==> is_live(s, k as int) && s[k as int] == Some(v),
        forall|i: int, j: int| 0 <= i < j < pairs(s).len() ==> pairs(s)[i].0 < pairs(s)[j].0,
{
    lemma_pairs_from_exact(s, 0);
    assert forall|k: usize, v: V| #[trigger] pairs(s).contains((k, v)) <==> is_live(s, k as int) && s[k as int] == Some(v) by {
        if pairs(s).contains((k, v)) {
            let j = choose|j: int| 0 <= j < pairs(s).len() && pairs(s)[j] == (k, v);
            assert(pairs(s)[j] == (k, v));
        }
        if is_live(s, k as int) && s[k as int] == Some(v) {
            assert(pairs(s).contains((k as int as usize, s[k as int]->Some_0)));
        }
    }
}

} // verus!
