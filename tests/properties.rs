use compactmap::wrapped;
use compactmap::CompactMap;
use std::cmp::Ordering;
use std::hash::Hasher;

fn collect(m: &CompactMap<u64>) -> Vec<(usize, u64)> {
    let mut out = Vec::new();
    let mut it = m.iter();
    while let Some((k, v)) = it.next() {
        out.push((k, *v));
    }
    out
}

#[test]
fn fresh_keys_count_up_from_zero() {
    let mut m: CompactMap<u64> = CompactMap::new();
    for i in 0..20u64 {
        assert_eq!(m.insert(i * 3), i as usize);
    }
    assert_eq!(m.len_slow(), 20);
}

#[test]
fn freed_keys_are_reused_last_in_first_out() {
    let mut m: CompactMap<u64> = CompactMap::new();
    for v in [44, 55, 66, 77, 88, 99] {
        m.insert(v);
    }
    assert_eq!(m.remove(1), Some(55));
    assert_eq!(m.remove(3), Some(77));
    assert_eq!(m.remove(2), Some(66));
    assert_eq!(m.insert(1), 2);
    assert_eq!(m.insert(2), 3);
    assert_eq!(m.insert(3), 1);
    assert_eq!(m.insert(4), 6);
}

#[test]
fn worked_reuse_example() {
    let mut m: CompactMap<u64> = CompactMap::new();
    for v in [44, 55, 66, 77, 88, 99] {
        m.insert(v);
    }
    m.remove(3);
    m.remove(5);
    m.remove(4);
    assert_eq!(m.insert(110), 3);
    assert_eq!(m.insert(220), 4);
    assert_eq!(collect(&m), vec![(0, 44), (1, 55), (2, 66), (3, 110), (4, 220)]);
}

#[test]
fn removing_the_last_key_truncates() {
    let mut m: CompactMap<u64> = CompactMap::new();
    m.insert(1);
    m.insert(2);
    m.insert(3);
    assert_eq!(m.remove(2), Some(3));
    // the freed tail slot is gone, so the next key is a new tail slot
    assert_eq!(m.insert(9), 2);
}

#[test]
fn remove_absent_keys() {
    let mut m: CompactMap<u64> = CompactMap::new();
    assert_eq!(m.remove(0), None);
    assert_eq!(m.remove(usize::MAX), None);
    m.insert(5);
    m.insert(6);
    m.remove(0);
    assert_eq!(m.remove(0), None);
    assert_eq!(m.remove(7), None);
    assert_eq!(m.get(1), Some(&6));
}

#[test]
fn shrink_drops_trailing_free_slots() {
    let mut m: CompactMap<u64> = CompactMap::with_capacity(10);
    assert!(m.capacity() >= 10);
    m.shrink_to_fit();
    assert_eq!(m.capacity(), 0);
    m.insert(1);
    m.insert(2);
    m.insert(3);
    m.insert(4);
    m.remove(1);
    m.remove(3);
    // slots are now [1, free, 3]: the tail was truncated by the removal
    m.shrink_to_fit();
    assert_eq!(m.capacity(), 3);
    assert_eq!(collect(&m), vec![(0, 1), (2, 3)]);
    let k = m.insert(7);
    assert_eq!(k, 1);
    assert_eq!(m.insert(8), 3);
}

#[test]
fn shrink_clears_a_map_of_free_slots() {
    let mut m: CompactMap<u64> = CompactMap::new();
    m.insert(1);
    m.insert(2);
    m.insert(3);
    m.remove(0);
    m.remove(1);
    m.remove(2);
    m.shrink_to_fit();
    assert_eq!(m.capacity(), 0);
    assert_eq!(m.insert(5), 0);
}

#[test]
fn shrink_keeps_every_value_and_reuses_only_free_keys() {
    let mut m: CompactMap<u64> = CompactMap::new();
    for v in 0..10u64 {
        m.insert(v * 10);
    }
    m.remove(2);
    m.remove(5);
    m.remove(7);
    m.shrink_to_fit();
    assert_eq!(m.len_slow(), 7);
    let a = m.insert(1000);
    let b = m.insert(2000);
    let c = m.insert(3000);
    let mut got = vec![a, b, c];
    got.sort();
    assert_eq!(got, vec![2, 5, 7]);
    assert_eq!(m.insert(4000), 10);
}

#[test]
fn reserve_keeps_contents() {
    let mut m: CompactMap<u64> = CompactMap::new();
    m.insert(3);
    m.reserve(100);
    assert!(m.capacity() >= 101);
    m.reserve_exact(200);
    assert!(m.capacity() >= 201);
    assert_eq!(collect(&m), vec![(0, 3)]);
}

#[test]
fn clear_and_default() {
    let mut m: CompactMap<u64> = CompactMap::default();
    assert!(m.is_empty_slow());
    m.insert(1);
    m.insert(2);
    m.remove(0);
    assert!(!m.is_empty_slow());
    m.clear();
    assert!(m.is_empty_slow());
    assert_eq!(m.insert(4), 0);
}

#[test]
fn equality_ignores_history() {
    let mut a: CompactMap<u64> = CompactMap::new();
    a.insert(1);
    a.insert(2);
    a.insert(3);
    a.insert(4);
    a.remove(3);
    a.remove(1);
    let mut b: CompactMap<u64> = CompactMap::new();
    b.insert(1);
    b.insert(9);
    b.insert(3);
    b.remove(1);
    assert!(a == b);
    assert_eq!(a.cmp(&b), Ordering::Equal);
    let c = CompactMap::from_pairs(vec![(2, 3), (0, 1)]);
    assert!(a == c);
    assert_eq!(c.cmp(&a), Ordering::Equal);
}

#[test]
fn order_compares_values_at_first_difference() {
    let mut a: CompactMap<u64> = CompactMap::new();
    let mut b: CompactMap<u64> = CompactMap::new();
    a.insert(1);
    a.insert(5);
    b.insert(1);
    b.insert(7);
    assert_eq!(a.cmp(&b), Ordering::Less);
    assert_eq!(b.cmp(&a), Ordering::Greater);
    b.remove(1);
    assert_eq!(a.cmp(&b), Ordering::Greater);
}

#[test]
fn from_pairs_fills_gaps_and_last_write_wins() {
    let m = CompactMap::from_pairs(vec![(4, 40u64), (1, 10), (4, 41)]);
    assert_eq!(collect(&m), vec![(1, 10), (4, 41)]);
    assert_eq!(m.get(0), None);
    assert_eq!(m.get(2), None);
    let mut m = m;
    let mut got = vec![m.insert(0), m.insert(0), m.insert(0)];
    got.sort();
    assert_eq!(got, vec![0, 2, 3]);
    assert_eq!(m.insert(0), 5);
}

#[test]
fn round_trip_through_pairs() {
    let mut m: CompactMap<u64> = CompactMap::new();
    for v in [5, 6, 7, 8, 9] {
        m.insert(v);
    }
    m.remove(1);
    m.remove(3);
    let back = CompactMap::from_pairs(collect(&m));
    assert!(back == m);
    let text = serde_json::to_string(&collect(&m)).unwrap();
    let parsed: Vec<(usize, u64)> = serde_json::from_str(&text).unwrap();
    assert!(CompactMap::from_pairs(parsed) == m);
}

#[test]
fn iteration_visits_live_pairs_in_key_order() {
    let mut m: CompactMap<u64> = CompactMap::new();
    for v in [10, 20, 30, 40, 50] {
        m.insert(v);
    }
    m.remove(0);
    m.remove(3);
    assert_eq!(collect(&m), vec![(1, 20), (2, 30), (4, 50)]);
    let mut keys = m.keys();
    assert_eq!(keys.next(), Some(1));
    assert_eq!(keys.next(), Some(2));
    assert_eq!(keys.next(), Some(4));
    assert_eq!(keys.next(), None);
    let mut values = m.values();
    assert_eq!(values.next(), Some(&20));
    assert_eq!(values.next(), Some(&30));
    assert_eq!(values.next(), Some(&50));
    assert_eq!(values.next(), None);
    {
        let mut vm = m.values_mut();
        while let Some(v) = vm.next() {
            *v += 1;
        }
    }
    assert_eq!(collect(&m), vec![(1, 21), (2, 31), (4, 51)]);
    if let Some(v) = m.get_mut(2) {
        *v = 0;
    }
    assert_eq!(m.get(2), Some(&0));
    assert!(m.get_mut(3).is_none());
}

#[test]
fn drain_empties_the_map() {
    let mut m: CompactMap<u64> = CompactMap::new();
    m.insert(1);
    m.insert(2);
    m.insert(3);
    m.remove(1);
    let mut d = m.drain();
    assert_eq!(d.next(), Some((0, 1)));
    assert_eq!(d.next(), Some((2, 3)));
    assert_eq!(d.next(), None);
    assert!(m.is_empty_slow());
    assert_eq!(m.get(0), None);
    assert_eq!(m.get(2), None);
    assert!(m.capacity() > 0);
    assert_eq!(m.insert(7), 0);
}

#[test]
fn drain_dropped_early_still_empties() {
    let mut m: CompactMap<u64> = CompactMap::new();
    m.insert(1);
    m.insert(2);
    {
        let mut d = m.drain();
        assert_eq!(d.next(), Some((0, 1)));
    }
    assert_eq!(m.len_slow(), 0);
}

#[test]
fn debug_string_of_empty_map() {
    let m: CompactMap<u64> = CompactMap::new();
    assert_eq!(m.debug_string(), "{}");
}

#[derive(Copy, Clone, Debug, PartialEq)]
struct Token(usize);

impl From<usize> for Token {
    fn from(x: usize) -> Self {
        Token(x)
    }
}

impl From<Token> for usize {
    fn from(x: Token) -> usize {
        x.0
    }
}

#[test]
fn typed_keys() {
    let mut m: wrapped::CompactMap<Token, u64> = wrapped::CompactMap::new();
    let a = m.insert(10);
    let b = m.insert(20);
    assert_eq!(a, Token(0));
    assert_eq!(b, Token(1));
    assert_eq!(m.get(a), Some(&10));
    assert_eq!(m.remove(a), Some(10));
    assert_eq!(m.get(a), None);
    assert_eq!(m.insert(30), Token(0));
    let mut it = m.iter();
    assert_eq!(it.next(), Some((Token(0), &30)));
    assert_eq!(it.next(), Some((Token(1), &20)));
    assert_eq!(it.next(), None);
    let mut keys = m.keys();
    assert_eq!(keys.next(), Some(Token(0)));
    assert_eq!(keys.next(), Some(Token(1)));
    assert_eq!(keys.next(), None);
    if let Some(v) = m.get_mut(Token(1)) {
        *v = 21;
    }
    assert_eq!(m.len_slow(), 2);
    assert_eq!(m.unwrapped().get(1), Some(&21));
    let mut d = m.drain();
    assert_eq!(d.next(), Some((Token(0), 30)));
    assert_eq!(d.next(), Some((Token(1), 21)));
    assert_eq!(d.next(), None);
    assert!(m.is_empty_slow());
    let inner = CompactMap::from_pairs(vec![(2, 5u64)]);
    let w: wrapped::CompactMap<Token, u64> = wrapped::CompactMap::from_unwrapped(inner);
    let mut it = w.into_iter();
    assert_eq!(it.next(), Some((Token(2), 5)));
    assert_eq!(it.next(), None);
}

fn hash_of<T: std::hash::Hash>(t: &T) -> u64 {
    let mut h = std::collections::hash_map::DefaultHasher::new();
    t.hash(&mut h);
    h.finish()
}

#[test]
fn equal_maps_hash_alike() {
    let mut a: CompactMap<u64> = CompactMap::new();
    a.insert(1);
    a.insert(2);
    a.insert(3);
    a.remove(1);
    a.remove(2);
    let b = CompactMap::from_pairs(vec![(0, 1u64)]);
    assert!(a == b);
    assert_eq!(hash_of(&a), hash_of(&b));
    let c = CompactMap::from_pairs(vec![(1, 1u64)]);
    assert!(a != c);
}

#[test]
fn partial_order_agrees_with_total_order() {
    let mut a: CompactMap<u64> = CompactMap::new();
    let mut b: CompactMap<u64> = CompactMap::new();
    a.insert(3);
    b.insert(4);
    assert_eq!(a.partial_cmp(&b), Some(Ordering::Less));
    assert!(a < b);
    assert!(b > a);
    b.remove(0);
    assert_eq!(a.partial_cmp(&b), Some(Ordering::Greater));
    assert_eq!(b.partial_cmp(&b.clone()), Some(Ordering::Equal));
}

#[test]
fn typed_maps_compare_by_pairs() {
    let mut a: wrapped::CompactMap<Token, u64> = wrapped::CompactMap::default();
    let mut b: wrapped::CompactMap<Token, u64> = wrapped::CompactMap::with_capacity(4);
    a.insert(1);
    let k = a.insert(2);
    a.remove(k);
    b.insert(1);
    assert!(a == b);
    assert_eq!(a.cmp(&b), Ordering::Equal);
    assert_eq!(hash_of(&a), hash_of(&b));
    b.insert(5);
    assert_eq!(a.cmp(&b), Ordering::Less);
    assert!(a < b);
    b.shrink_to_fit();
    b.clear();
    assert!(b.is_empty_slow());
}

#[test]
fn index_reads_and_writes_live_keys() {
    let mut m = CompactMap::from_values(vec![7u64, 8, 9]);
    assert_eq!(*m.index(1), 8);
    *m.index_mut(2) = 90;
    assert_eq!(collect(&m), vec![(0, 7), (1, 8), (2, 90)]);
}

#[test]
fn extend_inserts_in_turn() {
    let mut m = CompactMap::from_values(vec![1u64, 2, 3, 4]);
    m.remove(1);
    m.remove(2);
    m.extend_values(vec![20, 30, 50]);
    assert_eq!(collect(&m), vec![(0, 1), (1, 30), (2, 20), (3, 4), (4, 50)]);
}

#[test]
fn typed_map_forwards_to_the_untyped_one() {
    let mut m: wrapped::CompactMap<Token, u64> = wrapped::CompactMap::with_capacity(2);
    assert!(m.capacity() >= 2);
    m.reserve(10);
    m.reserve_exact(20);
    assert!(m.capacity() >= 20);
    let a = m.insert(1);
    let b = m.insert(2);
    {
        let mut it = m.iter_mut();
        while let Some((k, v)) = it.next() {
            if k == b {
                *v = 22;
            }
        }
    }
    {
        let mut vm = m.values_mut();
        while let Some(v) = vm.next() {
            *v += 100;
        }
    }
    let mut vals = m.values();
    assert_eq!(vals.next(), Some(&101));
    assert_eq!(vals.next(), Some(&122));
    assert_eq!(vals.next(), None);
    m.unwrapped_mut().insert(3);
    assert_eq!(m.get(Token(2)), Some(&3));
    assert_eq!(m.remove(a), Some(101));
    let inner = m.into_unwrapped();
    assert_eq!(inner.get(1), Some(&122));
    assert_eq!(inner.get(0), None);
}

#[test]
fn shrink_twice_is_shrink_once() {
    let mut a: CompactMap<u64> = CompactMap::new();
    for v in 0..8u64 {
        a.insert(v);
    }
    a.remove(1);
    a.remove(4);
    a.remove(6);
    a.shrink_to_fit();
    let mut b = a.clone();
    b.shrink_to_fit();
    assert!(a == b);
    for v in 0..5u64 {
        assert_eq!(a.insert(v), b.insert(v));
    }
}
