use compactmap::CompactMap;
use quickcheck::{Arbitrary, Gen, QuickCheck};
use std::collections::BTreeMap;

// Check against slab

#[derive(Clone, Copy, Eq, PartialEq, Debug, Hash, Ord, PartialOrd)]
enum Action {
    Insert(u16),
    Remove(usize),
    ShrinkToFit,
    SerdeJson,
    SerdeBincode,
}

type ActionSequence = Vec<Action>;

impl Arbitrary for Action {
    fn arbitrary(g: &mut Gen) -> Self {
        let roll = u8::arbitrary(g) % 100;
        if roll == 0 {
            Action::SerdeJson
        } else if roll == 1 {
            Action::SerdeBincode
        } else if roll == 2 {
            Action::ShrinkToFit
        } else if bool::arbitrary(g) {
            Action::Insert(u16::arbitrary(g) % 50)
        } else {
            Action::Remove(usize::arbitrary(g) % 50)
        }
    }
}

fn as_btree(cm: &CompactMap<u16>) -> BTreeMap<usize, u16> {
    let mut out = BTreeMap::new();
    let mut it = cm.iter();
    while let Some((k, v)) = it.next() {
        out.insert(k, *v);
    }
    out
}

fn from_btree(m: BTreeMap<usize, u16>) -> CompactMap<u16> {
    CompactMap::from_pairs(m.into_iter().collect())
}

fn check(s: ActionSequence) -> bool {
    let mut cm = CompactMap::<u16>::new();
    let mut slab = slab::Slab::<u16>::new();

    for a in s {
        match a {
            Action::Insert(x) => {
                let k1 = cm.insert(x);
                let k2 = slab.insert(x);
                if k1 != k2 {
                    // Divergence may happen, but can be safely ignored
                    let _ = cm.remove(k1);
                    let _ = slab.remove(k2);
                }
            }
            Action::Remove(n) => {
                if slab.contains(n) {
                    if cm.remove(n) != Some(slab.remove(n)) {
                        println!("rm4 cm={} slab=", n);
                        return false;
                    }
                } else if cm.remove(n) != None {
                    println!("rm5 n={}", n);
                    return false;
                }
            }
            Action::ShrinkToFit => {
                cm.shrink_to_fit();
            }
            Action::SerdeJson => {
                let s = serde_json::to_string(&as_btree(&cm)).unwrap();
                cm = from_btree(serde_json::from_str(&s).unwrap());
            }
            Action::SerdeBincode => {
                let s = bincode::serialize(&as_btree(&cm)).unwrap();
                cm = from_btree(bincode::deserialize(&s).unwrap());
            }
        }
    }

    if cm.len_slow() != slab.len() {
        println!("len {} {}", cm.len_slow(), slab.len());
        return false;
    }

    let mut it = cm.iter();
    while let Some((k, v)) = it.next() {
        if Some(v) != slab.get(k) {
            println!("2 k={}", k);
            return false;
        }
    }

    for (k, v) in slab.iter() {
        if Some(v) != cm.get(k) {
            println!("3 k={}", k);
            return false;
        }
    }

    true
}

#[test]
fn qc() {
    QuickCheck::new()
        .tests(1000)
        .quickcheck(check as fn(ActionSequence) -> bool);
}
