use apery::movetypes::Move;
use apery::tt::{TranspositionTable, TtCluster, TtEntry};
use apery::types::{Bound, Depth, Key, Value};

#[test]
fn test_size() {
    assert_eq!(std::mem::size_of::<TtEntry>(), 10);
    assert_eq!(std::mem::size_of::<TtCluster>(), 32);
    assert_eq!(std::mem::size_of::<[TtCluster; 4]>(), 128);
}

#[test]
fn test_cluster_index() {
    let mut tt = TranspositionTable::new();
    tt.resize(1);
    // If key is all 1 bits, index is max.
    let key = Key(0xffff_ffff_ffff_ffff);
    let index = tt.cluster_index(key);
    let cluster_count = 1024 * 1024 / 32;
    assert_eq!(index, cluster_count - 1);
}

/// Keys that differ from `base` only in bits 1 and up of their low part, taken in turn,
/// until one falls in the cluster `cluster_index`.
fn gen_same_cluster_index_key(next: &mut u64, base: Key, cluster_index: usize, tt: &TranspositionTable) -> Key {
    loop {
        *next += 1;
        let key = Key(base.0 ^ (*next << 1));
        if tt.cluster_index(key) == cluster_index {
            return key;
        }
    }
}

#[test]
fn test_probe() {
    let mut tt = TranspositionTable::new();
    tt.resize(1);
    let pv = false;
    let gen8 = tt.generation();

    let mut next = 0u64;
    let base = Key(0x0123_4567_89ab_cdef);
    let key = base;
    let cluster_index = tt.cluster_index(key);

    let (tte, found) = tt.probe(key);
    assert!(!found);
    let (d2_val, d2) = (Value(20), Depth(2));
    tte.save(key, d2_val, pv, Bound::EXACT, d2, None, Value(0), gen8); // cluster: [(d2, gen_old), 0, 0]
    let (_, found) = tt.probe(key);
    assert!(found);

    let key = gen_same_cluster_index_key(&mut next, base, cluster_index, &tt);
    let (tte, found) = tt.probe(key);
    assert!(!found);
    let (d1_val, d1) = (Value(10), Depth(1));
    tte.save(key, d1_val, pv, Bound::EXACT, d1, None, Value(0), gen8); // cluster: [(d2, gen_old), (d1, gen_old), 0]
    let (_, found) = tt.probe(key);
    assert!(found);

    let key = gen_same_cluster_index_key(&mut next, base, cluster_index, &tt);
    let (tte, found) = tt.probe(key);
    assert!(!found);
    let (d9_val, d9) = (Value(90), Depth(9));
    tte.save(key, d9_val, pv, Bound::EXACT, d9, None, Value(0), gen8); // cluster: [(d2, gen_old), (d1, gen_old), (d9, gen_old)]
    let (_, found) = tt.probe(key);
    assert!(found);

    tt.new_search();
    let gen8 = tt.generation();

    let key = gen_same_cluster_index_key(&mut next, base, cluster_index, &tt);
    let (tte, found) = tt.probe(key);
    assert!(!found);
    assert_eq!(tte.value(), d1_val); // the entry is most shallow depth
    let (d1_val, d1) = (Value(10), Depth(1));
    tte.save(key, d1_val, pv, Bound::EXACT, d1, None, Value(0), gen8); // cluster: [(d2, gen_old), (d1, gen_new), (d9, gen_old)]
    let (_, found) = tt.probe(key);
    assert!(found);

    let key = gen_same_cluster_index_key(&mut next, base, cluster_index, &tt);
    let (tte, found) = tt.probe(key);
    assert!(!found);
    assert_eq!(tte.value(), d2_val); // old and shallow entry.
    let (d3_val, d3) = (Value(30), Depth(3));
    tte.save(key, d3_val, pv, Bound::EXACT, d3, None, Value(0), gen8); // cluster: [d3, gen_new), (d1, gen_new), (d9, gen_old)]
    let (_, found) = tt.probe(key);
    assert!(found);

    let key = gen_same_cluster_index_key(&mut next, base, cluster_index, &tt);
    let (tte, found) = tt.probe(key);
    assert!(!found);
    assert_eq!(tte.value(), d1_val); // d9 entry has very deep depth. d9 isn't chosen.
    let (d2_val, d2) = (Value(20), Depth(2));
    tte.save(key, d2_val, pv, Bound::EXACT, d2, None, Value(0), gen8); // cluster: [d3, gen_new), (d2, gen_new), (d9, gen_old)]
    let (_, found) = tt.probe(key);
    assert!(found);
}

#[test]
fn test_save_then_read_back() {
    let mut tt = TranspositionTable::new();
    tt.resize(1);
    tt.new_search();
    let gen8 = tt.generation();
    assert_eq!(gen8, 8);
    let key = Key(0x0fed_cba9_8765_4321);
    let (tte, found) = tt.probe(key);
    assert!(!found);
    tte.save(key, Value(-1234), true, Bound::LOWER, Depth(5), Some(Move(0x0001_2345)), Value(77), gen8);
    let (tte, found) = tt.probe(key);
    assert!(found);
    assert_eq!(tte.value(), Value(-1234));
    assert_eq!(tte.eval(), Value(77));
    assert_eq!(tte.depth(), Depth(5));
    assert_eq!(tte.bound(), Bound::LOWER);
    assert!(tte.is_pv());
    assert_eq!(tte.generation(), 8);
    assert_eq!(tte.move16(), 0x2345);
}

#[test]
fn test_save_keeps_deeper_result() {
    let mut tt = TranspositionTable::new();
    tt.resize(1);
    let gen8 = tt.generation();
    let key = Key(0x1111_2222_3333_4444);
    let (tte, _) = tt.probe(key);
    tte.save(key, Value(50), false, Bound::LOWER, Depth(10), Some(Move(0x77)), Value(1), gen8);
    // A shallower, non-exact result of the same position keeps the stored data but takes the new move.
    let (tte, found) = tt.probe(key);
    assert!(found);
    tte.save(key, Value(-50), false, Bound::UPPER, Depth(2), Some(Move(0x99)), Value(2), gen8);
    let (tte, _) = tt.probe(key);
    assert_eq!(tte.value(), Value(50));
    assert_eq!(tte.depth(), Depth(10));
    assert_eq!(tte.bound(), Bound::LOWER);
    assert_eq!(tte.move16(), 0x99);
    // Without a move, the stored move stays for the same position.
    tte.save(key, Value(60), false, Bound::EXACT, Depth(3), None, Value(3), gen8);
    let (tte, _) = tt.probe(key);
    assert_eq!(tte.value(), Value(60));
    assert_eq!(tte.depth(), Depth(3));
    assert_eq!(tte.move16(), 0x99);
}

#[test]
fn test_clear_and_generation() {
    let mut tt = TranspositionTable::new();
    tt.resize(1);
    let key = Key(0x5555_aaaa_5555_aaaa);
    let (tte, _) = tt.probe(key);
    tte.save(key, Value(1), false, Bound::EXACT, Depth(1), None, Value(0), 0);
    tt.clear();
    let (tte, found) = tt.probe(key);
    assert!(!found);
    assert_eq!(tte.depth(), Depth(Depth::OFFSET));
    for _ in 0..32 {
        tt.new_search();
    }
    assert_eq!(tt.generation(), 0);
}

#[test]
fn test_cluster_index_turn_bit() {
    let mut tt = TranspositionTable::new();
    tt.resize(1);
    assert_eq!(tt.cluster_index(Key(0)), 0);
    assert_eq!(tt.cluster_index(Key(1)), 1);
    // The high bits of the key pick the pair of clusters: 2^63 is half way.
    assert_eq!(tt.cluster_index(Key(0x8000_0000_0000_0000)), 1024 * 1024 / 32 / 2);
}
