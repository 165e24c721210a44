use qstore::indexed_hash_map::IndexedIDHashMap;
use qstore::indexed_quad_set::{IndexedQuadSet, SPOG};
use qstore::{InternalID, SixtyFourBitID, StoreError, ThirtyTwoBitID};

fn iid(v: u64) -> InternalID {
    InternalID(SixtyFourBitID(v))
}

#[test]
fn arena_assigns_dense_ids() {
    let mut m: IndexedIDHashMap<String, ThirtyTwoBitID> = IndexedIDHashMap::default();
    let a = m.insert_unchecked("a".to_string()).unwrap();
    let b = m.insert_unchecked("b".to_string()).unwrap();
    assert_eq!(a, ThirtyTwoBitID(0));
    assert_eq!(b, ThirtyTwoBitID(1));
    assert_eq!(m.get_id_by_key(&"a".to_string()), Some(ThirtyTwoBitID(0)));
    assert_eq!(m.get_id_by_key(&"c".to_string()), None);
    assert_eq!(m.get_key_ref_by_id(&ThirtyTwoBitID(1)), Some(&"b".to_string()));
}

#[test]
fn arena_insert_is_idempotent() {
    let mut m: IndexedIDHashMap<String, ThirtyTwoBitID> = IndexedIDHashMap::default();
    let first = m.insert_unchecked("same".to_string()).unwrap();
    let second = m.insert_unchecked("same".to_string()).unwrap();
    assert_eq!(first, second);
}

#[test]
fn arena_reuses_freed_ids_lifo() {
    let mut m: IndexedIDHashMap<String, ThirtyTwoBitID> = IndexedIDHashMap::default();
    let _ = m.insert_unchecked("a".to_string()).unwrap();
    let _ = m.insert_unchecked("b".to_string()).unwrap();
    let _ = m.insert_unchecked("c".to_string()).unwrap();
    m.remove_by_key(&"a".to_string()).unwrap();
    m.remove_by_id(&ThirtyTwoBitID(2)).unwrap();
    // freed order was [0, 2]: reuse pops 2 first, then 0
    assert_eq!(m.insert_unchecked("d".to_string()).unwrap(), ThirtyTwoBitID(2));
    assert_eq!(m.insert_unchecked("e".to_string()).unwrap(), ThirtyTwoBitID(0));
    assert_eq!(m.insert_unchecked("f".to_string()).unwrap(), ThirtyTwoBitID(3));
}

#[test]
fn arena_freed_slot_never_serves_a_stale_key() {
    let mut m: IndexedIDHashMap<String, ThirtyTwoBitID> = IndexedIDHashMap::default();
    let a = m.insert_unchecked("old".to_string()).unwrap();
    m.remove_by_id(&a).unwrap();
    assert_eq!(m.get_key_ref_by_id(&a), None);
    assert_eq!(m.get_id_by_key(&"old".to_string()), None);
    let b = m.insert_unchecked("new".to_string()).unwrap();
    assert_eq!(a, b);
    assert_eq!(m.get_key_ref_by_id(&a), Some(&"new".to_string()));
}

#[test]
fn arena_remove_of_absent_key_fails() {
    let mut m: IndexedIDHashMap<String, ThirtyTwoBitID> = IndexedIDHashMap::default();
    assert_eq!(m.remove_by_key(&"x".to_string()), Err(StoreError::NotFound));
    assert_eq!(m.remove_by_id(&ThirtyTwoBitID(0)), Err(StoreError::NotFound));
}

#[test]
fn quad_set_keeps_set_semantics() {
    let mut idx: IndexedQuadSet<SPOG> = IndexedQuadSet::default();
    let e = SPOG(iid(1), iid(2), iid(3), iid(4));
    assert!(idx.add_entry(e));
    assert!(!idx.add_entry(e));
    assert!(idx.find_exact_struct(&e));
    assert!(idx.remove_entry(&e));
    assert!(!idx.remove_entry(&e));
    assert!(!idx.find_exact_struct(&e));
}

#[test]
fn quad_set_scans_in_sorted_order() {
    let mut idx: IndexedQuadSet<SPOG> = IndexedQuadSet::default();
    idx.add_entry(SPOG(iid(4), iid(5), iid(6), iid(9)));
    idx.add_entry(SPOG(iid(4), iid(5), iid(6), iid(7)));
    idx.add_entry(SPOG(iid(4), iid(5), iid(6), iid(8)));
    idx.add_entry(SPOG(iid(1), iid(2), iid(3), iid(4)));
    let all = idx.full_range();
    assert_eq!(all, vec![(1, 2, 3, 4), (4, 5, 6, 7), (4, 5, 6, 8), (4, 5, 6, 9)]);
    let three = idx.find_by_first_three(4, 5, 6);
    assert_eq!(three, vec![(4, 5, 6, 7), (4, 5, 6, 8), (4, 5, 6, 9)]);
    let two = idx.find_by_first_two(4, 5);
    assert_eq!(two.len(), 3);
    let one = idx.find_by_first_one(1);
    assert_eq!(one, vec![(1, 2, 3, 4)]);
    assert!(idx.find_by_first_one(2).is_empty());
}

#[test]
fn id_bounds() {
    assert_eq!(ThirtyTwoBitID::min_value(), ThirtyTwoBitID(0));
    assert_eq!(ThirtyTwoBitID::max_value(), ThirtyTwoBitID(u32::MAX));
    assert_eq!(SixtyFourBitID::min_value(), SixtyFourBitID(0));
    assert_eq!(SixtyFourBitID::max_value(), SixtyFourBitID(u64::MAX));
    assert_eq!(InternalID::min_value(), iid(0));
    assert_eq!(InternalID::max_value(), iid(u64::MAX));
}
