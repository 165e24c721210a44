use qstore::literal::Literal;
use qstore::{InternalID, SixtyFourBitID, StorageEngine, StoreNode};

fn iid(v: u64) -> InternalID {
    InternalID(SixtyFourBitID(v))
}

/// A store whose node table maps the placeholder literals "n1".."n<n>" to
/// node ids 1..=n (id 0 is the default graph).
fn store_with_nodes(n: u64) -> StorageEngine {
    let mut s = StorageEngine::default();
    for i in 1..=n {
        let lit = Literal::from_string(&mut s, &format!("n{}", i)).unwrap();
        let id = s.find_or_add_internal_id(StoreNode::Literal(lit)).unwrap();
        assert_eq!(id, iid(i));
    }
    s
}

#[test]
fn exact_match_hit_and_miss() {
    let mut s = store_with_nodes(5);
    // quad (S,P,O,G) = (1,2,3,4)
    s.add_internal_quad(iid(4), iid(1), iid(2), iid(3));
    let hit = s.search_engine_internal(Some(iid(4)), Some(iid(1)), Some(iid(2)), Some(iid(3)));
    assert_eq!(hit, vec![(iid(4), iid(1), iid(2), iid(3))]);
    let miss = s.search_engine_internal(Some(iid(5)), Some(iid(1)), Some(iid(2)), Some(iid(3)));
    assert!(miss.is_empty());
}

#[test]
fn graph_fanout_scan() {
    let mut s = store_with_nodes(16);
    // ten quads (S,P,O) = (4,5,6), G in 7..=16
    for g in 7..=16 {
        s.add_internal_quad(iid(g), iid(4), iid(5), iid(6));
    }
    let all = s.search_engine_internal(None, Some(iid(4)), Some(iid(5)), Some(iid(6)));
    assert_eq!(all.len(), 10);
    let graphs: Vec<u64> = all.iter().map(|q| q.0 .0 .0).collect();
    assert_eq!(graphs, (7..=16).collect::<Vec<u64>>());
    let one = s.search_engine_internal(Some(iid(11)), Some(iid(4)), Some(iid(5)), Some(iid(6)));
    assert_eq!(one, vec![(iid(11), iid(4), iid(5), iid(6))]);
}

#[test]
fn predicate_object_scan() {
    let mut s = store_with_nodes(108);
    // quads (S,P,O,G) = (99,100,101,102) and (105,106,107,108)
    s.add_internal_quad(iid(102), iid(99), iid(100), iid(101));
    s.add_internal_quad(iid(108), iid(105), iid(106), iid(107));
    let hit = s.search_engine_internal(None, None, Some(iid(100)), Some(iid(101)));
    assert_eq!(hit, vec![(iid(102), iid(99), iid(100), iid(101))]);
    let miss = s.search_engine_internal(Some(iid(102)), Some(iid(100)), Some(iid(100)), Some(iid(101)));
    assert!(miss.is_empty());
}

#[test]
fn same_id_in_different_roles() {
    let mut s = store_with_nodes(13);
    // quads (S,P,O,G) = (7,8,9,10) and (10,11,12,13): the id 10 is the graph
    // of the first and the subject of the second.
    s.add_internal_quad(iid(10), iid(7), iid(8), iid(9));
    s.add_internal_quad(iid(13), iid(10), iid(11), iid(12));
    let by_graph = s.search_engine_internal(Some(iid(10)), None, None, None);
    assert_eq!(by_graph, vec![(iid(10), iid(7), iid(8), iid(9))]);
    let by_subject = s.search_engine_internal(None, Some(iid(10)), None, None);
    assert_eq!(by_subject, vec![(iid(13), iid(10), iid(11), iid(12))]);
    let by_object = s.search_engine_internal(None, None, None, Some(iid(9)));
    assert_eq!(by_object, vec![(iid(10), iid(7), iid(8), iid(9))]);
}

#[test]
fn remove_then_reinsert() {
    let mut s = store_with_nodes(5);
    s.add_internal_quad(iid(4), iid(1), iid(2), iid(3));
    s.remove_internal_quad(iid(4), iid(1), iid(2), iid(3));
    assert!(s.search_engine_internal(Some(iid(4)), Some(iid(1)), Some(iid(2)), Some(iid(3))).is_empty());
    assert!(s.search_engine_internal(None, Some(iid(1)), None, None).is_empty());
    assert!(s.search_engine_internal(None, None, Some(iid(2)), None).is_empty());
    assert!(s.search_engine_internal(None, None, None, Some(iid(3))).is_empty());
    assert!(s.search_engine_internal(Some(iid(4)), None, None, None).is_empty());
    s.add_internal_quad(iid(4), iid(1), iid(2), iid(3));
    let back = s.search_engine_internal(None, None, None, None);
    assert_eq!(back, vec![(iid(4), iid(1), iid(2), iid(3))]);
}

#[test]
fn triples_use_the_default_graph() {
    let mut s = store_with_nodes(3);
    s.add_internal_triple(iid(1), iid(2), iid(3));
    let found = s.search_engine_internal(Some(iid(0)), None, None, None);
    assert_eq!(found, vec![(iid(0), iid(1), iid(2), iid(3))]);
    s.remove_internal_triple(iid(1), iid(2), iid(3));
    assert!(s.search_engine_internal(None, None, None, None).is_empty());
}
