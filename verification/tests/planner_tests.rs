use qstore::literal::Literal;
use qstore::{InternalID, SixtyFourBitID, StorageEngine, StoreNode};

fn iid(v: u64) -> InternalID {
    InternalID(SixtyFourBitID(v))
}

fn store_with_nodes_and_quads() -> (StorageEngine, Vec<(InternalID, InternalID, InternalID, InternalID)>) {
    let mut s = StorageEngine::default();
    for i in 1..=16u64 {
        let lit = Literal::from_string(&mut s, &format!("n{}", i)).unwrap();
        let id = s.find_or_add_internal_id(StoreNode::Literal(lit)).unwrap();
        assert_eq!(id, iid(i));
    }
    // (G, S, P, O) quads with shared components in every position
    let quads = vec![
        (iid(1), iid(2), iid(3), iid(4)),
        (iid(1), iid(2), iid(3), iid(5)),
        (iid(1), iid(2), iid(6), iid(4)),
        (iid(1), iid(7), iid(3), iid(4)),
        (iid(8), iid(2), iid(3), iid(4)),
        (iid(8), iid(7), iid(6), iid(5)),
        (iid(9), iid(10), iid(11), iid(12)),
    ];
    for q in &quads {
        s.add_internal_quad(q.0, q.1, q.2, q.3);
    }
    (s, quads)
}

fn sorted(mut v: Vec<(InternalID, InternalID, InternalID, InternalID)>) -> Vec<(InternalID, InternalID, InternalID, InternalID)> {
    v.sort_by_key(|q| (q.0 .0 .0, q.1 .0 .0, q.2 .0 .0, q.3 .0 .0));
    v
}

#[test]
fn every_bind_mask_equals_the_exhaustive_filter() {
    let (s, _) = store_with_nodes_and_quads();
    let universe = s.search_engine_internal(None, None, None, None);
    // bound values: one present in the data, one known id that matches nothing
    let g_choices = [None, Some(iid(1)), Some(iid(13))];
    let s_choices = [None, Some(iid(2)), Some(iid(13))];
    let p_choices = [None, Some(iid(3)), Some(iid(13))];
    let o_choices = [None, Some(iid(4)), Some(iid(13))];
    for g in g_choices {
        for sb in s_choices {
            for p in p_choices {
                for o in o_choices {
                    let got = sorted(s.search_engine_internal(g, sb, p, o));
                    let expect = sorted(
                        universe
                            .iter()
                            .copied()
                            .filter(|q| {
                                g.map_or(true, |v| q.0 == v)
                                    && sb.map_or(true, |v| q.1 == v)
                                    && p.map_or(true, |v| q.2 == v)
                                    && o.map_or(true, |v| q.3 == v)
                            })
                            .collect(),
                    );
                    assert_eq!(got, expect, "mask {:?}", (g, sb, p, o));
                }
            }
        }
    }
}

#[test]
fn results_have_no_duplicates() {
    let (s, quads) = store_with_nodes_and_quads();
    let universe = s.search_engine_internal(None, None, None, None);
    assert_eq!(universe.len(), quads.len());
    let mut seen = universe.clone();
    seen.dedup();
    assert_eq!(seen.len(), universe.len());
}

#[test]
fn adding_twice_keeps_one_copy() {
    let (mut s, quads) = store_with_nodes_and_quads();
    s.add_internal_quad(iid(1), iid(2), iid(3), iid(4));
    s.add_internal_quad(iid(1), iid(2), iid(3), iid(4));
    let universe = s.search_engine_internal(None, None, None, None);
    assert_eq!(universe.len(), quads.len());
    let exact = s.search_engine_internal(Some(iid(1)), Some(iid(2)), Some(iid(3)), Some(iid(4)));
    assert_eq!(exact.len(), 1);
}

#[test]
fn single_bound_scans_cover_the_universe() {
    // mirror consistency, observed: the union of the one-position scans over
    // all ids equals the full scan, whichever index served them
    let (s, _) = store_with_nodes_and_quads();
    let universe = sorted(s.search_engine_internal(None, None, None, None));
    for pick in 0..4 {
        let mut union: Vec<(InternalID, InternalID, InternalID, InternalID)> = Vec::new();
        for v in 0..=16u64 {
            let mask = |b: bool| if b { Some(iid(v)) } else { None };
            let part = s.search_engine_internal(
                mask(pick == 0),
                mask(pick == 1),
                mask(pick == 2),
                mask(pick == 3),
            );
            union.extend(part);
        }
        assert_eq!(sorted(union), universe);
    }
}

#[test]
fn removed_quad_leaves_the_rest() {
    let (mut s, quads) = store_with_nodes_and_quads();
    s.remove_internal_quad(iid(1), iid(2), iid(3), iid(4));
    let universe = s.search_engine_internal(None, None, None, None);
    assert_eq!(universe.len(), quads.len() - 1);
    assert!(!universe.contains(&(iid(1), iid(2), iid(3), iid(4))));
    // removing an absent quad changes nothing
    s.remove_internal_quad(iid(9), iid(9), iid(9), iid(9));
    assert_eq!(s.search_engine_internal(None, None, None, None).len(), quads.len() - 1);
}

#[test]
fn reused_slot_serves_only_the_new_quad() {
    let mut s = StorageEngine::default();
    for i in 1..=5u64 {
        let lit = Literal::from_string(&mut s, &format!("n{}", i)).unwrap();
        s.find_or_add_internal_id(StoreNode::Literal(lit)).unwrap();
    }
    s.add_internal_quad(iid(1), iid(2), iid(3), iid(4));
    s.remove_internal_quad(iid(1), iid(2), iid(3), iid(4));
    // a new quad using a brand-new node id 5 in the object position
    s.add_internal_quad(iid(1), iid(2), iid(3), iid(5));
    for mask in [
        s.search_engine_internal(Some(iid(1)), Some(iid(2)), Some(iid(3)), Some(iid(4))),
        s.search_engine_internal(None, None, None, Some(iid(4))),
    ] {
        assert!(mask.is_empty());
    }
    let found = s.search_engine_internal(Some(iid(1)), None, None, None);
    assert_eq!(found, vec![(iid(1), iid(2), iid(3), iid(5))]);
}

#[test]
fn search_nodes_resolves_and_maps_back() {
    let mut s = StorageEngine::default();
    let subj = Literal::from_string(&mut s, "subject").unwrap();
    let pred = Literal::from_string(&mut s, "predicate").unwrap();
    let obj = Literal::from_string(&mut s, "object").unwrap();
    let sid = s.find_or_add_internal_id(StoreNode::Literal(subj.clone())).unwrap();
    let pid = s.find_or_add_internal_id(StoreNode::Literal(pred.clone())).unwrap();
    let oid = s.find_or_add_internal_id(StoreNode::Literal(obj.clone())).unwrap();
    s.add_internal_triple(sid, pid, oid);
    let results = s.search_nodes(None, Some(StoreNode::Literal(subj)), None, None);
    assert_eq!(results.len(), 1);
    match &results[0].3 {
        StoreNode::Literal(l) => assert_eq!(l.borrow_lexical_form(), "object"),
        other => panic!("expected a literal, got {:?}", other),
    }
    match &results[0].0 {
        StoreNode::URIRef(u) => {
            assert_eq!(u.to_string(&s).unwrap(), "http://internal/graph");
        },
        other => panic!("expected the default graph node, got {:?}", other),
    }
}

#[test]
fn search_nodes_with_unknown_node_is_empty_and_reads_only() {
    let mut s = StorageEngine::default();
    let known = Literal::from_string(&mut s, "known").unwrap();
    let kid = s.find_or_add_internal_id(StoreNode::Literal(known)).unwrap();
    s.add_internal_triple(kid, kid, kid);
    let stranger = Literal::from_string(&mut s, "stranger").unwrap();
    let before = s.search_engine_internal(None, None, None, None).len();
    let r = s.search_nodes(None, Some(StoreNode::Literal(stranger.clone())), None, None);
    assert!(r.is_empty());
    // the read mutated nothing: the stranger is still unknown, the quads kept
    assert!(s.find_internal_id(&StoreNode::Literal(stranger)).is_err());
    assert_eq!(s.search_engine_internal(None, None, None, None).len(), before);
}

#[test]
fn empty_iter_is_empty() {
    assert!(StorageEngine::empty_iter().is_empty());
}
