use qstore::blank::BlankNode;
use qstore::literal::Literal;
use qstore::{StorageEngine, StoreError, StoreNode};

#[test]
fn find_or_add_is_idempotent() {
    let mut s = StorageEngine::default();
    let lit = Literal::from_string(&mut s, "hello").unwrap();
    let first = s
        .find_or_add_internal_id(StoreNode::Literal(lit.clone()))
        .unwrap();
    let second = s
        .find_or_add_internal_id(StoreNode::Literal(lit.clone()))
        .unwrap();
    assert_eq!(first, second);
    let found = s.find_internal_id(&StoreNode::Literal(lit)).unwrap();
    assert_eq!(first, found);
}

#[test]
fn lookup_returns_the_stored_node() {
    let mut s = StorageEngine::default();
    let lit = Literal::from_string(&mut s, "payload").unwrap();
    let id = s
        .find_or_add_internal_id(StoreNode::Literal(lit.clone()))
        .unwrap();
    match s.lookup_node_by_iid(&id).unwrap() {
        StoreNode::Literal(back) => {
            assert_eq!(back.borrow_lexical_form(), "payload");
            assert!(back.borrow_lang().is_none());
        },
        other => panic!("expected a literal, got {:?}", other),
    }
}

#[test]
fn lookup_unknown_id_is_not_found() {
    let s = StorageEngine::default();
    let bogus = qstore::InternalID(qstore::SixtyFourBitID(42));
    assert!(s.lookup_node_by_iid(&bogus).is_err());
}

#[test]
fn plain_literal_defaults_to_xsd_string() {
    let mut s = StorageEngine::default();
    let lit = Literal::from_string(&mut s, "abc").unwrap();
    assert_eq!(lit.borrow_lexical_form(), "abc");
    assert!(lit.borrow_lang().is_none());
    assert_eq!(
        lit.borrow_datatype_uri().to_string(&s).unwrap(),
        "http://www.w3.org/2001/XMLSchema#string"
    );
}

#[test]
fn lang_literal_uses_lang_string() {
    let mut s = StorageEngine::default();
    let lit = Literal::with_lang(&mut s, "bonjour", "fr").unwrap();
    assert_eq!(lit.borrow_lexical_form(), "bonjour");
    assert_eq!(lit.borrow_lang(), Some("fr"));
    assert_eq!(
        lit.borrow_datatype_uri().to_string(&s).unwrap(),
        "http://www.w3.org/1999/02/22-rdf-syntax-ns#langString"
    );
}

#[test]
fn explicit_lang_string_datatype_is_accepted() {
    let mut s = StorageEngine::default();
    let lit = Literal::new(
        &mut s,
        "hola",
        Some("http://www.w3.org/1999/02/22-rdf-syntax-ns#langString"),
        Some("es"),
    )
    .unwrap();
    assert_eq!(lit.borrow_lang(), Some("es"));
}

#[test]
fn conflicting_datatype_and_lang_is_rejected() {
    let mut s = StorageEngine::default();
    let r = Literal::new(
        &mut s,
        "nope",
        Some("http://www.w3.org/2001/XMLSchema#string"),
        Some("en"),
    );
    assert_eq!(r.unwrap_err(), StoreError::InconsistentLiteral);
}

#[test]
fn custom_datatype_is_interned() {
    let mut s = StorageEngine::default();
    let lit = Literal::new(&mut s, "12", Some("http://www.w3.org/2001/XMLSchema#integer"), None)
        .unwrap();
    assert_eq!(
        lit.borrow_datatype_uri().to_string(&s).unwrap(),
        "http://www.w3.org/2001/XMLSchema#integer"
    );
}

#[test]
fn read_path_literal_requires_known_datatype() {
    let s = StorageEngine::default();
    // xsd:string was never interned in a fresh store
    assert!(Literal::from_string_if_exist(&s, "x").is_err());
}

#[test]
fn read_path_literal_finds_known_datatype() {
    let mut s = StorageEngine::default();
    let _ = Literal::from_string(&mut s, "first").unwrap();
    let lit = Literal::from_string_if_exist(&s, "second").unwrap();
    assert_eq!(lit.borrow_lexical_form(), "second");
    let tagged = Literal::with_lang(&mut s, "x", "de").unwrap();
    let found = Literal::with_lang_if_exist(&s, "x", "de").unwrap();
    assert_eq!(tagged, found);
}

#[test]
fn named_blank_node_round_trips() {
    let mut s = StorageEngine::default();
    let b = BlankNode::new(&mut s, Some("b1")).unwrap();
    assert_eq!(b.lookup_identifier(&s).unwrap(), "b1");
    let found = BlankNode::find_by_idenfier_if_exist(&s, Some("b1")).unwrap();
    assert_eq!(b, found);
}

#[test]
fn fresh_blank_node_gets_a_generated_identifier() {
    let mut s = StorageEngine::default();
    let b = BlankNode::new(&mut s, None).unwrap();
    let ident = b.lookup_identifier(&s).unwrap();
    assert_eq!(ident.chars().count(), 36);
}

#[test]
fn blank_node_lookup_without_identifier_fails() {
    let s = StorageEngine::default();
    assert_eq!(
        BlankNode::find_by_idenfier_if_exist(&s, None),
        Err(StoreError::NotFound)
    );
}

#[test]
fn blank_node_of_unknown_identifier_fails() {
    let mut s = StorageEngine::default();
    let _ = BlankNode::new(&mut s, Some("known")).unwrap();
    assert_eq!(
        BlankNode::find_by_idenfier_if_exist(&s, Some("unknown")),
        Err(StoreError::NotFound)
    );
}

#[test]
fn blank_node_on_a_uri_node_is_unsupported() {
    let mut s = StorageEngine::default();
    let id = s.uri_str_to_internal_id("http://example.org/a#b").unwrap();
    // wrap the URI node's id as if it were a blank node and look it up
    match s.lookup_node_by_iid(&id).unwrap() {
        StoreNode::URIRef(_) => {},
        other => panic!("expected a URI node, got {:?}", other),
    }
}

#[test]
fn uri_node_ids_are_stable() {
    let mut s = StorageEngine::default();
    let a = s.uri_str_to_internal_id("http://example.org/a#b").unwrap();
    let b = s.uri_str_to_internal_id("http://example.org/a#b").unwrap();
    assert_eq!(a, b);
    let c = s.uri_str_to_internal_id("http://example.org/a#c").unwrap();
    assert_ne!(a, c);
}
