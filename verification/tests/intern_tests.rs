use qstore::uri::RDFUri;
use qstore::{StorageEngine, StoreError};

#[test]
fn intern_round_trip_hash() {
    let mut s = StorageEngine::default();
    let u = "http://default.com/third#test";
    let id = s.uri_to_internal_uri_id(u).unwrap();
    assert_eq!(s.internal_uri_id_to_uri(&id).unwrap(), u);
}

#[test]
fn intern_round_trip_slash_only() {
    let mut s = StorageEngine::default();
    for u in [
        "http://default.org/graph",
        "http://default.com/testtwo",
        "http://default.com/another/test",
        "http://default.com/third#test",
    ] {
        let id = s.uri_to_internal_uri_id(u).unwrap();
        assert_eq!(s.internal_uri_id_to_uri(&id).unwrap(), u);
    }
}

#[test]
fn prefix_reuse_on_shared_namespace() {
    let mut s = StorageEngine::default();
    let first = s.uri_to_internal_uri_id("http://default.com/third#test").unwrap();
    let second = s.uri_to_internal_uri_id("http://default.com/third#other").unwrap();
    // the sentinel's parts occupy slot 0; the split is at the last '#', so
    // the second intern reuses the prefix id and allocates a fresh suffix id
    assert_eq!(first, qstore::InternalUriID(qstore::ThirtyTwoBitID(1), qstore::ThirtyTwoBitID(1)));
    assert_eq!(second, qstore::InternalUriID(qstore::ThirtyTwoBitID(1), qstore::ThirtyTwoBitID(2)));
    assert_eq!(first.0, second.0);
    assert_ne!(first.1, second.1);
    assert_eq!(
        s.internal_uri_id_to_uri(&first).unwrap(),
        "http://default.com/third#test"
    );
    assert_eq!(
        s.internal_uri_id_to_uri(&second).unwrap(),
        "http://default.com/third#other"
    );
}

#[test]
fn interning_is_idempotent() {
    let mut s = StorageEngine::default();
    let a = s.uri_to_internal_uri_id("http://example.org/a#b").unwrap();
    let b = s.uri_to_internal_uri_id("http://example.org/a#b").unwrap();
    assert_eq!(a, b);
}

#[test]
fn malformed_uri_is_rejected() {
    let mut s = StorageEngine::default();
    assert_eq!(s.uri_to_internal_uri_id("nosep"), Err(StoreError::MalformedUri));
    assert_eq!(
        s.uri_to_internal_uri_id_if_exist("nosep"),
        Err(StoreError::MalformedUri)
    );
}

#[test]
fn read_path_does_not_intern() {
    let s = StorageEngine::default();
    assert_eq!(
        s.uri_to_internal_uri_id_if_exist("http://unseen.org/x#y"),
        Err(StoreError::NotFound)
    );
}

#[test]
fn read_path_finds_interned() {
    let mut s = StorageEngine::default();
    let written = s.uri_to_internal_uri_id("http://seen.org/x#y").unwrap();
    let read = s.uri_to_internal_uri_id_if_exist("http://seen.org/x#y").unwrap();
    assert_eq!(written, read);
}

#[test]
fn default_graph_uri_is_interned_first() {
    let s = StorageEngine::default();
    let id = s
        .uri_to_internal_uri_id_if_exist("http://internal/graph")
        .unwrap();
    assert_eq!(id.0 .0, 0);
    assert_eq!(id.1 .0, 0);
    assert_eq!(s.internal_uri_id_to_uri(&id).unwrap(), "http://internal/graph");
}

#[test]
fn earlier_ids_survive_later_interning() {
    let mut s = StorageEngine::default();
    let first = s.uri_to_internal_uri_id("http://one.org/a#b").unwrap();
    let second = s.uri_to_internal_uri_id("http://two.org/c/d").unwrap();
    let third = s.uri_to_internal_uri_id("http://one.org/a#z").unwrap();
    assert_eq!(s.internal_uri_id_to_uri(&first).unwrap(), "http://one.org/a#b");
    assert_eq!(s.internal_uri_id_to_uri(&second).unwrap(), "http://two.org/c/d");
    assert_eq!(s.internal_uri_id_to_uri(&third).unwrap(), "http://one.org/a#z");
}

#[test]
fn default_graph_node_has_id_zero() {
    let mut s = StorageEngine::default();
    let id = s.uri_str_to_internal_id("http://internal/graph").unwrap();
    assert_eq!(id, qstore::InternalID(qstore::SixtyFourBitID(0)));
}

#[test]
fn rdfuri_wraps_interning() {
    let mut s = StorageEngine::default();
    let u = RDFUri::from_string(&mut s, "http://example.org/ns#name").unwrap();
    assert_eq!(u.to_string(&s).unwrap(), "http://example.org/ns#name");
    let again = RDFUri::from_string_if_exist(&s, "http://example.org/ns#name").unwrap();
    assert_eq!(u, again);
    assert!(RDFUri::from_string_if_exist(&s, "http://example.org/ns#other").is_err());
    assert_eq!(
        RDFUri::from_string(&mut s, "plain"),
        Err(StoreError::MalformedUri)
    );
}

#[test]
fn materialize_unknown_id_is_not_found() {
    let s = StorageEngine::default();
    let bogus = qstore::InternalUriID(qstore::ThirtyTwoBitID(7), qstore::ThirtyTwoBitID(7));
    assert_eq!(s.internal_uri_id_to_uri(&bogus), Err(StoreError::NotFound));
}
