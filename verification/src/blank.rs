//! Blank nodes: identified by an interned literal whose datatype is the
//! reserved blank-identifier URI.

use vstd::prelude::*;

use crate::errors::StoreError;
use crate::identifiers::{InternalID, InternalUriID};
use crate::literal::{LitView, Literal};
use crate::store::{NodeView, StorageEngine, StoreNode};

verus! {

/// The reserved datatype URI of blank-node identifier literals.
pub open spec fn blank_node_type_uri_spec() -> Seq<char> {
    "http://internal/blank"@
}

/// The reserved datatype URI of blank-node identifier literals.
pub fn blank_node_type_uri() -> (r: &'static str)
    ensures
        r@ == blank_node_type_uri_spec(),
{
    "http://internal/blank"
}

/// The compact URI id under which the store knows the blank-identifier
/// datatype; meaningful only when the store knows that URI.
pub open spec fn blank_type_iid(store: StorageEngine) -> InternalUriID {
    store.interned_uri_id(blank_node_type_uri_spec())
}

/// A blank node: the node id of its identifier literal.
#[derive(Clone, Copy, PartialEq, Eq, Structural, Hash, Debug)]
pub struct BlankNode {
    id: InternalID,
}

impl BlankNode {
    /// The node id of the identifier literal.
    pub closed spec fn id_spec(self) -> InternalID {
        self.id
    }

    /// Two blank nodes with one node id are one blank node.
    pub proof fn lemma_blank_id_injective(a: BlankNode, b: BlankNode)
        ensures
            a.id_spec() == b.id_spec() ==> a == b,
    {
    }

    /// Wraps a node id.
    pub(crate) fn from_internal_id(id: InternalID) -> (r: BlankNode)
        ensures
            r.id_spec() == id,
    {
        BlankNode { id }
    }

    /// Makes a blank node: its identity is an interned literal whose
    /// datatype is the reserved blank-identifier URI and whose lexical form
    /// is the caller's identifier, or a freshly generated one.
    pub fn new(store: &mut StorageEngine, identifier: Option<&str>) -> (r: Result<
        BlankNode,
        StoreError,
    >)
        requires
            old(store).wf(),
        ensures
            final(store).wf(),
            final(store).quads() == old(store).quads(),
            final(store).nodes_grown_from(*old(store)),
            final(store).uris_grown_from(*old(store)),
            old(store).can_intern_uri(blank_node_type_uri_spec()) && !old(
                store,
            ).object_arena().full() ==> r is Ok,
            (identifier matches Some(i) && old(store).knows_uri(blank_node_type_uri_spec()) && old(
                store,
            ).contains_node(
                NodeView::Lit(
                    LitView { lex: i@, data_type: blank_type_iid(*old(store)), lang: None },
                ),
            )) ==> *final(store) == *old(store),
            match r {
                Ok(b) => {
                    &&& final(store).node_live(b.id_spec())
                    &&& final(store).knows_uri(blank_node_type_uri_spec())
                    &&& final(store).node_at(b.id_spec()) matches NodeView::Lit(lv)
                        && lv.lang is None && lv.data_type == blank_type_iid(*final(store)) && (
                    identifier matches Some(i) ==> lv.lex == i@) && (identifier is None
                        ==> lv.lex.len() == 36) && final(store).uri_live(lv.data_type)
                        && final(store).materialize_spec(lv.data_type)
                        == blank_node_type_uri_spec()
                    &&& b.id_spec().id_spec() == final(store).node_id_of(
                        final(store).node_at(b.id_spec()),
                    )
                },
                Err(e) => e == StoreError::Overflow,
            },
    {
        proof {
            reveal_strlit("http://internal/blank");
            assert(blank_node_type_uri_spec()[15] == '/');
            assert(blank_node_type_uri_spec().contains('/'));
        }
        let lit = match identifier {
            Some(i) => {
                match Literal::new(store, i, Some(blank_node_type_uri()), None) {
                    Ok(l) => l,
                    Err(e) => {
                        return Err(e);
                    },
                }
            },
            None => {
                let new_identifier = fresh_identifier();
                match Literal::new(
                    store,
                    new_identifier.as_str(),
                    Some(blank_node_type_uri()),
                    None,
                ) {
                    Ok(l) => l,
                    Err(e) => {
                        return Err(e);
                    },
                }
            },
        };
        let internal_id = match store.find_or_add_internal_id(StoreNode::Literal(lit)) {
            Ok(id) => id,
            Err(e) => {
                return Err(e);
            },
        };
        Ok(BlankNode { id: internal_id })
    }

    /// Finds the blank node of an existing identifier literal, without
    /// mutating the store.
    pub fn find_by_idenfier_if_exist(store: &StorageEngine, identifier: Option<&str>) -> (r:
        Result<BlankNode, StoreError>)
        requires
            store.wf(),
        ensures
            r is Ok <==> (identifier matches Some(i) && store.knows_uri(
                blank_node_type_uri_spec(),
            ) && store.contains_node(
                NodeView::Lit(
                    LitView { lex: i@, data_type: blank_type_iid(*store), lang: None },
                ),
            )),
            match r {
                Ok(b) => {
                    &&& store.node_live(b.id_spec())
                    &&& identifier matches Some(i) && store.node_at(b.id_spec())
                        == NodeView::Lit(
                        LitView { lex: i@, data_type: blank_type_iid(*store), lang: None },
                    )
                },
                Err(e) => e == StoreError::NotFound,
            },
    {
        proof {
            reveal_strlit("http://internal/blank");
            assert(blank_node_type_uri_spec()[15] == '/');
            assert(blank_node_type_uri_spec().contains('/'));
        }
        let lit = match identifier {
            Some(i) => {
                match Literal::construct_if_exist(store, i, Some(blank_node_type_uri()), None) {
                    Ok(l) => l,
                    Err(_) => {
                        return Err(StoreError::NotFound);
                    },
                }
            },
            None => {
                return Err(StoreError::NotFound);
            },
        };
        let internal_id = match store.find_internal_id(&StoreNode::Literal(lit)) {
            Ok(id) => id,
            Err(_) => {
                return Err(StoreError::NotFound);
            },
        };
        Ok(BlankNode { id: internal_id })
    }

    /// The identifier of this blank node: the lexical form of its literal.
    /// A blank node whose id names a URI reference or another blank node has
    /// an unsupported shape.
    pub fn lookup_identifier<'a>(&self, store: &'a StorageEngine) -> (r: Result<
        &'a str,
        StoreError,
    >)
        requires
            store.wf(),
        ensures
            r is Ok <==> store.node_live(self.id_spec()) && store.node_at(self.id_spec()) is Lit,
            match r {
                Ok(s) => store.node_at(self.id_spec()) matches NodeView::Lit(lv) && s@ == lv.lex,
                Err(e) => if store.node_live(self.id_spec()) {
                    e == StoreError::UnsupportedShape
                } else {
                    e == StoreError::NotFound
                },
            },
    {
        match store.lookup_node_by_iid(&self.id) {
            Ok(node) => {
                match node {
                    StoreNode::Literal(lit) => Ok(lit.borrow_lexical_form()),
                    StoreNode::URIRef(_) => Err(StoreError::UnsupportedShape),
                    StoreNode::Blank(_) => Err(StoreError::UnsupportedShape),
                }
            },
            Err(_) => Err(StoreError::NotFound),
        }
    }
}

/// Relies on `uuid::Uuid::new_v4` and its `Display` form: a fresh random
/// identifier, rendered as the 36-character hyphenated form.  Nothing more is
/// promised of a random value.
#[verifier::external_body]
fn fresh_identifier() -> (r: String)
    ensures
        r@.len() == 36,
{
    uuid::Uuid::new_v4().to_string()
}

} // verus!
