//! URI references, held as compact URI ids.

use vstd::prelude::*;

use crate::errors::StoreError;
use crate::identifiers::InternalUriID;
use crate::store::StorageEngine;

verus! {

/// A URI reference: a compact URI id into the store's prefix and suffix
/// arenas.
#[derive(Clone, Copy, PartialEq, Eq, Structural, Hash, Debug)]
pub struct RDFUri {
    id: InternalUriID,
}

/// Two URI references with one compact id are one reference.
pub proof fn lemma_rdfuri_id_injective(a: RDFUri, b: RDFUri)
    ensures
        a.id_spec() == b.id_spec() ==> a == b,
{
}

impl RDFUri {
    /// The compact URI id.
    pub closed spec fn id_spec(self) -> InternalUriID {
        self.id
    }

    /// Wraps an already-compacted URI id.
    pub fn from_iuid(iid: InternalUriID) -> (r: RDFUri)
        ensures
            r.id_spec() == iid,
    {
        RDFUri { id: iid }
    }

    /// Interns `uri_string` (write path) and wraps the resulting compact id.
    pub fn from_string(store: &mut StorageEngine, uri_string: &str) -> (r: Result<
        RDFUri,
        StoreError,
    >)
        requires
            old(store).wf(),
        ensures
            final(store).wf(),
            final(store).same_nodes_and_quads(*old(store)),
            final(store).uris_grown_from(*old(store)),
            r is Ok <==> old(store).can_intern_uri(uri_string@),
            old(store).knows_uri(uri_string@) ==> *final(store) == *old(store),
            match r {
                Ok(u) => {
                    &&& final(store).uri_live(u.id_spec())
                    &&& final(store).materialize_spec(u.id_spec()) == uri_string@
                    &&& final(store).knows_uri(uri_string@)
                    &&& u.id_spec() == final(store).interned_uri_id(uri_string@)
                    &&& final(store).prefix_arena().key_at(u.id_spec().0.id_spec())
                        == crate::store::prefix_of(uri_string@)
                    &&& final(store).suffix_arena().key_at(u.id_spec().1.id_spec())
                        == crate::store::suffix_of(uri_string@)
                    &&& final(store).prefix_arena().grown_by(
                        old(store).prefix_arena(),
                        crate::store::prefix_of(uri_string@),
                        u.id_spec().0.id_spec(),
                    )
                    &&& final(store).suffix_arena().grown_by(
                        old(store).suffix_arena(),
                        crate::store::suffix_of(uri_string@),
                        u.id_spec().1.id_spec(),
                    )
                },
                Err(e) => {
                    &&& e == StoreError::MalformedUri || e == StoreError::Overflow
                    &&& (e == StoreError::MalformedUri <==> !crate::store::has_sep(uri_string@))
                    &&& e == StoreError::MalformedUri ==> *final(store) == *old(store)
                },
            },
    {
        match store.uri_to_internal_uri_id(uri_string) {
            Ok(iid) => Ok(RDFUri { id: iid }),
            Err(e) => Err(e),
        }
    }

    /// Looks `uri_string` up (read path) without interning anything.
    pub fn from_string_if_exist(store: &StorageEngine, uri_string: &str) -> (r: Result<
        RDFUri,
        StoreError,
    >)
        requires
            store.wf(),
        ensures
            r is Ok <==> store.knows_uri(uri_string@),
            match r {
                Ok(u) => {
                    &&& store.uri_live(u.id_spec())
                    &&& store.materialize_spec(u.id_spec()) == uri_string@
                    &&& u.id_spec() == store.interned_uri_id(uri_string@)
                    &&& store.prefix_arena().key_at(u.id_spec().0.id_spec())
                        == crate::store::prefix_of(uri_string@)
                    &&& store.suffix_arena().key_at(u.id_spec().1.id_spec())
                        == crate::store::suffix_of(uri_string@)
                },
                Err(e) => {
                    &&& e == StoreError::MalformedUri || e == StoreError::NotFound
                    &&& (e == StoreError::MalformedUri <==> !crate::store::has_sep(uri_string@))
                },
            },
    {
        match store.uri_to_internal_uri_id_if_exist(uri_string) {
            Ok(iid) => Ok(RDFUri { id: iid }),
            Err(e) => Err(e),
        }
    }

    /// Recovers the full URI string: prefix concatenated with suffix.
    pub fn to_string(&self, store: &StorageEngine) -> (r: Result<String, StoreError>)
        requires
            store.wf(),
        ensures
            r is Ok <==> store.uri_live(self.id_spec()),
            match r {
                Ok(s) => s@ == store.materialize_spec(self.id_spec()),
                Err(e) => e == StoreError::NotFound,
            },
    {
        store.internal_uri_id_to_uri(&self.id)
    }
}

} // verus!
