//! The error kinds the store surfaces.

use vstd::prelude::*;

verus! {

/// What can go wrong in the store.
///
/// Read paths never fail for missing data at the query level; `NotFound` is
/// surfaced only by id-level lookups.  Write paths fail only on malformed
/// input or genuine resource exhaustion.
#[derive(Clone, Copy, PartialEq, Eq, Structural, Debug)]
pub enum StoreError {
    /// A URI with neither `#` nor `/` cannot be interned.
    MalformedUri,
    /// An id arena has exhausted its id space.
    Overflow,
    /// An id-level lookup found no occupant.
    NotFound,
    /// A literal was given both a non-langString datatype and a lang tag.
    InconsistentLiteral,
    /// A node had a shape the operation does not support.
    UnsupportedShape,
}

} // verus!
