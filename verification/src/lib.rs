//! An in-memory quad store for an RDF-like data model.
//!
//! Statements of the form (subject, predicate, object, graph) are ingested,
//! indexed, and retrieved.  A string-interning layer compresses URIs into
//! fixed-width integer pairs and assigns dense numeric identifiers to every
//! node; four lexicographically ordered quad indices answer any of the sixteen
//! pattern-match query shapes with ordered scans and at most one residual
//! filter.

pub mod blank;
pub mod errors;
pub mod identifiers;
pub mod indexed_hash_map;
pub mod indexed_quad_set;
pub mod literal;
pub mod store;
pub mod uri;

pub use errors::StoreError;
pub use identifiers::{InternalID, InternalUriID, SixtyFourBitID, ThirtyTwoBitID};
pub use store::{StorageEngine, StoreNode};
