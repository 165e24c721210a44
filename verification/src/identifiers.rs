//! Dense numeric identifiers handed out by the id arenas.
//!
//! Two widths exist: 32-bit ids (URI prefix and suffix arenas) and 64-bit ids
//! (the node table).  `InternalUriID` pairs two 32-bit ids into a compact URI
//! id, and `InternalID` wraps a 64-bit id into the store-wide node id.

use vstd::prelude::*;

verus! {

/// A dense 32-bit identifier.
#[derive(Clone, Copy, PartialEq, Eq, Structural, Hash, Debug)]
pub struct ThirtyTwoBitID(pub u32);

/// A dense 64-bit identifier.
#[derive(Clone, Copy, PartialEq, Eq, Structural, Hash, Debug)]
pub struct SixtyFourBitID(pub u64);

/// A compact URI id: a prefix-arena id paired with a suffix-arena id.
#[derive(Clone, Copy, PartialEq, Eq, Structural, Hash, Debug)]
pub struct InternalUriID(pub ThirtyTwoBitID, pub ThirtyTwoBitID);

/// A store-wide node id, as assigned by the node table.
#[derive(Clone, Copy, PartialEq, Eq, Structural, Hash, Debug)]
pub struct InternalID(pub SixtyFourBitID);

impl ThirtyTwoBitID {
    pub open spec fn id_spec(self) -> int {
        self.0 as int
    }

    pub fn min_value() -> (r: Self)
        ensures
            r.id_spec() == 0,
    {
        ThirtyTwoBitID(0)
    }

    pub fn max_value() -> (r: Self)
        ensures
            r.id_spec() == u32::MAX,
    {
        ThirtyTwoBitID(u32::MAX)
    }
}

impl SixtyFourBitID {
    pub open spec fn id_spec(self) -> int {
        self.0 as int
    }

    pub fn min_value() -> (r: Self)
        ensures
            r.id_spec() == 0,
    {
        SixtyFourBitID(0)
    }

    pub fn max_value() -> (r: Self)
        ensures
            r.id_spec() == u64::MAX,
    {
        SixtyFourBitID(u64::MAX)
    }
}

impl InternalID {
    pub open spec fn id_spec(self) -> int {
        self.0.id_spec()
    }

    pub fn min_value() -> (r: Self)
        ensures
            r.id_spec() == 0,
    {
        InternalID(SixtyFourBitID::min_value())
    }

    pub fn max_value() -> (r: Self)
        ensures
            r.id_spec() == u64::MAX,
    {
        InternalID(SixtyFourBitID::max_value())
    }
}

/// An id type that can index a dense arena: it converts to and from a vector
/// index, as far as the machine word allows.
pub trait IndexedID: Sized + Clone + Copy {
    /// The numeric value of this id.
    spec fn id_spec(self) -> int;

    /// The largest value this id type can hold.
    spec fn max_id() -> int;

    proof fn lemma_max_id_in_range()
        ensures
            0 <= Self::max_id();

    /// The vector index of this id, when it fits the machine word.
    fn index(&self) -> (r: usize)
        requires
            self.id_spec() <= usize::MAX,
        ensures
            r as int == self.id_spec();

    /// The vector index of this id, or `None` when it does not fit the
    /// machine word.
    fn try_index(&self) -> (r: Option<usize>)
        ensures
            match r {
                Some(u) => u as int == self.id_spec(),
                None => self.id_spec() > usize::MAX,
            };

    /// Whether index `i` is still addressable by this id type.
    fn fits(i: usize) -> (r: bool)
        ensures
            r == (i as int <= Self::max_id());

    /// The id with value `i`.
    fn from_index(i: usize) -> (r: Self)
        requires
            i as int <= Self::max_id(),
        ensures
            r.id_spec() == i as int;
}

impl IndexedID for ThirtyTwoBitID {
    open spec fn id_spec(self) -> int {
        self.0 as int
    }

    open spec fn max_id() -> int {
        u32::MAX as int
    }

    proof fn lemma_max_id_in_range() {
    }

    fn index(&self) -> (r: usize) {
        self.0 as usize
    }

    fn try_index(&self) -> (r: Option<usize>) {
        Some(self.0 as usize)
    }

    fn fits(i: usize) -> (r: bool) {
        i <= u32::MAX as usize
    }

    fn from_index(i: usize) -> (r: Self) {
        ThirtyTwoBitID(i as u32)
    }
}

impl IndexedID for SixtyFourBitID {
    open spec fn id_spec(self) -> int {
        self.0 as int
    }

    open spec fn max_id() -> int {
        u64::MAX as int
    }

    proof fn lemma_max_id_in_range() {
    }

    fn index(&self) -> (r: usize) {
        self.0 as usize
    }

    fn try_index(&self) -> (r: Option<usize>) {
        if self.0 <= usize::MAX as u64 {
            Some(self.0 as usize)
        } else {
            None
        }
    }

    fn fits(i: usize) -> (r: bool) {
        let _ = i;
        true
    }

    fn from_index(i: usize) -> (r: Self) {
        SixtyFourBitID(i as u64)
    }
}

} // verus!
