//! The quad indices: ordered sets of four-component keys.
//!
//! Four key orders exist — SPOG, GSPO, POSG and OSPG — all storing the same
//! logical quads.  Each index is a strictly sorted vector of keys and answers
//! prefix-range scans of zero to three fixed leading components, plus exact
//! membership.

use core::marker::PhantomData;

use vstd::prelude::*;

use crate::identifiers::{InternalID, SixtyFourBitID};
use crate::store::{GraphID, ObjectID, PredicateID, StoreQuad, SubjectID};

verus! {

/// An index entry: the four quad components in the index's own order.
pub type IndexKey = (u64, u64, u64, u64);

/// Strict lexicographic order on index keys.
pub open spec fn key_lt(x: IndexKey, y: IndexKey) -> bool {
    ||| x.0 < y.0
    ||| (x.0 == y.0 && x.1 < y.1)
    ||| (x.0 == y.0 && x.1 == y.1 && x.2 < y.2)
    ||| (x.0 == y.0 && x.1 == y.1 && x.2 == y.2 && x.3 < y.3)
}

/// Strictly ascending: sorted and free of duplicates.
pub open spec fn sorted_keys(s: Seq<IndexKey>) -> bool {
    forall|i: int, j: int| 0 <= i < j < s.len() ==> key_lt(#[trigger] s[i], #[trigger] s[j])
}

/// `key_lt` is a strict total order.
pub proof fn lemma_key_lt_strict_total(x: IndexKey, y: IndexKey, z: IndexKey)
    ensures
        key_lt(x, y) || key_lt(y, x) || x == y,
        key_lt(x, y) ==> !key_lt(y, x) && x != y,
        key_lt(x, y) && key_lt(y, z) ==> key_lt(x, z),
{
}

/// A key order: a permutation between logical quads and index keys.
pub trait IndexOrder: Sized + Clone + Copy {
    /// The key that stands for quad `q` in this index.
    spec fn key_of_quad(q: StoreQuad) -> IndexKey;

    /// The quad a key of this index stands for.
    spec fn quad_of_key(k: IndexKey) -> StoreQuad;

    /// The two permutations are mutually inverse.
    proof fn lemma_quad_key_inverse(q: StoreQuad, k: IndexKey)
        ensures
            Self::quad_of_key(Self::key_of_quad(q)) == q,
            Self::key_of_quad(Self::quad_of_key(k)) == k;

    /// This entry's key.
    spec fn key_spec(self) -> IndexKey;

    /// The entry for the quad `(g, s, p, o)`.
    fn build_from_quad(g: &GraphID, s: &SubjectID, p: &PredicateID, o: &ObjectID) -> (r: Self)
        ensures
            r.key_spec() == Self::key_of_quad((*g, *s, *p, *o));

    /// The key of this entry.
    fn key_parts(&self) -> (r: IndexKey)
        ensures
            r == self.key_spec();

    /// The quad a key stands for, as id values.
    fn quad_of_parts(k: IndexKey) -> (r: StoreQuad)
        ensures
            r == Self::quad_of_key(k);
}

/// Subject, predicate, object, graph.
#[derive(Clone, Copy, PartialEq, Eq, Structural, Debug)]
pub struct SPOG(pub SubjectID, pub PredicateID, pub ObjectID, pub GraphID);

impl IndexOrder for SPOG {
    open spec fn key_of_quad(q: StoreQuad) -> IndexKey {
        (q.1.0.0, q.2.0.0, q.3.0.0, q.0.0.0)
    }

    open spec fn quad_of_key(k: IndexKey) -> StoreQuad {
        (
            InternalID(SixtyFourBitID(k.3)),
            InternalID(SixtyFourBitID(k.0)),
            InternalID(SixtyFourBitID(k.1)),
            InternalID(SixtyFourBitID(k.2)),
        )
    }

    proof fn lemma_quad_key_inverse(q: StoreQuad, k: IndexKey) {
    }

    open spec fn key_spec(self) -> IndexKey {
        (self.0.0.0, self.1.0.0, self.2.0.0, self.3.0.0)
    }

    fn build_from_quad(g: &GraphID, s: &SubjectID, p: &PredicateID, o: &ObjectID) -> (r: Self) {
        SPOG(*s, *p, *o, *g)
    }

    fn key_parts(&self) -> (r: IndexKey) {
        (self.0.0.0, self.1.0.0, self.2.0.0, self.3.0.0)
    }

    fn quad_of_parts(k: IndexKey) -> (r: StoreQuad) {
        (
            InternalID(SixtyFourBitID(k.3)),
            InternalID(SixtyFourBitID(k.0)),
            InternalID(SixtyFourBitID(k.1)),
            InternalID(SixtyFourBitID(k.2)),
        )
    }
}

/// Graph, subject, predicate, object.
#[derive(Clone, Copy, PartialEq, Eq, Structural, Debug)]
pub struct GSPO(pub GraphID, pub SubjectID, pub PredicateID, pub ObjectID);

impl IndexOrder for GSPO {
    open spec fn key_of_quad(q: StoreQuad) -> IndexKey {
        (q.0.0.0, q.1.0.0, q.2.0.0, q.3.0.0)
    }

    open spec fn quad_of_key(k: IndexKey) -> StoreQuad {
        (
            InternalID(SixtyFourBitID(k.0)),
            InternalID(SixtyFourBitID(k.1)),
            InternalID(SixtyFourBitID(k.2)),
            InternalID(SixtyFourBitID(k.3)),
        )
    }

    proof fn lemma_quad_key_inverse(q: StoreQuad, k: IndexKey) {
    }

    open spec fn key_spec(self) -> IndexKey {
        (self.0.0.0, self.1.0.0, self.2.0.0, self.3.0.0)
    }

    fn build_from_quad(g: &GraphID, s: &SubjectID, p: &PredicateID, o: &ObjectID) -> (r: Self) {
        GSPO(*g, *s, *p, *o)
    }

    fn key_parts(&self) -> (r: IndexKey) {
        (self.0.0.0, self.1.0.0, self.2.0.0, self.3.0.0)
    }

    fn quad_of_parts(k: IndexKey) -> (r: StoreQuad) {
        (
            InternalID(SixtyFourBitID(k.0)),
            InternalID(SixtyFourBitID(k.1)),
            InternalID(SixtyFourBitID(k.2)),
            InternalID(SixtyFourBitID(k.3)),
        )
    }
}

/// Predicate, object, subject, graph.
#[derive(Clone, Copy, PartialEq, Eq, Structural, Debug)]
pub struct POSG(pub PredicateID, pub ObjectID, pub SubjectID, pub GraphID);

impl IndexOrder for POSG {
    open spec fn key_of_quad(q: StoreQuad) -> IndexKey {
        (q.2.0.0, q.3.0.0, q.1.0.0, q.0.0.0)
    }

    open spec fn quad_of_key(k: IndexKey) -> StoreQuad {
        (
            InternalID(SixtyFourBitID(k.3)),
            InternalID(SixtyFourBitID(k.2)),
            InternalID(SixtyFourBitID(k.0)),
            InternalID(SixtyFourBitID(k.1)),
        )
    }

    proof fn lemma_quad_key_inverse(q: StoreQuad, k: IndexKey) {
    }

    open spec fn key_spec(self) -> IndexKey {
        (self.0.0.0, self.1.0.0, self.2.0.0, self.3.0.0)
    }

    fn build_from_quad(g: &GraphID, s: &SubjectID, p: &PredicateID, o: &ObjectID) -> (r: Self) {
        POSG(*p, *o, *s, *g)
    }

    fn key_parts(&self) -> (r: IndexKey) {
        (self.0.0.0, self.1.0.0, self.2.0.0, self.3.0.0)
    }

    fn quad_of_parts(k: IndexKey) -> (r: StoreQuad) {
        (
            InternalID(SixtyFourBitID(k.3)),
            InternalID(SixtyFourBitID(k.2)),
            InternalID(SixtyFourBitID(k.0)),
            InternalID(SixtyFourBitID(k.1)),
        )
    }
}

/// Object, subject, predicate, graph.
#[derive(Clone, Copy, PartialEq, Eq, Structural, Debug)]
pub struct OSPG(pub ObjectID, pub SubjectID, pub PredicateID, pub GraphID);

impl IndexOrder for OSPG {
    open spec fn key_of_quad(q: StoreQuad) -> IndexKey {
        (q.3.0.0, q.1.0.0, q.2.0.0, q.0.0.0)
    }

    open spec fn quad_of_key(k: IndexKey) -> StoreQuad {
        (
            InternalID(SixtyFourBitID(k.3)),
            InternalID(SixtyFourBitID(k.1)),
            InternalID(SixtyFourBitID(k.2)),
            InternalID(SixtyFourBitID(k.0)),
        )
    }

    proof fn lemma_quad_key_inverse(q: StoreQuad, k: IndexKey) {
    }

    open spec fn key_spec(self) -> IndexKey {
        (self.0.0.0, self.1.0.0, self.2.0.0, self.3.0.0)
    }

    fn build_from_quad(g: &GraphID, s: &SubjectID, p: &PredicateID, o: &ObjectID) -> (r: Self) {
        OSPG(*o, *s, *p, *g)
    }

    fn key_parts(&self) -> (r: IndexKey) {
        (self.0.0.0, self.1.0.0, self.2.0.0, self.3.0.0)
    }

    fn quad_of_parts(k: IndexKey) -> (r: StoreQuad) {
        (
            InternalID(SixtyFourBitID(k.3)),
            InternalID(SixtyFourBitID(k.1)),
            InternalID(SixtyFourBitID(k.2)),
            InternalID(SixtyFourBitID(k.0)),
        )
    }
}

/// Matches keys whose first component is `a`.
pub open spec fn prefix_one(a: u64) -> spec_fn(IndexKey) -> bool {
    |k: IndexKey| k.0 == a
}

/// Matches keys whose first two components are `a, b`.
pub open spec fn prefix_two(a: u64, b: u64) -> spec_fn(IndexKey) -> bool {
    |k: IndexKey| k.0 == a && k.1 == b
}

/// Matches keys whose first three components are `a, b, c`.
pub open spec fn prefix_three(a: u64, b: u64, c: u64) -> spec_fn(IndexKey) -> bool {
    |k: IndexKey| k.0 == a && k.1 == b && k.2 == c
}

/// The key-to-quad permutation of the order `Q`, as a mapper.
pub open spec fn quad_mapper<Q: IndexOrder>() -> spec_fn(IndexKey) -> StoreQuad {
    |k: IndexKey| Q::quad_of_key(k)
}

fn key_lt_exec(x: &IndexKey, y: &IndexKey) -> (r: bool)
    ensures
        r == key_lt(*x, *y),
{
    if x.0 != y.0 {
        x.0 < y.0
    } else if x.1 != y.1 {
        x.1 < y.1
    } else if x.2 != y.2 {
        x.2 < y.2
    } else {
        x.3 < y.3
    }
}

fn key_eq_exec(x: &IndexKey, y: &IndexKey) -> (r: bool)
    ensures
        r == (*x == *y),
{
    x.0 == y.0 && x.1 == y.1 && x.2 == y.2 && x.3 == y.3
}

/// One quad index: a strictly sorted vector of keys in the order `Q`.
pub struct IndexedQuadSet<Q: IndexOrder> {
    entries: Vec<IndexKey>,
    order: PhantomData<Q>,
}

impl<Q: IndexOrder> IndexedQuadSet<Q> {
    /// The keys, in index order.
    pub closed spec fn keys(self) -> Seq<IndexKey> {
        self.entries@
    }

    /// The keys as a set.
    pub open spec fn key_set(self) -> Set<IndexKey> {
        self.keys().to_set()
    }

    /// The logical quads this index holds.
    pub open spec fn quads(self) -> Set<StoreQuad> {
        self.key_set().map(|k: IndexKey| Q::quad_of_key(k))
    }

    /// The index invariant: keys are strictly sorted.
    pub open spec fn wf(self) -> bool {
        sorted_keys(self.keys())
    }

    /// Inserts the entry; returns whether it was newly inserted.
    pub fn add_entry(&mut self, entry: Q) -> (r: bool)
        requires
            old(self).wf(),
        ensures
            final(self).wf(),
            final(self).key_set() == old(self).key_set().insert(entry.key_spec()),
            r == !old(self).key_set().contains(entry.key_spec()),
            !r ==> *final(self) == *old(self),
    {
        let k = entry.key_parts();
        let n = self.entries.len();
        let mut i: usize = 0;
        while i < n && key_lt_exec(&self.entries[i], &k)
            invariant
                0 <= i <= n,
                n == self.entries@.len(),
                forall|j: int| 0 <= j < i ==> key_lt(#[trigger] self.entries@[j], k),
            decreases n - i,
        {
            i += 1;
        }
        if i < n && key_eq_exec(&self.entries[i], &k) {
            proof {
                assert(old(self).keys().contains(k));
                assert(old(self).key_set() =~= old(self).key_set().insert(k));
            }
            false
        } else {
            proof {
                self.lemma_absent(k, i as int);
            }
            self.entries.insert(i, k);
            proof {
                self.lemma_insert_shape(*old(self), k, i as int);
            }
            true
        }
    }

    /// In a sorted vector, a key that is neither passed over nor at the scan
    /// frontier is absent.
    proof fn lemma_absent(self, k: IndexKey, i: int)
        requires
            self.wf(),
            0 <= i <= self.keys().len(),
            forall|j: int| 0 <= j < i ==> key_lt(#[trigger] self.keys()[j], k),
            i < self.keys().len() ==> !key_lt(self.keys()[i], k) && self.keys()[i] != k,
        ensures
            !self.key_set().contains(k),
            forall|j: int| i <= j < self.keys().len() ==> key_lt(k, #[trigger] self.keys()[j]),
    {
        assert forall|j: int| i <= j < self.keys().len() implies key_lt(
            k,
            #[trigger] self.keys()[j],
        ) by {
            lemma_key_lt_strict_total(self.keys()[i], k, k);
            if j > i {
                assert(key_lt(self.keys()[i], self.keys()[j]));
                lemma_key_lt_strict_total(k, self.keys()[i], self.keys()[j]);
            }
        }
        assert forall|j: int| 0 <= j < self.keys().len() implies self.keys()[j] != k by {
            if j < i {
                lemma_key_lt_strict_total(self.keys()[j], k, k);
            } else {
                lemma_key_lt_strict_total(k, self.keys()[j], k);
            }
        }
    }

    proof fn lemma_insert_shape(self, prev: Self, k: IndexKey, i: int)
        requires
            prev.wf(),
            0 <= i <= prev.keys().len(),
            forall|j: int| 0 <= j < i ==> key_lt(#[trigger] prev.keys()[j], k),
            forall|j: int| i <= j < prev.keys().len() ==> key_lt(k, #[trigger] prev.keys()[j]),
            self.keys() == prev.keys().insert(i, k),
        ensures
            self.wf(),
            self.key_set() == prev.key_set().insert(k),
    {
        prev.keys().insert_ensures(i, k);
        assert forall|a: int, b: int| 0 <= a < b < self.keys().len() implies key_lt(
            #[trigger] self.keys()[a],
            #[trigger] self.keys()[b],
        ) by {
            if a < i && b < i {
            } else if a < i && b == i {
            } else if a == i && b > i {
            } else if a < i && b > i {
                lemma_key_lt_strict_total(self.keys()[a], k, self.keys()[b]);
                lemma_key_lt_strict_total(k, self.keys()[b], k);
                lemma_key_lt_strict_total(self.keys()[a], k, self.keys()[b]);
            } else {
            }
        }
        assert forall|x: IndexKey| self.keys().contains(x) implies prev.keys().contains(x) || x
            == k by {
            let j = choose|j: int| 0 <= j < self.keys().len() && self.keys()[j] == x;
            if j < i {
                assert(prev.keys()[j] == x);
            } else if j > i {
                assert(prev.keys()[j - 1] == x);
            }
        }
        assert forall|x: IndexKey| prev.keys().contains(x) implies self.keys().contains(x) by {
            let j = choose|j: int| 0 <= j < prev.keys().len() && prev.keys()[j] == x;
            if j < i {
                assert(self.keys()[j] == x);
            } else {
                assert(self.keys()[j + 1] == x);
            }
        }
        assert(self.keys().contains(k)) by {
            assert(self.keys()[i] == k);
        }
        assert(self.key_set() =~= prev.key_set().insert(k));
    }

    /// Removes the entry; returns whether it was present.
    #[verifier::loop_isolation(false)]
    pub fn remove_entry(&mut self, entry: &Q) -> (r: bool)
        requires
            old(self).wf(),
        ensures
            final(self).wf(),
            final(self).key_set() == old(self).key_set().remove(entry.key_spec()),
            r == old(self).key_set().contains(entry.key_spec()),
            !r ==> *final(self) == *old(self),
    {
        let k = entry.key_parts();
        let n = self.entries.len();
        let mut i: usize = 0;
        while i < n
            invariant
                0 <= i <= n,
                *self == *old(self),
                forall|j: int| 0 <= j < i ==> self.entries@[j] != k,
            decreases n - i,
        {
            if key_eq_exec(&self.entries[i], &k) {
                let _ = self.entries.remove(i);
                proof {
                    self.lemma_remove_shape(*old(self), k, i as int);
                }
                return true;
            }
            i += 1;
        }
        proof {
            assert(!old(self).keys().contains(k)) by {
                if old(self).keys().contains(k) {
                    let j = choose|j: int|
                        0 <= j < old(self).keys().len() && old(self).keys()[j] == k;
                    assert(self.entries@[j] != k);
                }
            }
            assert(old(self).key_set() =~= old(self).key_set().remove(k));
        }
        false
    }

    proof fn lemma_remove_shape(self, prev: Self, k: IndexKey, i: int)
        requires
            prev.wf(),
            0 <= i < prev.keys().len(),
            prev.keys()[i] == k,
            self.keys() == prev.keys().remove(i),
        ensures
            self.wf(),
            self.key_set() == prev.key_set().remove(k),
            prev.key_set().contains(k),
    {
        prev.keys().remove_ensures(i);
        assert forall|a: int, b: int| 0 <= a < b < self.keys().len() implies key_lt(
            #[trigger] self.keys()[a],
            #[trigger] self.keys()[b],
        ) by {
            if a < i && b < i {
                assert(key_lt(prev.keys()[a], prev.keys()[b]));
            } else if a < i {
                assert(key_lt(prev.keys()[a], prev.keys()[b + 1]));
            } else {
                assert(key_lt(prev.keys()[a + 1], prev.keys()[b + 1]));
            }
        }
        assert forall|j: int| 0 <= j < prev.keys().len() && j != i implies prev.keys()[j]
            != k by {
            if j < i {
                lemma_key_lt_strict_total(prev.keys()[j], prev.keys()[i], k);
            } else {
                lemma_key_lt_strict_total(prev.keys()[i], prev.keys()[j], k);
            }
        }
        assert forall|x: IndexKey| self.keys().contains(x) implies prev.keys().contains(x) && x
            != k by {
            let j = choose|j: int| 0 <= j < self.keys().len() && self.keys()[j] == x;
            if j < i {
                assert(prev.keys()[j] == x);
            } else {
                assert(prev.keys()[j + 1] == x);
            }
        }
        assert forall|x: IndexKey| prev.keys().contains(x) && x != k implies self.keys().contains(
            x,
        ) by {
            let j = choose|j: int| 0 <= j < prev.keys().len() && prev.keys()[j] == x;
            if j < i {
                assert(self.keys()[j] == x);
            } else {
                assert(self.keys()[j - 1] == x);
            }
        }
        assert(self.key_set() =~= prev.key_set().remove(k));
    }

    /// Whether this exact entry is present.
    #[verifier::loop_isolation(false)]
    pub fn find_exact_struct(&self, entry: &Q) -> (r: bool)
        requires
            self.wf(),
        ensures
            r == self.key_set().contains(entry.key_spec()),
    {
        let k = entry.key_parts();
        let n = self.entries.len();
        let mut i: usize = 0;
        while i < n
            invariant
                0 <= i <= n,
                forall|j: int| 0 <= j < i ==> self.entries@[j] != k,
            decreases n - i,
        {
            if key_eq_exec(&self.entries[i], &k) {
                proof {
                    assert(self.keys().contains(k));
                }
                return true;
            }
            i += 1;
        }
        proof {
            assert(!self.keys().contains(k)) by {
                if self.keys().contains(k) {
                    let j = choose|j: int| 0 <= j < self.keys().len() && self.keys()[j] == k;
                    assert(self.entries@[j] != k);
                }
            }
        }
        false
    }

    /// All keys, in index order.
    #[verifier::loop_isolation(false)]
    pub fn full_range(&self) -> (r: Vec<IndexKey>)
        ensures
            r@ == self.keys(),
    {
        let n = self.entries.len();
        let mut r: Vec<IndexKey> = Vec::new();
        let mut i: usize = 0;
        while i < n
            invariant
                0 <= i <= n,
                r@ == self.entries@.take(i as int),
            decreases n - i,
        {
            r.push(self.entries[i]);
            proof {
                assert(self.entries@.take(i + 1) =~= self.entries@.take(i as int).push(
                    self.entries@[i as int],
                ));
            }
            i += 1;
        }
        proof {
            assert(self.entries@.take(n as int) =~= self.entries@);
        }
        r
    }

    /// The keys whose first component is `a`, in index order.
    #[verifier::loop_isolation(false)]
    pub fn find_by_first_one(&self, a: u64) -> (r: Vec<IndexKey>)
        ensures
            r@ == self.keys().filter(prefix_one(a)),
    {
        let n = self.entries.len();
        let mut r: Vec<IndexKey> = Vec::new();
        let mut i: usize = 0;
        while i < n
            invariant
                0 <= i <= n,
                r@ == self.entries@.take(i as int).filter(prefix_one(a)),
            decreases n - i,
        {
            proof {
                lemma_filter_take_step(self.entries@, i as int, prefix_one(a));
            }
            if self.entries[i].0 == a {
                r.push(self.entries[i]);
            }
            i += 1;
        }
        proof {
            assert(self.entries@.take(n as int) =~= self.entries@);
        }
        r
    }

    /// The keys whose first two components are `a, b`, in index order.
    #[verifier::loop_isolation(false)]
    pub fn find_by_first_two(&self, a: u64, b: u64) -> (r: Vec<IndexKey>)
        ensures
            r@ == self.keys().filter(prefix_two(a, b)),
    {
        let n = self.entries.len();
        let mut r: Vec<IndexKey> = Vec::new();
        let mut i: usize = 0;
        while i < n
            invariant
                0 <= i <= n,
                r@ == self.entries@.take(i as int).filter(prefix_two(a, b)),
            decreases n - i,
        {
            proof {
                lemma_filter_take_step(self.entries@, i as int, prefix_two(a, b));
            }
            if self.entries[i].0 == a && self.entries[i].1 == b {
                r.push(self.entries[i]);
            }
            i += 1;
        }
        proof {
            assert(self.entries@.take(n as int) =~= self.entries@);
        }
        r
    }

    /// The keys whose first three components are `a, b, c`, in index order.
    #[verifier::loop_isolation(false)]
    pub fn find_by_first_three(&self, a: u64, b: u64, c: u64) -> (r: Vec<IndexKey>)
        ensures
            r@ == self.keys().filter(prefix_three(a, b, c)),
    {
        let n = self.entries.len();
        let mut r: Vec<IndexKey> = Vec::new();
        let mut i: usize = 0;
        while i < n
            invariant
                0 <= i <= n,
                r@ == self.entries@.take(i as int).filter(prefix_three(a, b, c)),
            decreases n - i,
        {
            proof {
                lemma_filter_take_step(self.entries@, i as int, prefix_three(a, b, c));
            }
            if self.entries[i].0 == a && self.entries[i].1 == b && self.entries[i].2 == c {
                r.push(self.entries[i]);
            }
            i += 1;
        }
        proof {
            assert(self.entries@.take(n as int) =~= self.entries@);
        }
        r
    }
}

impl<Q: IndexOrder> Default for IndexedQuadSet<Q> {
    /// An empty index.
    fn default() -> (r: Self)
        ensures
            r.wf(),
            r.keys() == Seq::<IndexKey>::empty(),
            r.key_set() == Set::<IndexKey>::empty(),
    {
        let r = IndexedQuadSet { entries: Vec::new(), order: PhantomData };
        proof {
            assert(r.key_set() =~= Set::<IndexKey>::empty());
        }
        r
    }
}

/// Filtering a sequence one element further keeps the filtered prefix and
/// appends the new element exactly when it matches.
pub proof fn lemma_filter_take_step<A>(s: Seq<A>, i: int, pred: spec_fn(A) -> bool)
    requires
        0 <= i < s.len(),
    ensures
        s.take(i + 1).filter(pred) == if pred(s[i]) {
            s.take(i).filter(pred).push(s[i])
        } else {
            s.take(i).filter(pred)
        },
{
    reveal(Seq::filter);
    assert(s.take(i + 1).drop_last() =~= s.take(i));
    assert(s.take(i + 1).last() == s[i]);
}

/// A quad is in an index exactly when its key is.
pub proof fn lemma_index_contains<Q: IndexOrder>(idx: IndexedQuadSet<Q>, q: StoreQuad)
    ensures
        idx.quads().contains(q) == idx.key_set().contains(Q::key_of_quad(q)),
{
    Q::lemma_quad_key_inverse(q, Q::key_of_quad(q));
    if idx.quads().contains(q) {
        let k = choose|k: IndexKey| idx.key_set().contains(k) && q == Q::quad_of_key(k);
        Q::lemma_quad_key_inverse(q, k);
        assert(idx.key_set().contains(Q::key_of_quad(q)));
    }
}

/// Inserting a key inserts its quad.
pub proof fn lemma_index_quads_insert<Q: IndexOrder>(
    pre: IndexedQuadSet<Q>,
    post: IndexedQuadSet<Q>,
    q: StoreQuad,
)
    requires
        post.key_set() == pre.key_set().insert(Q::key_of_quad(q)),
    ensures
        post.quads() == pre.quads().insert(q),
{
    Q::lemma_quad_key_inverse(q, Q::key_of_quad(q));
    assert forall|x: StoreQuad| post.quads().contains(x) implies pre.quads().insert(q).contains(
        x,
    ) by {
        let k = choose|k: IndexKey| post.key_set().contains(k) && x == Q::quad_of_key(k);
        if k == Q::key_of_quad(q) {
            assert(x == q);
        } else {
            assert(pre.key_set().contains(k));
            assert(pre.quads().contains(x));
        }
    }
    assert forall|x: StoreQuad| pre.quads().insert(q).contains(x) implies post.quads().contains(
        x,
    ) by {
        if x == q {
            assert(post.key_set().contains(Q::key_of_quad(q)));
            assert(post.quads().contains(q));
        } else {
            let k = choose|k: IndexKey| pre.key_set().contains(k) && x == Q::quad_of_key(k);
            assert(post.key_set().contains(k));
            assert(post.quads().contains(x));
        }
    }
    assert(post.quads() =~= pre.quads().insert(q));
}

/// Removing a key removes its quad.
pub proof fn lemma_index_quads_remove<Q: IndexOrder>(
    pre: IndexedQuadSet<Q>,
    post: IndexedQuadSet<Q>,
    q: StoreQuad,
)
    requires
        post.key_set() == pre.key_set().remove(Q::key_of_quad(q)),
    ensures
        post.quads() == pre.quads().remove(q),
{
    Q::lemma_quad_key_inverse(q, Q::key_of_quad(q));
    assert forall|x: StoreQuad| post.quads().contains(x) implies pre.quads().remove(q).contains(
        x,
    ) by {
        let k = choose|k: IndexKey| post.key_set().contains(k) && x == Q::quad_of_key(k);
        assert(pre.key_set().contains(k));
        assert(pre.quads().contains(x));
        if x == q {
            Q::lemma_quad_key_inverse(q, k);
            assert(k == Q::key_of_quad(q));
        }
    }
    assert forall|x: StoreQuad| pre.quads().remove(q).contains(x) implies post.quads().contains(
        x,
    ) by {
        let k = choose|k: IndexKey| pre.key_set().contains(k) && x == Q::quad_of_key(k);
        assert(k != Q::key_of_quad(q)) by {
            if k == Q::key_of_quad(q) {
                assert(x == q);
            }
        }
        assert(post.key_set().contains(k));
        assert(post.quads().contains(x));
    }
    assert(post.quads() =~= pre.quads().remove(q));
}

/// A filtered sequence holds exactly the matching elements.
pub proof fn lemma_filter_contains_iff<A>(s: Seq<A>, pred: spec_fn(A) -> bool)
    ensures
        forall|x: A| #[trigger] s.filter(pred).contains(x) <==> s.contains(x) && pred(x),
    decreases s.len(),
{
    reveal(Seq::filter);
    if s.len() == 0 {
        assert forall|x: A| !s.contains(x) by {}
    } else {
        let dl = s.drop_last();
        lemma_filter_contains_iff(dl, pred);
        assert forall|x: A| #[trigger] s.filter(pred).contains(x) implies s.contains(x) && pred(
            x,
        ) by {
            if pred(s.last()) && x == s.last() {
                assert(s[s.len() - 1] == x);
            } else {
                assert(dl.filter(pred).contains(x)) by {
                    let j = choose|j: int|
                        0 <= j < s.filter(pred).len() && s.filter(pred)[j] == x;
                    if pred(s.last()) {
                        assert(j < s.filter(pred).len() - 1);
                        assert(dl.filter(pred)[j] == x);
                    } else {
                        assert(dl.filter(pred)[j] == x);
                    }
                }
                assert(dl.contains(x));
                let j = choose|j: int| 0 <= j < dl.len() && dl[j] == x;
                assert(s[j] == x);
            }
        }
        assert forall|x: A| s.contains(x) && pred(x) implies #[trigger] s.filter(pred).contains(
            x,
        ) by {
            let j = choose|j: int| 0 <= j < s.len() && s[j] == x;
            if j == s.len() - 1 {
                assert(s.filter(pred).last() == x);
            } else {
                assert(dl[j] == x);
                assert(dl.contains(x));
                assert(dl.filter(pred).contains(x));
                let m = choose|m: int| 0 <= m < dl.filter(pred).len() && dl.filter(pred)[m] == x;
                if pred(s.last()) {
                    assert(s.filter(pred)[m] == x);
                } else {
                    assert(s.filter(pred)[m] == x);
                }
            }
        }
    }
}

/// Mapping a key sequence to quads holds a quad exactly when the sequence
/// holds its key.
pub proof fn lemma_map_values_contains_iff<Q: IndexOrder>(s: Seq<IndexKey>, q: StoreQuad)
    ensures
        s.map_values(quad_mapper::<Q>()).contains(q) == s.contains(Q::key_of_quad(q)),
{
    Q::lemma_quad_key_inverse(q, Q::key_of_quad(q));
    let m = s.map_values(quad_mapper::<Q>());
    if m.contains(q) {
        let j = choose|j: int| 0 <= j < m.len() && m[j] == q;
        assert(Q::quad_of_key(s[j]) == q);
        Q::lemma_quad_key_inverse(q, s[j]);
        assert(s[j] == Q::key_of_quad(q));
        assert(s.contains(Q::key_of_quad(q)));
    }
    if s.contains(Q::key_of_quad(q)) {
        let j = choose|j: int| 0 <= j < s.len() && s[j] == Q::key_of_quad(q);
        assert(m[j] == q);
        assert(m.contains(q));
    }
}

/// A prefix scan of an index yields exactly the quads of the index whose
/// components satisfy the scanned prefix.
pub proof fn lemma_filtered_scan_iff<Q: IndexOrder>(
    idx: IndexedQuadSet<Q>,
    kp: spec_fn(IndexKey) -> bool,
    qp: spec_fn(StoreQuad) -> bool,
)
    requires
        forall|k: IndexKey| #[trigger] kp(k) == qp(Q::quad_of_key(k)),
    ensures
        forall|q: StoreQuad|
            #[trigger] idx.keys().filter(kp).map_values(quad_mapper::<Q>()).contains(q) <==> (
            idx.quads().contains(q) && qp(q)),
{
    let m = idx.keys().filter(kp);
    lemma_filter_contains_iff(idx.keys(), kp);
    assert forall|q: StoreQuad|
        #[trigger] m.map_values(quad_mapper::<Q>()).contains(q) <==> (idx.quads().contains(q)
            && qp(q)) by {
        lemma_map_values_contains_iff::<Q>(m, q);
        lemma_index_contains(idx, q);
        Q::lemma_quad_key_inverse(q, Q::key_of_quad(q));
        assert(kp(Q::key_of_quad(q)) == qp(q));
        assert(idx.key_set().contains(Q::key_of_quad(q)) == idx.keys().contains(
            Q::key_of_quad(q),
        ));
    }
}

/// Strictly sorted keys are pairwise distinct.
pub proof fn lemma_sorted_no_dup(s: Seq<IndexKey>)
    requires
        sorted_keys(s),
    ensures
        s.no_duplicates(),
{
    assert forall|i: int, j: int|
        0 <= i < s.len() && 0 <= j < s.len() && i != j implies s[i] != s[j] by {
        if i < j {
            lemma_key_lt_strict_total(s[i], s[j], s[j]);
        } else {
            lemma_key_lt_strict_total(s[j], s[i], s[i]);
        }
    }
}

/// Filtering keeps a sequence free of duplicates.
pub proof fn lemma_filter_no_dup<A>(s: Seq<A>, pred: spec_fn(A) -> bool)
    requires
        s.no_duplicates(),
    ensures
        s.filter(pred).no_duplicates(),
    decreases s.len(),
{
    reveal(Seq::filter);
    if s.len() != 0 {
        let dl = s.drop_last();
        assert(dl.no_duplicates());
        lemma_filter_no_dup(dl, pred);
        if pred(s.last()) {
            assert(!dl.contains(s.last())) by {
                if dl.contains(s.last()) {
                    let j = choose|j: int| 0 <= j < dl.len() && dl[j] == s.last();
                    assert(s[j] == s[s.len() - 1]);
                }
            }
            lemma_filter_contains_iff(dl, pred);
            assert(!dl.filter(pred).contains(s.last()));
            let f = dl.filter(pred).push(s.last());
            assert forall|i: int, j: int|
                0 <= i < f.len() && 0 <= j < f.len() && i != j implies f[i] != f[j] by {
                if i < f.len() - 1 && j < f.len() - 1 {
                } else if i == f.len() - 1 {
                    if f[i] == f[j] {
                        assert(dl.filter(pred)[j] == s.last());
                        assert(dl.filter(pred).contains(s.last()));
                    }
                } else {
                    if f[i] == f[j] {
                        assert(dl.filter(pred)[i] == s.last());
                        assert(dl.filter(pred).contains(s.last()));
                    }
                }
            }
        }
    }
}

/// Mapping keys to quads keeps a sequence free of duplicates: the
/// permutation is a bijection.
pub proof fn lemma_map_no_dup<Q: IndexOrder>(s: Seq<IndexKey>)
    requires
        s.no_duplicates(),
    ensures
        s.map_values(quad_mapper::<Q>()).no_duplicates(),
{
    let m = s.map_values(quad_mapper::<Q>());
    assert forall|i: int, j: int|
        0 <= i < m.len() && 0 <= j < m.len() && i != j implies m[i] != m[j] by {
        if m[i] == m[j] {
            Q::lemma_quad_key_inverse(m[i], s[i]);
            Q::lemma_quad_key_inverse(m[j], s[j]);
            assert(s[i] == s[j]);
        }
    }
}

/// A full scan of an index yields exactly its quads.
pub proof fn lemma_full_scan_iff<Q: IndexOrder>(idx: IndexedQuadSet<Q>)
    ensures
        forall|q: StoreQuad|
            #[trigger] idx.keys().map_values(quad_mapper::<Q>()).contains(q) == idx.quads().contains(
                q,
            ),
{
    assert forall|q: StoreQuad|
        #[trigger] idx.keys().map_values(quad_mapper::<Q>()).contains(q) == idx.quads().contains(
            q,
        ) by {
        lemma_map_values_contains_iff::<Q>(idx.keys(), q);
        lemma_index_contains(idx, q);
    }
}

/// Maps a vector of index keys back to logical quads.
#[verifier::loop_isolation(false)]
pub fn keys_to_quads<Q: IndexOrder>(keys: &Vec<IndexKey>) -> (r: Vec<StoreQuad>)
    ensures
        r@ == keys@.map_values(quad_mapper::<Q>()),
{
    let n = keys.len();
    let mut r: Vec<StoreQuad> = Vec::new();
    let mut i: usize = 0;
    while i < n
        invariant
            0 <= i <= n,
            r@ == keys@.take(i as int).map_values(quad_mapper::<Q>()),
        decreases n - i,
    {
        r.push(Q::quad_of_parts(keys[i]));
        proof {
            let f = quad_mapper::<Q>();
            assert(keys@.take(i + 1).map_values(f) =~= keys@.take(i as int).map_values(f).push(
                f(keys@[i as int]),
            ));
        }
        i += 1;
    }
    proof {
        assert(keys@.take(n as int) =~= keys@);
    }
    r
}

} // verus!
