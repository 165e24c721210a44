//! A dense id arena: maps keys to dense integer ids and back.
//!
//! Ids are vector indices.  A removal leaves its slot empty and pushes the
//! freed id onto a reuse pool; the next insertion pops the pool before
//! growing the vector, so id reuse is last-in first-out.  A lookup on a freed
//! id never returns a stale key: the slot is cleared on removal.

use vstd::prelude::*;

use crate::errors::StoreError;
use crate::identifiers::IndexedID;

verus! {

/// A key the arena can store: it carries a mathematical view, and equality of
/// views is decidable.
pub trait ArenaKey: View + Sized {
    fn key_eq(&self, other: &Self) -> (r: bool)
        ensures
            r == (self@ == other@);
}

impl ArenaKey for String {
    fn key_eq(&self, other: &Self) -> (r: bool) {
        self.eq(other)
    }
}

/// The id arena.  `K` is the key type, `V` the id type handed out.
pub struct IndexedIDHashMap<K, V> {
    slots: Vec<Option<K>>,
    reuse_pool: Vec<V>,
}

impl<K: ArenaKey, V: IndexedID> IndexedIDHashMap<K, V> {
    /// The key views by slot, `None` for a free slot.
    pub closed spec fn slots_view(self) -> Seq<Option<K::V>> {
        self.slots@.map_values(
            |o: Option<K>|
                match o {
                    Some(k) => Some(k@),
                    None => None,
                },
        )
    }

    /// The freed ids awaiting reuse, oldest first.
    pub closed spec fn pool_view(self) -> Seq<int> {
        self.reuse_pool@.map_values(|v: V| v.id_spec())
    }

    /// Whether id `i` currently names a key.
    pub open spec fn live(self, i: int) -> bool {
        0 <= i < self.slots_view().len() && self.slots_view()[i] is Some
    }

    /// The key view at live id `i`.
    pub open spec fn key_at(self, i: int) -> K::V {
        self.slots_view()[i]->Some_0
    }

    /// Whether some live id names `kv`.
    pub open spec fn contains_key(self, kv: K::V) -> bool {
        exists|i: int| self.live(i) && self.key_at(i) == kv
    }

    /// The live id naming `kv`; meaningful only when `contains_key(kv)`.
    pub open spec fn id_of(self, kv: K::V) -> int {
        choose|i: int| self.live(i) && self.key_at(i) == kv
    }

    /// Whether an insertion of an absent key must fail: no freed id is
    /// available and the id space is spent.
    pub open spec fn full(self) -> bool {
        self.pool_view().len() == 0 && self.slots_view().len() > V::max_id()
    }

    /// The arena invariant: live keys are distinct, and the reuse pool holds
    /// exactly the free slots below the high-water mark, each once.
    pub open spec fn wf(self) -> bool {
        &&& forall|i: int, j: int|
            self.live(i) && self.live(j) && #[trigger] self.key_at(i) == #[trigger] self.key_at(j)
                ==> i == j
        &&& forall|p: int|
            0 <= p < self.pool_view().len() ==> 0 <= #[trigger] self.pool_view()[p]
                < self.slots_view().len() && self.slots_view()[self.pool_view()[p]] is None
        &&& self.pool_view().no_duplicates()
        &&& forall|i: int|
            0 <= i < self.slots_view().len() && self.slots_view()[i] is None
                ==> self.pool_view().contains(i)
        &&& self.slots_view().len() <= V::max_id() + 1
    }

    /// How `self` relates to `pre` after an insertion of `kv` returned id
    /// `i`: a present key changes nothing and returns its id; an absent key
    /// fills the most recently freed slot, else extends the slot vector.
    pub open spec fn grown_by(self, pre: Self, kv: K::V, i: int) -> bool {
        if pre.contains_key(kv) {
            &&& i == pre.id_of(kv)
            &&& self == pre
        } else if pre.pool_view().len() > 0 {
            &&& i == pre.pool_view().last()
            &&& self.slots_view() == pre.slots_view().update(i, Some(kv))
            &&& self.pool_view() == pre.pool_view().drop_last()
        } else {
            &&& i == pre.slots_view().len()
            &&& self.slots_view() == pre.slots_view().push(Some(kv))
            &&& self.pool_view() == pre.pool_view()
        }
    }

    /// A live id is the unique one naming its key.
    pub proof fn lemma_id_of_live(self, i: int)
        requires
            self.wf(),
            self.live(i),
        ensures
            self.contains_key(self.key_at(i)),
            self.id_of(self.key_at(i)) == i,
    {
        let kv = self.key_at(i);
        assert(self.live(i) && self.key_at(i) == kv);
        let j = choose|j: int| self.live(j) && self.key_at(j) == kv;
        assert(self.key_at(j) == self.key_at(i));
    }

    /// An O(N) scan for the id of `key`.
    pub fn get_id_by_key(&self, key: &K) -> (r: Option<V>)
        requires
            self.wf(),
        ensures
            match r {
                Some(v) => self.contains_key(key@) && v.id_spec() == self.id_of(key@),
                None => !self.contains_key(key@),
            },
    {
        let n = self.slots.len();
        let mut i: usize = 0;
        while i < n
            invariant
                self.wf(),
                n == self.slots_view().len(),
                0 <= i <= n,
                forall|j: int| 0 <= j < i ==> !(self.live(j) && self.key_at(j) == key@),
            decreases n - i,
        {
            match &self.slots[i] {
                Some(k) => {
                    if k.key_eq(key) {
                        proof {
                            self.lemma_id_of_live(i as int);
                        }
                        return Some(V::from_index(i));
                    }
                },
                None => {},
            }
            i += 1;
        }
        None
    }

    /// The key at `id`, if `id` is live.
    pub fn get_key_ref_by_id(&self, id: &V) -> (r: Option<&K>)
        requires
            self.wf(),
        ensures
            match r {
                Some(k) => self.live(id.id_spec()) && k@ == self.key_at(id.id_spec()),
                None => !self.live(id.id_spec()),
            },
    {
        let n = self.slots.len();
        match id.try_index() {
            None => None,
            Some(i) => {
                if i < n {
                    match &self.slots[i] {
                        Some(k) => {
                            proof {
                                assert(self.slots_view()[i as int] == Some(k@));
                            }
                            Some(k)
                        },
                        None => {
                            proof {
                                assert(self.slots_view()[i as int] is None);
                            }
                            None
                        },
                    }
                } else {
                    None
                }
            },
        }
    }

    /// Returns the id of `key`, inserting it if absent.  A fresh id comes
    /// from the reuse pool when one is available, else from the end of the
    /// slot vector; the insertion fails only when the id space is spent.
    pub fn insert_unchecked(&mut self, key: K) -> (r: Result<V, StoreError>)
        requires
            old(self).wf(),
        ensures
            final(self).wf(),
            forall|i: int|
                #[trigger] old(self).live(i) ==> final(self).live(i) && final(self).key_at(i)
                    == old(self).key_at(i),
            match r {
                Ok(v) => {
                    &&& final(self).live(v.id_spec())
                    &&& final(self).key_at(v.id_spec()) == key@
                    &&& final(self).grown_by(*old(self), key@, v.id_spec())
                },
                Err(e) => {
                    &&& e == StoreError::Overflow
                    &&& !old(self).contains_key(key@)
                    &&& old(self).full()
                    &&& *final(self) == *old(self)
                },
            },
    {
        let existing = self.get_id_by_key(&key);
        if let Some(v) = existing {
            return Ok(v);
        }
        let plen = self.reuse_pool.len();
        if plen > 0 {
            let slen = self.slots.len();
            let id = self.reuse_pool[plen - 1];
            let _ = self.reuse_pool.pop();
            proof {
                let p = old(self).pool_view().len() - 1;
                assert(old(self).pool_view()[p] == id.id_spec());
                assert(id.id_spec() < slen as int);
            }
            let idx = id.index();
            self.slots[idx] = Some(key);
            proof {
                assert(self.slots_view() =~= old(self).slots_view().update(
                    id.id_spec(),
                    Some(key@),
                ));
                assert(self.pool_view() =~= old(self).pool_view().drop_last());
                self.lemma_wf_after_fill(*old(self), id.id_spec(), key@);
            }
            Ok(id)
        } else {
            let n = self.slots.len();
            if !V::fits(n) {
                return Err(StoreError::Overflow);
            }
            self.slots.push(Some(key));
            proof {
                assert(self.slots_view() =~= old(self).slots_view().push(Some(key@)));
                assert(self.pool_view() =~= old(self).pool_view());
                self.lemma_wf_after_push(*old(self), key@);
            }
            Ok(V::from_index(n))
        }
    }

    /// Frees the slot of `key`, making its id available for reuse.
    pub fn remove_by_key(&mut self, key: &K) -> (r: Result<(), StoreError>)
        requires
            old(self).wf(),
        ensures
            final(self).wf(),
            match r {
                Ok(()) => {
                    &&& old(self).contains_key(key@)
                    &&& final(self).slots_view() == old(self).slots_view().update(
                        old(self).id_of(key@),
                        None,
                    )
                    &&& final(self).pool_view() == old(self).pool_view().push(
                        old(self).id_of(key@),
                    )
                },
                Err(e) => {
                    &&& e == StoreError::NotFound
                    &&& !old(self).contains_key(key@)
                    &&& *final(self) == *old(self)
                },
            },
    {
        let found = self.get_id_by_key(key);
        match found {
            Some(id) => self.remove_by_id(&id),
            None => Err(StoreError::NotFound),
        }
    }

    /// Frees slot `id`, making it available for reuse.
    pub fn remove_by_id(&mut self, id: &V) -> (r: Result<(), StoreError>)
        requires
            old(self).wf(),
        ensures
            final(self).wf(),
            match r {
                Ok(()) => {
                    &&& old(self).live(id.id_spec())
                    &&& final(self).slots_view() == old(self).slots_view().update(
                        id.id_spec(),
                        None,
                    )
                    &&& final(self).pool_view() == old(self).pool_view().push(id.id_spec())
                },
                Err(e) => {
                    &&& e == StoreError::NotFound
                    &&& !old(self).live(id.id_spec())
                    &&& *final(self) == *old(self)
                },
            },
    {
        let n = self.slots.len();
        match id.try_index() {
            None => Err(StoreError::NotFound),
            Some(i) => {
                if i < n && self.slots[i].is_some() {
                    proof {
                        assert(old(self).slots_view()[i as int] is Some);
                    }
                    self.slots[i] = None;
                    self.reuse_pool.push(*id);
                    proof {
                        assert(self.slots_view() =~= old(self).slots_view().update(
                            i as int,
                            None,
                        ));
                        assert(self.pool_view() =~= old(self).pool_view().push(i as int));
                        self.lemma_wf_after_free(*old(self), i as int);
                    }
                    Ok(())
                } else {
                    Err(StoreError::NotFound)
                }
            },
        }
    }

    proof fn lemma_wf_after_fill(self, prev: Self, i: int, kv: K::V)
        requires
            prev.wf(),
            !prev.contains_key(kv),
            prev.pool_view().len() > 0,
            prev.pool_view().last() == i,
            self.slots_view() == prev.slots_view().update(i, Some(kv)),
            self.pool_view() == prev.pool_view().drop_last(),
        ensures
            self.wf(),
    {
        let last = prev.pool_view().len() - 1;
        assert(0 <= i < prev.slots_view().len());
        assert forall|a: int, b: int|
            self.live(a) && self.live(b) && #[trigger] self.key_at(a) == #[trigger] self.key_at(b)
                implies a == b by {
            if a != b {
                if a == i {
                    assert(prev.live(b) && prev.key_at(b) == kv);
                } else if b == i {
                    assert(prev.live(a) && prev.key_at(a) == kv);
                } else {
                    assert(prev.key_at(a) == prev.key_at(b));
                }
            }
        }
        assert forall|p: int| 0 <= p < self.pool_view().len() implies 0 <= #[trigger] self
            .pool_view()[p] < self.slots_view().len() && self.slots_view()[self.pool_view()[p]]
            is None by {
            assert(self.pool_view()[p] == prev.pool_view()[p]);
            assert(prev.pool_view()[p] != i) by {
                if prev.pool_view()[p] == i {
                    assert(prev.pool_view()[p] == prev.pool_view()[last]);
                    assert(p != last);
                }
            }
        }
        assert forall|j: int|
            0 <= j < self.slots_view().len() && self.slots_view()[j] is None implies self
            .pool_view().contains(j) by {
            assert(j != i);
            assert(prev.slots_view()[j] is None);
            assert(prev.pool_view().contains(j));
            let p = choose|p: int| 0 <= p < prev.pool_view().len() && prev.pool_view()[p] == j;
            assert(prev.pool_view()[p] == j);
            assert(p != last);
            assert(self.pool_view()[p] == j);
        }
    }

    proof fn lemma_wf_after_push(self, prev: Self, kv: K::V)
        requires
            prev.wf(),
            !prev.contains_key(kv),
            prev.slots_view().len() <= V::max_id(),
            self.slots_view() == prev.slots_view().push(Some(kv)),
            self.pool_view() == prev.pool_view(),
        ensures
            self.wf(),
    {
        let n = prev.slots_view().len();
        assert forall|a: int, b: int|
            self.live(a) && self.live(b) && #[trigger] self.key_at(a) == #[trigger] self.key_at(b)
                implies a == b by {
            if a != b {
                if a == n {
                    assert(prev.live(b) && prev.key_at(b) == kv);
                } else if b == n {
                    assert(prev.live(a) && prev.key_at(a) == kv);
                } else {
                    assert(prev.key_at(a) == prev.key_at(b));
                }
            }
        }
        assert forall|j: int|
            0 <= j < self.slots_view().len() && self.slots_view()[j] is None implies self
            .pool_view().contains(j) by {
            assert(j != n);
            assert(prev.pool_view().contains(j));
        }
    }

    proof fn lemma_wf_after_free(self, prev: Self, i: int)
        requires
            prev.wf(),
            prev.live(i),
            self.slots_view() == prev.slots_view().update(i, None),
            self.pool_view() == prev.pool_view().push(i),
        ensures
            self.wf(),
    {
        let n = prev.pool_view().len() as int;
        assert forall|a: int, b: int|
            self.live(a) && self.live(b) && #[trigger] self.key_at(a) == #[trigger] self.key_at(b)
                implies a == b by {
            if a != b {
                assert(prev.key_at(a) == prev.key_at(b));
            }
        }
        assert(forall|p: int| 0 <= p < n ==> #[trigger] prev.pool_view()[p] != i);
        assert forall|j: int|
            0 <= j < self.slots_view().len() && self.slots_view()[j] is None implies self
            .pool_view().contains(j) by {
            if j == i {
                assert(self.pool_view()[n] == i);
            } else {
                assert(prev.slots_view()[j] is None);
                assert(prev.pool_view().contains(j));
                let p = choose|p: int| 0 <= p < n && prev.pool_view()[p] == j;
                assert(prev.pool_view()[p] == j);
                assert(self.pool_view()[p] == j);
            }
        }
    }
}

impl<K: ArenaKey, V: IndexedID> Default for IndexedIDHashMap<K, V> {
    /// An empty arena.
    fn default() -> (r: Self)
        ensures
            r.wf(),
            r.slots_view() == Seq::<Option<K::V>>::empty(),
            r.pool_view() == Seq::<int>::empty(),
    {
        let r = IndexedIDHashMap { slots: Vec::new(), reuse_pool: Vec::new() };
        proof {
            V::lemma_max_id_in_range();
            assert(r.slots_view() =~= Seq::<Option<K::V>>::empty());
            assert(r.pool_view() =~= Seq::<int>::empty());
        }
        r
    }
}

} // verus!
