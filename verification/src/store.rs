//! The storage engine: node table, URI interner and the four quad indices,
//! with the pattern-query planner over them.

use vstd::prelude::*;
use vstd::string::StringExecFns;

use crate::blank::BlankNode;
use crate::errors::StoreError;
use crate::identifiers::{InternalID, InternalUriID, SixtyFourBitID, ThirtyTwoBitID};
use crate::indexed_hash_map::{ArenaKey, IndexedIDHashMap};
use crate::indexed_quad_set::{
    keys_to_quads, lemma_filter_take_step, prefix_one, prefix_three, prefix_two, quad_mapper,
    IndexKey, IndexOrder, IndexedQuadSet, GSPO, OSPG, POSG, SPOG,
};
use crate::literal::{LitView, Literal};
use crate::uri::RDFUri;

verus! {

pub type SubjectID = InternalID;

pub type PredicateID = InternalID;

pub type ObjectID = InternalID;

pub type GraphID = InternalID;

/// A logical quad, in (graph, subject, predicate, object) order: the order in
/// which query results are yielded.
pub type StoreQuad = (GraphID, SubjectID, PredicateID, ObjectID);

pub type PrefixMap = IndexedIDHashMap<String, ThirtyTwoBitID>;

pub type SuffixMap = IndexedIDHashMap<String, ThirtyTwoBitID>;

pub type ObjectMap = IndexedIDHashMap<StoreNode, SixtyFourBitID>;

pub type SPOGIndex = IndexedQuadSet<SPOG>;

pub type GSPOIndex = IndexedQuadSet<GSPO>;

pub type POSGIndex = IndexedQuadSet<POSG>;

pub type OSPGIndex = IndexedQuadSet<OSPG>;

/// The content of a node, as the node table compares it.
pub ghost enum NodeView {
    Uri(InternalUriID),
    Lit(LitView),
    Blank(InternalID),
}

/// A node value: a URI reference, a literal, or a blank node.
#[derive(PartialEq, Eq, Debug)]
pub enum StoreNode {
    URIRef(RDFUri),
    Literal(Literal),
    Blank(BlankNode),
}

impl View for StoreNode {
    type V = NodeView;

    open spec fn view(&self) -> NodeView {
        match self {
            StoreNode::URIRef(u) => NodeView::Uri(u.id_spec()),
            StoreNode::Literal(l) => NodeView::Lit(l@),
            StoreNode::Blank(b) => NodeView::Blank(b.id_spec()),
        }
    }
}

impl Clone for StoreNode {
    /// A clone carries the same content.
    fn clone(&self) -> (r: Self)
        ensures
            r == *self,
    {
        match self {
            StoreNode::URIRef(u) => StoreNode::URIRef(*u),
            StoreNode::Literal(l) => StoreNode::Literal(l.clone()),
            StoreNode::Blank(b) => StoreNode::Blank(*b),
        }
    }
}

impl ArenaKey for StoreNode {
    fn key_eq(&self, other: &Self) -> (r: bool) {
        match (self, other) {
            (StoreNode::URIRef(a), StoreNode::URIRef(b)) => {
                proof {
                    crate::uri::lemma_rdfuri_id_injective(*a, *b);
                }
                *a == *b
            },
            (StoreNode::Literal(a), StoreNode::Literal(b)) => a.lit_eq(b),
            (StoreNode::Blank(a), StoreNode::Blank(b)) => {
                proof {
                    BlankNode::lemma_blank_id_injective(*a, *b);
                }
                *a == *b
            },
            _ => false,
        }
    }
}

/// The reserved node id of the default graph.
pub open spec fn default_graph_id() -> InternalID {
    InternalID(SixtyFourBitID(0))
}

/// The sentinel URI interned first, so that the default graph gets node id 0.
pub open spec fn default_graph_uri_spec() -> Seq<char> {
    "http://internal/graph"@
}

/// The sentinel URI naming the default graph.
pub fn default_graph_uri() -> (r: &'static str)
    ensures
        r@ == default_graph_uri_spec(),
{
    "http://internal/graph"
}

/// The position of the last occurrence of `c`, or -1 if there is none.
pub open spec fn last_index_of(u: Seq<char>, c: char) -> int
    decreases u.len(),
{
    if u.len() == 0 {
        -1
    } else if u.last() == c {
        u.len() - 1
    } else {
        last_index_of(u.drop_last(), c)
    }
}

/// Whether a URI can be split: it holds a `#` or a `/`.
pub open spec fn has_sep(u: Seq<char>) -> bool {
    u.contains('#') || u.contains('/')
}

/// Where the URI splits: one past the last `#` if any, else one past the last
/// `/`.
pub open spec fn split_point(u: Seq<char>) -> int {
    if u.contains('#') {
        last_index_of(u, '#') + 1
    } else {
        last_index_of(u, '/') + 1
    }
}

/// The URI prefix: everything up to and including the separator.
pub open spec fn prefix_of(u: Seq<char>) -> Seq<char> {
    u.take(split_point(u))
}

/// The URI suffix: the remainder after the separator.
pub open spec fn suffix_of(u: Seq<char>) -> Seq<char> {
    u.skip(split_point(u))
}

pub proof fn lemma_last_index_of(u: Seq<char>, c: char)
    ensures
        u.contains(c) ==> 0 <= last_index_of(u, c) < u.len() && u[last_index_of(u, c)] == c
            && (forall|j: int| last_index_of(u, c) < j < u.len() ==> u[j] != c),
        !u.contains(c) ==> last_index_of(u, c) == -1,
    decreases u.len(),
{
    if u.len() == 0 {
        assert(!u.contains(c));
    } else if u.last() == c {
        assert(u.contains(c)) by {
            assert(u[u.len() - 1] == c);
        }
    } else {
        lemma_last_index_of(u.drop_last(), c);
        if u.contains(c) {
            let j = choose|j: int| 0 <= j < u.len() && u[j] == c;
            assert(j != u.len() - 1);
            assert(u.drop_last()[j] == c);
            assert(u.drop_last().contains(c));
            let l = last_index_of(u.drop_last(), c);
            assert(last_index_of(u, c) == l);
            assert(u[l] == u.drop_last()[l]);
            assert forall|m: int| l < m < u.len() implies u[m] != c by {
                if m < u.len() - 1 {
                    assert(u[m] == u.drop_last()[m]);
                }
            }
        } else {
            assert(!u.drop_last().contains(c)) by {
                if u.drop_last().contains(c) {
                    let j = choose|j: int| 0 <= j < u.len() - 1 && u.drop_last()[j] == c;
                    assert(u[j] == c);
                }
            }
        }
    }
}

proof fn lemma_last_index_char_at(u: Seq<char>, c: char, i: int)
    requires
        0 <= i < u.len(),
        u[i] == c,
        forall|j: int| i < j < u.len() ==> u[j] != c,
    ensures
        last_index_of(u, c) == i,
    decreases u.len(),
{
    if i == u.len() - 1 {
    } else {
        assert(u.last() != c);
        assert(u.drop_last()[i] == c);
        assert forall|j: int| i < j < u.drop_last().len() implies u.drop_last()[j] != c by {
            assert(u.drop_last()[j] == u[j]);
        }
        lemma_last_index_char_at(u.drop_last(), c, i);
    }
}

/// The split rule loses nothing: prefix and suffix concatenate back to the
/// URI.  This is the heart of the interning round trip.
pub proof fn lemma_split_concat(u: Seq<char>)
    requires
        has_sep(u),
    ensures
        0 < split_point(u) <= u.len(),
        prefix_of(u) + suffix_of(u) == u,
{
    lemma_last_index_of(u, '#');
    lemma_last_index_of(u, '/');
    assert(prefix_of(u) + suffix_of(u) =~= u);
}

/// Scans for the last occurrence of `c`.
#[verifier::loop_isolation(false)]
fn find_last_char(u: &str, c: char) -> (r: Option<usize>)
    ensures
        match r {
            Some(i) => u@.contains(c) && i as int == last_index_of(u@, c),
            None => !u@.contains(c),
        },
{
    let n = u.unicode_len();
    let mut i: usize = n;
    while i > 0
        invariant
            0 <= i <= n,
            forall|j: int| i <= j < n ==> u@[j] != c,
        decreases i,
    {
        i = i - 1;
        let ch = u.get_char(i);
        if ch == c {
            proof {
                lemma_last_index_char_at(u@, c, i as int);
                assert(u@.contains(c));
            }
            return Some(i);
        }
    }
    proof {
        if u@.contains(c) {
            let j = choose|j: int| 0 <= j < u@.len() && u@[j] == c;
            assert(u@[j] != c);
        }
    }
    None
}

/// Splits a URI at the last `#`, else the last `/`; `None` when it has
/// neither.
fn split_uri(u: &str) -> (r: Option<(String, String)>)
    ensures
        match r {
            Some(parts) => {
                &&& has_sep(u@)
                &&& parts.0@ == prefix_of(u@)
                &&& parts.1@ == suffix_of(u@)
            },
            None => !has_sep(u@),
        },
{
    match find_last_char(u, '#') {
        Some(i) => {
            proof {
                lemma_last_index_of(u@, '#');
                assert(split_point(u@) == i + 1);
            }
            Some(split_at(u, i))
        },
        None => {
            match find_last_char(u, '/') {
                Some(i) => {
                    proof {
                        lemma_last_index_of(u@, '/');
                        assert(split_point(u@) == i + 1);
                    }
                    Some(split_at(u, i))
                },
                None => None,
            }
        },
    }
}

/// Cuts `u` after character position `i`.
fn split_at(u: &str, i: usize) -> (r: (String, String))
    requires
        0 <= i < u@.len(),
        i + 1 == split_point(u@),
    ensures
        r.0@ == prefix_of(u@),
        r.1@ == suffix_of(u@),
{
    let n = u.unicode_len();
    let p = u.substring_char(0, i + 1).to_owned();
    let s = u.substring_char(i + 1, n).to_owned();
    proof {
        assert(p@ =~= prefix_of(u@));
        assert(s@ =~= suffix_of(u@));
    }
    (p, s)
}

/// Matches the quads that agree with every bound position of the mask.
pub open spec fn mask_pred(
    graph: Option<GraphID>,
    subject: Option<SubjectID>,
    predicate: Option<PredicateID>,
    object: Option<ObjectID>,
) -> spec_fn(StoreQuad) -> bool {
    |q: StoreQuad|
        {
            &&& match graph {
                Some(g) => q.0 == g,
                None => true,
            }
            &&& match subject {
                Some(s) => q.1 == s,
                None => true,
            }
            &&& match predicate {
                Some(p) => q.2 == p,
                None => true,
            }
            &&& match object {
                Some(o) => q.3 == o,
                None => true,
            }
        }
}

/// Matches the quads in graph `g`.
pub open spec fn graph_is(g: GraphID) -> spec_fn(StoreQuad) -> bool {
    |q: StoreQuad| q.0 == g
}

/// Matches the quads with object `o`.
pub open spec fn object_is(o: ObjectID) -> spec_fn(StoreQuad) -> bool {
    |q: StoreQuad| q.3 == o
}

/// The residual equality filter on the graph position.
#[verifier::loop_isolation(false)]
fn filter_by_graph(v: Vec<StoreQuad>, g: GraphID) -> (r: Vec<StoreQuad>)
    ensures
        r@ == v@.filter(graph_is(g)),
{
    let n = v.len();
    let mut r: Vec<StoreQuad> = Vec::new();
    let mut i: usize = 0;
    while i < n
        invariant
            0 <= i <= n,
            r@ == v@.take(i as int).filter(graph_is(g)),
        decreases n - i,
    {
        proof {
            lemma_filter_take_step(v@, i as int, graph_is(g));
        }
        if v[i].0 == g {
            r.push(v[i]);
        }
        i += 1;
    }
    proof {
        assert(v@.take(n as int) =~= v@);
    }
    r
}

/// The residual equality filter on the object position.
#[verifier::loop_isolation(false)]
fn filter_by_object(v: Vec<StoreQuad>, o: ObjectID) -> (r: Vec<StoreQuad>)
    ensures
        r@ == v@.filter(object_is(o)),
{
    let n = v.len();
    let mut r: Vec<StoreQuad> = Vec::new();
    let mut i: usize = 0;
    while i < n
        invariant
            0 <= i <= n,
            r@ == v@.take(i as int).filter(object_is(o)),
        decreases n - i,
    {
        proof {
            lemma_filter_take_step(v@, i as int, object_is(o));
        }
        if v[i].3 == o {
            r.push(v[i]);
        }
        i += 1;
    }
    proof {
        assert(v@.take(n as int) =~= v@);
    }
    r
}

/// The storage engine: glues the node table, the URI interner and the four
/// mirrored quad indices.
pub struct StorageEngine {
    object_map: ObjectMap,
    prefix_map: PrefixMap,
    suffix_map: SuffixMap,
    spog_index: SPOGIndex,
    gspo_index: GSPOIndex,
    posg_index: POSGIndex,
    ospg_index: OSPGIndex,
}

impl StorageEngine {
    /// The node table.
    pub closed spec fn object_arena(self) -> ObjectMap {
        self.object_map
    }

    /// The URI prefix arena.
    pub closed spec fn prefix_arena(self) -> PrefixMap {
        self.prefix_map
    }

    /// The URI suffix arena.
    pub closed spec fn suffix_arena(self) -> SuffixMap {
        self.suffix_map
    }

    /// The index ordered subject, predicate, object, graph.
    pub closed spec fn spog(self) -> SPOGIndex {
        self.spog_index
    }

    /// The index ordered graph, subject, predicate, object.
    pub closed spec fn gspo(self) -> GSPOIndex {
        self.gspo_index
    }

    /// The index ordered predicate, object, subject, graph.
    pub closed spec fn posg(self) -> POSGIndex {
        self.posg_index
    }

    /// The index ordered object, subject, predicate, graph.
    pub closed spec fn ospg(self) -> OSPGIndex {
        self.ospg_index
    }

    /// The set of live quads.
    pub open spec fn quads(self) -> Set<StoreQuad> {
        self.gspo().quads()
    }

    /// Whether node id `id` names a node.
    pub open spec fn node_live(self, id: InternalID) -> bool {
        self.object_arena().live(id.id_spec())
    }

    /// The node named by live id `id`.
    pub open spec fn node_at(self, id: InternalID) -> NodeView {
        self.object_arena().key_at(id.id_spec())
    }

    /// Whether some node id names `nv`.
    pub open spec fn contains_node(self, nv: NodeView) -> bool {
        self.object_arena().contains_key(nv)
    }

    /// The node id naming `nv`; meaningful only when `contains_node(nv)`.
    pub open spec fn node_id_of(self, nv: NodeView) -> int {
        self.object_arena().id_of(nv)
    }

    /// Whether a compact URI id points at live prefix and suffix slots.
    pub open spec fn uri_live(self, iid: InternalUriID) -> bool {
        self.prefix_arena().live(iid.0.id_spec()) && self.suffix_arena().live(iid.1.id_spec())
    }

    /// The URI a live compact id stands for: prefix concatenated with suffix.
    pub open spec fn materialize_spec(self, iid: InternalUriID) -> Seq<char> {
        self.prefix_arena().key_at(iid.0.id_spec()) + self.suffix_arena().key_at(iid.1.id_spec())
    }

    /// Whether `u` splits and both parts are already interned.
    pub open spec fn knows_uri(self, u: Seq<char>) -> bool {
        &&& has_sep(u)
        &&& self.prefix_arena().contains_key(prefix_of(u))
        &&& self.suffix_arena().contains_key(suffix_of(u))
    }

    /// The compact URI id under which this store knows `u`: the arena ids of
    /// its two parts.  Meaningful only when `knows_uri(u)`.
    pub open spec fn interned_uri_id(self, u: Seq<char>) -> InternalUriID {
        InternalUriID(
            ThirtyTwoBitID(self.prefix_arena().id_of(prefix_of(u)) as u32),
            ThirtyTwoBitID(self.suffix_arena().id_of(suffix_of(u)) as u32),
        )
    }

    /// Whether interning `u` must succeed: it splits, and each part is
    /// present already or its arena still has room.
    pub open spec fn can_intern_uri(self, u: Seq<char>) -> bool {
        &&& has_sep(u)
        &&& self.prefix_arena().contains_key(prefix_of(u)) || !self.prefix_arena().full()
        &&& self.suffix_arena().contains_key(suffix_of(u)) || !self.suffix_arena().full()
    }

    /// The node table and the quad indices are untouched.
    pub open spec fn same_nodes_and_quads(self, other: Self) -> bool {
        &&& self.object_arena() == other.object_arena()
        &&& self.same_indices(other)
    }

    /// The quad indices are untouched.
    pub open spec fn same_indices(self, other: Self) -> bool {
        &&& self.spog() == other.spog()
        &&& self.gspo() == other.gspo()
        &&& self.posg() == other.posg()
        &&& self.ospg() == other.ospg()
    }

    /// The URI arenas are untouched.
    pub open spec fn same_uris(self, other: Self) -> bool {
        self.prefix_arena() == other.prefix_arena() && self.suffix_arena() == other.suffix_arena()
    }

    /// Every interned URI part of `prev` is still interned, under the same
    /// id.
    pub open spec fn uris_grown_from(self, prev: Self) -> bool {
        &&& forall|i: int|
            #[trigger] prev.prefix_arena().live(i) ==> self.prefix_arena().live(i)
                && self.prefix_arena().key_at(i) == prev.prefix_arena().key_at(i)
        &&& forall|i: int|
            #[trigger] prev.suffix_arena().live(i) ==> self.suffix_arena().live(i)
                && self.suffix_arena().key_at(i) == prev.suffix_arena().key_at(i)
    }

    /// Every node of `prev` is still present, under the same id.
    pub open spec fn nodes_grown_from(self, prev: Self) -> bool {
        forall|i: int|
            #[trigger] prev.object_arena().live(i) ==> self.object_arena().live(i)
                && self.object_arena().key_at(i) == prev.object_arena().key_at(i)
    }

    /// The store invariant: arenas and indices are well formed, the four
    /// indices hold the same quads, every quad references live node ids, and
    /// the default graph is bootstrapped at id 0.
    pub open spec fn wf(self) -> bool {
        &&& self.object_arena().wf()
        &&& self.prefix_arena().wf()
        &&& self.suffix_arena().wf()
        &&& self.spog().wf()
        &&& self.gspo().wf()
        &&& self.posg().wf()
        &&& self.ospg().wf()
        &&& self.spog().quads() == self.quads()
        &&& self.posg().quads() == self.quads()
        &&& self.ospg().quads() == self.quads()
        &&& forall|q: StoreQuad|
            #[trigger] self.quads().contains(q) ==> self.node_live(q.0) && self.node_live(q.1)
                && self.node_live(q.2) && self.node_live(q.3)
        &&& self.node_live(default_graph_id())
    }

    /// Interns `uri` (write path): splits it and resolves each part,
    /// inserting only the parts that are absent, and returns the compact URI
    /// id.  A fully known URI leaves the store untouched.
    pub fn uri_to_internal_uri_id(&mut self, uri: &str) -> (r: Result<InternalUriID, StoreError>)
        requires
            old(self).wf(),
        ensures
            final(self).wf(),
            final(self).same_nodes_and_quads(*old(self)),
            final(self).uris_grown_from(*old(self)),
            r is Ok <==> old(self).can_intern_uri(uri@),
            old(self).knows_uri(uri@) ==> *final(self) == *old(self),
            match r {
                Ok(iid) => {
                    &&& final(self).uri_live(iid)
                    &&& final(self).prefix_arena().key_at(iid.0.id_spec()) == prefix_of(uri@)
                    &&& final(self).suffix_arena().key_at(iid.1.id_spec()) == suffix_of(uri@)
                    &&& final(self).materialize_spec(iid) == uri@
                    &&& final(self).knows_uri(uri@)
                    &&& iid == final(self).interned_uri_id(uri@)
                    &&& final(self).prefix_arena().grown_by(
                        old(self).prefix_arena(),
                        prefix_of(uri@),
                        iid.0.id_spec(),
                    )
                    &&& final(self).suffix_arena().grown_by(
                        old(self).suffix_arena(),
                        suffix_of(uri@),
                        iid.1.id_spec(),
                    )
                },
                Err(e) => {
                    &&& (e == StoreError::MalformedUri <==> !has_sep(uri@))
                    &&& e == StoreError::MalformedUri || e == StoreError::Overflow
                    &&& e == StoreError::MalformedUri ==> *final(self) == *old(self)
                },
            },
    {
        match split_uri(uri) {
            None => Err(StoreError::MalformedUri),
            Some((prefix_str, suffix_str)) => {
                proof {
                    lemma_split_concat(uri@);
                }
                let pid = match self.prefix_map.get_id_by_key(&prefix_str) {
                    Some(v) => v,
                    None => {
                        match self.prefix_map.insert_unchecked(prefix_str) {
                            Ok(v) => v,
                            Err(_) => {
                                return Err(StoreError::Overflow);
                            },
                        }
                    },
                };
                let sid = match self.suffix_map.get_id_by_key(&suffix_str) {
                    Some(v) => v,
                    None => {
                        match self.suffix_map.insert_unchecked(suffix_str) {
                            Ok(v) => v,
                            Err(_) => {
                                return Err(StoreError::Overflow);
                            },
                        }
                    },
                };
                proof {
                    self.prefix_map.lemma_id_of_live(pid.id_spec());
                    self.suffix_map.lemma_id_of_live(sid.id_spec());
                }
                Ok(InternalUriID(pid, sid))
            },
        }
    }

    /// Looks `uri` up (read path): splits it and resolves both parts without
    /// interning anything.
    pub fn uri_to_internal_uri_id_if_exist(&self, uri: &str) -> (r: Result<
        InternalUriID,
        StoreError,
    >)
        requires
            self.wf(),
        ensures
            r is Ok <==> self.knows_uri(uri@),
            match r {
                Ok(iid) => {
                    &&& self.uri_live(iid)
                    &&& self.prefix_arena().key_at(iid.0.id_spec()) == prefix_of(uri@)
                    &&& self.suffix_arena().key_at(iid.1.id_spec()) == suffix_of(uri@)
                    &&& self.materialize_spec(iid) == uri@
                    &&& iid == self.interned_uri_id(uri@)
                },
                Err(e) => {
                    &&& (e == StoreError::MalformedUri <==> !has_sep(uri@))
                    &&& e == StoreError::MalformedUri || e == StoreError::NotFound
                },
            },
    {
        match split_uri(uri) {
            None => Err(StoreError::MalformedUri),
            Some((prefix_str, suffix_str)) => {
                proof {
                    lemma_split_concat(uri@);
                }
                let pid = match self.prefix_map.get_id_by_key(&prefix_str) {
                    Some(v) => v,
                    None => {
                        return Err(StoreError::NotFound);
                    },
                };
                let sid = match self.suffix_map.get_id_by_key(&suffix_str) {
                    Some(v) => v,
                    None => {
                        return Err(StoreError::NotFound);
                    },
                };
                proof {
                    self.prefix_map.lemma_id_of_live(self.prefix_arena().id_of(prefix_of(uri@)));
                    self.suffix_map.lemma_id_of_live(self.suffix_arena().id_of(suffix_of(uri@)));
                }
                Ok(InternalUriID(pid, sid))
            },
        }
    }

    /// Recovers the URI string of a compact id: prefix concatenated with
    /// suffix.  A byte-exact inverse of interning.
    pub fn internal_uri_id_to_uri(&self, internal_uri_id: &InternalUriID) -> (r: Result<
        String,
        StoreError,
    >)
        requires
            self.wf(),
        ensures
            r is Ok <==> self.uri_live(*internal_uri_id),
            match r {
                Ok(s) => s@ == self.materialize_spec(*internal_uri_id),
                Err(e) => e == StoreError::NotFound,
            },
    {
        let prefix_string = match self.prefix_map.get_key_ref_by_id(&internal_uri_id.0) {
            Some(p) => p,
            None => {
                return Err(StoreError::NotFound);
            },
        };
        let suffix_string = match self.suffix_map.get_key_ref_by_id(&internal_uri_id.1) {
            Some(s) => s,
            None => {
                return Err(StoreError::NotFound);
            },
        };
        Ok(prefix_string.clone().concat(suffix_string.as_str()))
    }

    /// The node id of `node`, if it is in the node table.
    pub fn find_internal_id(&self, node: &StoreNode) -> (r: Result<InternalID, StoreError>)
        requires
            self.wf(),
        ensures
            r is Ok <==> self.contains_node(node@),
            match r {
                Ok(id) => {
                    &&& id.id_spec() == self.node_id_of(node@)
                    &&& self.node_live(id)
                    &&& self.node_at(id) == node@
                },
                Err(e) => e == StoreError::NotFound,
            },
    {
        match self.object_map.get_id_by_key(node) {
            Some(v) => Ok(InternalID(v)),
            None => Err(StoreError::NotFound),
        }
    }

    /// The node id of `node`, adding it to the node table if absent.
    pub fn find_or_add_internal_id(&mut self, node: StoreNode) -> (r: Result<
        InternalID,
        StoreError,
    >)
        requires
            old(self).wf(),
        ensures
            final(self).wf(),
            final(self).same_uris(*old(self)),
            final(self).same_indices(*old(self)),
            final(self).nodes_grown_from(*old(self)),
            r is Ok <==> old(self).contains_node(node@) || !old(self).object_arena().full(),
            match r {
                Ok(id) => {
                    &&& final(self).node_live(id)
                    &&& final(self).node_at(id) == node@
                    &&& id.id_spec() == final(self).node_id_of(node@)
                    &&& final(self).object_arena().grown_by(
                        old(self).object_arena(),
                        node@,
                        id.id_spec(),
                    )
                    &&& old(self).contains_node(node@) ==> id.id_spec() == old(self).node_id_of(
                        node@,
                    ) && *final(self) == *old(self)
                },
                Err(e) => e == StoreError::Overflow && *final(self) == *old(self),
            },
    {
        match self.object_map.insert_unchecked(node) {
            Ok(v) => {
                proof {
                    self.lemma_wf_after_node_growth(*old(self));
                    self.object_map.lemma_id_of_live(v.id_spec());
                }
                Ok(InternalID(v))
            },
            Err(_) => Err(StoreError::Overflow),
        }
    }

    /// Interns `uri` and returns the node id of its URI-reference node,
    /// adding both as needed.  A URI whose parts and node are already known
    /// leaves the store untouched and returns the same id again.
    pub fn uri_str_to_internal_id(&mut self, uri: &str) -> (r: Result<InternalID, StoreError>)
        requires
            old(self).wf(),
        ensures
            final(self).wf(),
            final(self).same_indices(*old(self)),
            final(self).nodes_grown_from(*old(self)),
            final(self).uris_grown_from(*old(self)),
            (r matches Err(e) && e == StoreError::MalformedUri) <==> !has_sep(uri@),
            old(self).can_intern_uri(uri@) && !old(self).object_arena().full() ==> r is Ok,
            old(self).knows_uri(uri@) && old(self).contains_node(
                NodeView::Uri(old(self).interned_uri_id(uri@)),
            ) ==> *final(self) == *old(self),
            match r {
                Ok(id) => {
                    &&& final(self).node_live(id)
                    &&& final(self).knows_uri(uri@)
                    &&& final(self).node_at(id) == NodeView::Uri(final(self).interned_uri_id(uri@))
                    &&& id.id_spec() == final(self).node_id_of(
                        NodeView::Uri(final(self).interned_uri_id(uri@)),
                    )
                    &&& final(self).uri_live(final(self).interned_uri_id(uri@))
                    &&& final(self).materialize_spec(final(self).interned_uri_id(uri@)) == uri@
                },
                Err(e) => e == StoreError::MalformedUri || e == StoreError::Overflow
                    || e == StoreError::NotFound,
            },
    {
        let internal_uri_id = match self.uri_to_internal_uri_id(uri) {
            Ok(iid) => iid,
            Err(e) => {
                return Err(e);
            },
        };
        let rdfuri = RDFUri::from_iuid(internal_uri_id);
        let wrapped_uri_id = StoreNode::URIRef(rdfuri);
        let ghost mid = *self;
        let r = self.find_or_add_internal_id(wrapped_uri_id);
        match r {
            Ok(id) => {
                proof {
                    assert(final(self).same_uris(mid));
                    assert(final(self).interned_uri_id(uri@) == internal_uri_id);
                    assert(final(self).node_at(id) == NodeView::Uri(internal_uri_id));
                    assert(mid.uri_live(internal_uri_id));
                }
                Ok(id)
            },
            Err(e) => Err(e),
        }
    }

    /// The node named by `iid`, if the id is live.
    pub fn lookup_node_by_iid<'a>(&'a self, iid: &InternalID) -> (r: Result<
        &'a StoreNode,
        StoreError,
    >)
        requires
            self.wf(),
        ensures
            r is Ok <==> self.node_live(*iid),
            match r {
                Ok(n) => n@ == self.node_at(*iid),
                Err(e) => e == StoreError::NotFound,
            },
    {
        match self.object_map.get_key_ref_by_id(&iid.0) {
            Some(n) => Ok(n),
            None => Err(StoreError::NotFound),
        }
    }

    /// Adds the quad to all four indices.  Idempotent: an equal quad already
    /// present leaves the store untouched.
    pub fn add_internal_quad(
        &mut self,
        graph: GraphID,
        subject: SubjectID,
        predicate: PredicateID,
        object: ObjectID,
    )
        requires
            old(self).wf(),
            old(self).node_live(graph),
            old(self).node_live(subject),
            old(self).node_live(predicate),
            old(self).node_live(object),
        ensures
            final(self).wf(),
            final(self).same_uris(*old(self)),
            final(self).object_arena() == old(self).object_arena(),
            final(self).quads() == old(self).quads().insert(
                (graph, subject, predicate, object),
            ),
            old(self).quads().contains((graph, subject, predicate, object)) ==> *final(self)
                == *old(self),
    {
        let ghost q: StoreQuad = (graph, subject, predicate, object);
        let gspo_entry = GSPO::build_from_quad(&graph, &subject, &predicate, &object);
        if self.gspo_index.find_exact_struct(&gspo_entry) {
            proof {
                crate::indexed_quad_set::lemma_index_contains(self.gspo(), q);
                assert(self.quads().insert(q) =~= self.quads());
            }
            return ;
        }
        let ghost pre = *self;
        self.spog_index.add_entry(SPOG::build_from_quad(&graph, &subject, &predicate, &object));
        self.gspo_index.add_entry(gspo_entry);
        self.posg_index.add_entry(POSG::build_from_quad(&graph, &subject, &predicate, &object));
        self.ospg_index.add_entry(OSPG::build_from_quad(&graph, &subject, &predicate, &object));
        proof {
            crate::indexed_quad_set::lemma_index_quads_insert::<SPOG>(
                pre.spog(),
                self.spog(),
                q,
            );
            crate::indexed_quad_set::lemma_index_quads_insert::<GSPO>(
                pre.gspo(),
                self.gspo(),
                q,
            );
            crate::indexed_quad_set::lemma_index_quads_insert::<POSG>(
                pre.posg(),
                self.posg(),
                q,
            );
            crate::indexed_quad_set::lemma_index_quads_insert::<OSPG>(
                pre.ospg(),
                self.ospg(),
                q,
            );
            assert forall|x: StoreQuad| #[trigger] self.quads().contains(x) implies self.node_live(
                x.0,
            ) && self.node_live(x.1) && self.node_live(x.2) && self.node_live(x.3) by {
                if x != q {
                    assert(pre.quads().contains(x));
                }
            }
        }
    }

    /// `add_internal_quad` with the default graph.
    pub fn add_internal_triple(
        &mut self,
        subject: SubjectID,
        predicate: PredicateID,
        object: ObjectID,
    )
        requires
            old(self).wf(),
            old(self).node_live(subject),
            old(self).node_live(predicate),
            old(self).node_live(object),
        ensures
            final(self).wf(),
            final(self).same_uris(*old(self)),
            final(self).object_arena() == old(self).object_arena(),
            final(self).quads() == old(self).quads().insert(
                (default_graph_id(), subject, predicate, object),
            ),
    {
        let graph_id = InternalID(SixtyFourBitID(0));
        self.add_internal_quad(graph_id, subject, predicate, object)
    }

    /// Removes the quad from all four indices; absent quads leave the store
    /// untouched.
    pub fn remove_internal_quad(
        &mut self,
        graph: GraphID,
        subject: SubjectID,
        predicate: PredicateID,
        object: ObjectID,
    )
        requires
            old(self).wf(),
        ensures
            final(self).wf(),
            final(self).same_uris(*old(self)),
            final(self).object_arena() == old(self).object_arena(),
            final(self).quads() == old(self).quads().remove(
                (graph, subject, predicate, object),
            ),
            !old(self).quads().contains((graph, subject, predicate, object)) ==> *final(self)
                == *old(self),
    {
        let ghost q: StoreQuad = (graph, subject, predicate, object);
        let gspo_entry = GSPO::build_from_quad(&graph, &subject, &predicate, &object);
        if !self.gspo_index.find_exact_struct(&gspo_entry) {
            proof {
                crate::indexed_quad_set::lemma_index_contains(self.gspo(), q);
                assert(self.quads().remove(q) =~= self.quads());
            }
            return ;
        }
        let ghost pre = *self;
        self.spog_index.remove_entry(&SPOG::build_from_quad(&graph, &subject, &predicate, &object));
        self.gspo_index.remove_entry(&gspo_entry);
        self.posg_index.remove_entry(&POSG::build_from_quad(&graph, &subject, &predicate, &object));
        self.ospg_index.remove_entry(&OSPG::build_from_quad(&graph, &subject, &predicate, &object));
        proof {
            crate::indexed_quad_set::lemma_index_quads_remove::<SPOG>(
                pre.spog(),
                self.spog(),
                q,
            );
            crate::indexed_quad_set::lemma_index_quads_remove::<GSPO>(
                pre.gspo(),
                self.gspo(),
                q,
            );
            crate::indexed_quad_set::lemma_index_quads_remove::<POSG>(
                pre.posg(),
                self.posg(),
                q,
            );
            crate::indexed_quad_set::lemma_index_quads_remove::<OSPG>(
                pre.ospg(),
                self.ospg(),
                q,
            );
            assert forall|x: StoreQuad| #[trigger] self.quads().contains(x) implies self.node_live(
                x.0,
            ) && self.node_live(x.1) && self.node_live(x.2) && self.node_live(x.3) by {
                assert(pre.quads().contains(x));
            }
        }
    }

    /// `remove_internal_quad` with the default graph.
    pub fn remove_internal_triple(
        &mut self,
        subject: SubjectID,
        predicate: PredicateID,
        object: ObjectID,
    )
        requires
            old(self).wf(),
        ensures
            final(self).wf(),
            final(self).same_uris(*old(self)),
            final(self).object_arena() == old(self).object_arena(),
            final(self).quads() == old(self).quads().remove(
                (default_graph_id(), subject, predicate, object),
            ),
    {
        let graph_id = InternalID(SixtyFourBitID(0));
        self.remove_internal_quad(graph_id, subject, predicate, object)
    }

    /// An empty result.
    pub fn empty_iter() -> (r: Vec<StoreQuad>)
        ensures
            r@ == Seq::<StoreQuad>::empty(),
    {
        Vec::new()
    }

    /// The result sequence of a pattern query, case by bind mask.  Each case
    /// names the index the planner scans, the scanned prefix, and the
    /// residual filter where one is needed.
    pub open spec fn search_spec(
        self,
        graph: Option<GraphID>,
        subject: Option<SubjectID>,
        predicate: Option<PredicateID>,
        object: Option<ObjectID>,
    ) -> Seq<StoreQuad> {
        match (graph, subject, predicate, object) {
            (Some(g), Some(s), Some(p), Some(o)) => if self.gspo().key_set().contains(
                GSPO::key_of_quad((g, s, p, o)),
            ) {
                seq![(g, s, p, o)]
            } else {
                Seq::<StoreQuad>::empty()
            },
            (None, None, None, None) => self.gspo().keys().map_values(quad_mapper::<GSPO>()),
            (Some(g), Some(s), Some(p), None) => self.gspo().keys().filter(
                prefix_three(g.0.0, s.0.0, p.0.0),
            ).map_values(quad_mapper::<GSPO>()),
            (Some(g), Some(s), None, None) => self.gspo().keys().filter(
                prefix_two(g.0.0, s.0.0),
            ).map_values(quad_mapper::<GSPO>()),
            (Some(g), None, None, None) => self.gspo().keys().filter(
                prefix_one(g.0.0),
            ).map_values(quad_mapper::<GSPO>()),
            (Some(g), Some(s), None, Some(o)) => self.gspo().keys().filter(
                prefix_two(g.0.0, s.0.0),
            ).map_values(quad_mapper::<GSPO>()).filter(object_is(o)),
            (Some(g), None, Some(p), Some(o)) => self.posg().keys().filter(
                prefix_two(p.0.0, o.0.0),
            ).map_values(quad_mapper::<POSG>()).filter(graph_is(g)),
            (Some(g), None, Some(p), None) => self.posg().keys().filter(
                prefix_one(p.0.0),
            ).map_values(quad_mapper::<POSG>()).filter(graph_is(g)),
            (Some(g), None, None, Some(o)) => self.ospg().keys().filter(
                prefix_one(o.0.0),
            ).map_values(quad_mapper::<OSPG>()).filter(graph_is(g)),
            (None, Some(s), Some(p), Some(o)) => self.spog().keys().filter(
                prefix_three(s.0.0, p.0.0, o.0.0),
            ).map_values(quad_mapper::<SPOG>()),
            (None, Some(s), Some(p), None) => self.spog().keys().filter(
                prefix_two(s.0.0, p.0.0),
            ).map_values(quad_mapper::<SPOG>()),
            (None, Some(s), None, None) => self.spog().keys().filter(
                prefix_one(s.0.0),
            ).map_values(quad_mapper::<SPOG>()),
            (None, None, Some(p), Some(o)) => self.posg().keys().filter(
                prefix_two(p.0.0, o.0.0),
            ).map_values(quad_mapper::<POSG>()),
            (None, None, Some(p), None) => self.posg().keys().filter(
                prefix_one(p.0.0),
            ).map_values(quad_mapper::<POSG>()),
            (None, Some(s), None, Some(o)) => self.ospg().keys().filter(
                prefix_two(o.0.0, s.0.0),
            ).map_values(quad_mapper::<OSPG>()),
            (None, None, None, Some(o)) => self.ospg().keys().filter(
                prefix_one(o.0.0),
            ).map_values(quad_mapper::<OSPG>()),
        }
    }

    /// Answers a pattern query over node ids: dispatches on the bind mask,
    /// scans the chosen index, and applies the residual filter where the
    /// prefix does not cover all bound positions.
    pub fn search_engine_internal(
        &self,
        graph: Option<GraphID>,
        subject: Option<SubjectID>,
        predicate: Option<PredicateID>,
        object: Option<ObjectID>,
    ) -> (r: Vec<StoreQuad>)
        requires
            self.wf(),
        ensures
            r@ == self.search_spec(graph, subject, predicate, object),
    {
        match (graph, subject, predicate, object) {
            (Some(g), Some(s), Some(p), Some(o)) => {
                let entry = GSPO::build_from_quad(&g, &s, &p, &o);
                if self.gspo_index.find_exact_struct(&entry) {
                    let mut out: Vec<StoreQuad> = Vec::new();
                    out.push((g, s, p, o));
                    proof {
                        assert(out@ =~= seq![(g, s, p, o)]);
                    }
                    out
                } else {
                    let out: Vec<StoreQuad> = Vec::new();
                    proof {
                        assert(out@ =~= Seq::<StoreQuad>::empty());
                    }
                    out
                }
            },
            (None, None, None, None) => {
                let keys = self.gspo_index.full_range();
                keys_to_quads::<GSPO>(&keys)
            },
            (Some(g), Some(s), Some(p), None) => {
                let keys = self.gspo_index.find_by_first_three(g.0.0, s.0.0, p.0.0);
                keys_to_quads::<GSPO>(&keys)
            },
            (Some(g), Some(s), None, None) => {
                let keys = self.gspo_index.find_by_first_two(g.0.0, s.0.0);
                keys_to_quads::<GSPO>(&keys)
            },
            (Some(g), None, None, None) => {
                let keys = self.gspo_index.find_by_first_one(g.0.0);
                keys_to_quads::<GSPO>(&keys)
            },
            (Some(g), Some(s), None, Some(o)) => {
                let keys = self.gspo_index.find_by_first_two(g.0.0, s.0.0);
                let quads = keys_to_quads::<GSPO>(&keys);
                filter_by_object(quads, o)
            },
            (Some(g), None, Some(p), Some(o)) => {
                let keys = self.posg_index.find_by_first_two(p.0.0, o.0.0);
                let quads = keys_to_quads::<POSG>(&keys);
                filter_by_graph(quads, g)
            },
            (Some(g), None, Some(p), None) => {
                let keys = self.posg_index.find_by_first_one(p.0.0);
                let quads = keys_to_quads::<POSG>(&keys);
                filter_by_graph(quads, g)
            },
            (Some(g), None, None, Some(o)) => {
                let keys = self.ospg_index.find_by_first_one(o.0.0);
                let quads = keys_to_quads::<OSPG>(&keys);
                filter_by_graph(quads, g)
            },
            (None, Some(s), Some(p), Some(o)) => {
                let keys = self.spog_index.find_by_first_three(s.0.0, p.0.0, o.0.0);
                keys_to_quads::<SPOG>(&keys)
            },
            (None, Some(s), Some(p), None) => {
                let keys = self.spog_index.find_by_first_two(s.0.0, p.0.0);
                keys_to_quads::<SPOG>(&keys)
            },
            (None, Some(s), None, None) => {
                let keys = self.spog_index.find_by_first_one(s.0.0);
                keys_to_quads::<SPOG>(&keys)
            },
            (None, None, Some(p), Some(o)) => {
                let keys = self.posg_index.find_by_first_two(p.0.0, o.0.0);
                keys_to_quads::<POSG>(&keys)
            },
            (None, None, Some(p), None) => {
                let keys = self.posg_index.find_by_first_one(p.0.0);
                keys_to_quads::<POSG>(&keys)
            },
            (None, Some(s), None, Some(o)) => {
                let keys = self.ospg_index.find_by_first_two(o.0.0, s.0.0);
                keys_to_quads::<OSPG>(&keys)
            },
            (None, None, None, Some(o)) => {
                let keys = self.ospg_index.find_by_first_one(o.0.0);
                keys_to_quads::<OSPG>(&keys)
            },
        }
    }

    /// Planner correctness: for every bind mask, the query result holds
    /// exactly the quads of the store that agree with every bound position.
    pub proof fn lemma_planner_correct(
        self,
        graph: Option<GraphID>,
        subject: Option<SubjectID>,
        predicate: Option<PredicateID>,
        object: Option<ObjectID>,
    )
        requires
            self.wf(),
        ensures
            forall|q: StoreQuad|
                #[trigger] self.search_spec(graph, subject, predicate, object).contains(q) <==> (
                self.quads().contains(q) && mask_pred(graph, subject, predicate, object)(q)),
    {
        let m = mask_pred(graph, subject, predicate, object);
        match (graph, subject, predicate, object) {
            (Some(g), Some(s), Some(p), Some(o)) => {
                let q0: StoreQuad = (g, s, p, o);
                crate::indexed_quad_set::lemma_index_contains(self.gspo(), q0);
                assert forall|q: StoreQuad|
                    #[trigger] self.search_spec(graph, subject, predicate, object).contains(q)
                        <==> (self.quads().contains(q) && m(q)) by {
                    if self.gspo().key_set().contains(GSPO::key_of_quad(q0)) {
                        assert(self.search_spec(graph, subject, predicate, object) == seq![q0]);
                        assert(seq![q0][0] == q0);
                        if q == q0 {
                            assert(seq![q0].contains(q0));
                        }
                        if self.quads().contains(q) && m(q) {
                            assert(q == (q.0, q.1, q.2, q.3));
                            assert(q == q0);
                        }
                        if seq![q0].contains(q) {
                            let j = choose|j: int| 0 <= j < 1 && seq![q0][j] == q;
                            assert(q == q0);
                        }
                    } else {
                        if self.quads().contains(q) && m(q) {
                            assert(q == (q.0, q.1, q.2, q.3));
                            assert(q == q0);
                        }
                    }
                }
            },
            (None, None, None, None) => {
                crate::indexed_quad_set::lemma_full_scan_iff(self.gspo());
            },
            (Some(g), Some(s), Some(p), None) => {
                crate::indexed_quad_set::lemma_filtered_scan_iff::<GSPO>(
                    self.gspo(),
                    prefix_three(g.0.0, s.0.0, p.0.0),
                    m,
                );
            },
            (Some(g), Some(s), None, None) => {
                crate::indexed_quad_set::lemma_filtered_scan_iff::<GSPO>(
                    self.gspo(),
                    prefix_two(g.0.0, s.0.0),
                    m,
                );
            },
            (Some(g), None, None, None) => {
                crate::indexed_quad_set::lemma_filtered_scan_iff::<GSPO>(
                    self.gspo(),
                    prefix_one(g.0.0),
                    m,
                );
            },
            (Some(g), Some(s), None, Some(o)) => {
                let part = mask_pred(graph, subject, None, None);
                crate::indexed_quad_set::lemma_filtered_scan_iff::<GSPO>(
                    self.gspo(),
                    prefix_two(g.0.0, s.0.0),
                    part,
                );
                crate::indexed_quad_set::lemma_filter_contains_iff(
                    self.gspo().keys().filter(prefix_two(g.0.0, s.0.0)).map_values(
                        quad_mapper::<GSPO>(),
                    ),
                    object_is(o),
                );
            },
            (Some(g), None, Some(p), Some(o)) => {
                let part = mask_pred(None, None, predicate, object);
                crate::indexed_quad_set::lemma_filtered_scan_iff::<POSG>(
                    self.posg(),
                    prefix_two(p.0.0, o.0.0),
                    part,
                );
                crate::indexed_quad_set::lemma_filter_contains_iff(
                    self.posg().keys().filter(prefix_two(p.0.0, o.0.0)).map_values(
                        quad_mapper::<POSG>(),
                    ),
                    graph_is(g),
                );
            },
            (Some(g), None, Some(p), None) => {
                let part = mask_pred(None, None, predicate, None);
                crate::indexed_quad_set::lemma_filtered_scan_iff::<POSG>(
                    self.posg(),
                    prefix_one(p.0.0),
                    part,
                );
                crate::indexed_quad_set::lemma_filter_contains_iff(
                    self.posg().keys().filter(prefix_one(p.0.0)).map_values(
                        quad_mapper::<POSG>(),
                    ),
                    graph_is(g),
                );
            },
            (Some(g), None, None, Some(o)) => {
                let part = mask_pred(None, None, None, object);
                crate::indexed_quad_set::lemma_filtered_scan_iff::<OSPG>(
                    self.ospg(),
                    prefix_one(o.0.0),
                    part,
                );
                crate::indexed_quad_set::lemma_filter_contains_iff(
                    self.ospg().keys().filter(prefix_one(o.0.0)).map_values(
                        quad_mapper::<OSPG>(),
                    ),
                    graph_is(g),
                );
            },
            (None, Some(s), Some(p), Some(o)) => {
                crate::indexed_quad_set::lemma_filtered_scan_iff::<SPOG>(
                    self.spog(),
                    prefix_three(s.0.0, p.0.0, o.0.0),
                    m,
                );
            },
            (None, Some(s), Some(p), None) => {
                crate::indexed_quad_set::lemma_filtered_scan_iff::<SPOG>(
                    self.spog(),
                    prefix_two(s.0.0, p.0.0),
                    m,
                );
            },
            (None, Some(s), None, None) => {
                crate::indexed_quad_set::lemma_filtered_scan_iff::<SPOG>(
                    self.spog(),
                    prefix_one(s.0.0),
                    m,
                );
            },
            (None, None, Some(p), Some(o)) => {
                crate::indexed_quad_set::lemma_filtered_scan_iff::<POSG>(
                    self.posg(),
                    prefix_two(p.0.0, o.0.0),
                    m,
                );
            },
            (None, None, Some(p), None) => {
                crate::indexed_quad_set::lemma_filtered_scan_iff::<POSG>(
                    self.posg(),
                    prefix_one(p.0.0),
                    m,
                );
            },
            (None, Some(s), None, Some(o)) => {
                crate::indexed_quad_set::lemma_filtered_scan_iff::<OSPG>(
                    self.ospg(),
                    prefix_two(o.0.0, s.0.0),
                    m,
                );
            },
            (None, None, None, Some(o)) => {
                crate::indexed_quad_set::lemma_filtered_scan_iff::<OSPG>(
                    self.ospg(),
                    prefix_one(o.0.0),
                    m,
                );
            },
        }
    }

    /// Every masked query equals the exhaustive filter of the unbound query
    /// against the same bound values.
    pub proof fn lemma_planner_vs_full_scan(
        self,
        graph: Option<GraphID>,
        subject: Option<SubjectID>,
        predicate: Option<PredicateID>,
        object: Option<ObjectID>,
    )
        requires
            self.wf(),
        ensures
            forall|q: StoreQuad|
                #[trigger] self.search_spec(graph, subject, predicate, object).contains(q) <==> (
                self.search_spec(None, None, None, None).contains(q) && mask_pred(
                    graph,
                    subject,
                    predicate,
                    object,
                )(q)),
    {
        self.lemma_planner_correct(graph, subject, predicate, object);
        self.lemma_planner_correct(None, None, None, None);
        assert forall|q: StoreQuad| #[trigger] mask_pred(None, None, None, None)(q) by {}
    }

    /// Query results carry a single copy of each quad, whichever mask is
    /// asked: set semantics on the four indices.
    pub proof fn lemma_search_no_duplicates(
        self,
        graph: Option<GraphID>,
        subject: Option<SubjectID>,
        predicate: Option<PredicateID>,
        object: Option<ObjectID>,
    )
        requires
            self.wf(),
        ensures
            self.search_spec(graph, subject, predicate, object).no_duplicates(),
    {
        crate::indexed_quad_set::lemma_sorted_no_dup(self.spog().keys());
        crate::indexed_quad_set::lemma_sorted_no_dup(self.gspo().keys());
        crate::indexed_quad_set::lemma_sorted_no_dup(self.posg().keys());
        crate::indexed_quad_set::lemma_sorted_no_dup(self.ospg().keys());
        match (graph, subject, predicate, object) {
            (Some(g), Some(s), Some(p), Some(o)) => {
            },
            (None, None, None, None) => {
                crate::indexed_quad_set::lemma_map_no_dup::<GSPO>(self.gspo().keys());
            },
            (Some(g), Some(s), Some(p), None) => {
                self.lemma_scan_no_dup::<GSPO>(self.gspo(), prefix_three(g.0.0, s.0.0, p.0.0));
            },
            (Some(g), Some(s), None, None) => {
                self.lemma_scan_no_dup::<GSPO>(self.gspo(), prefix_two(g.0.0, s.0.0));
            },
            (Some(g), None, None, None) => {
                self.lemma_scan_no_dup::<GSPO>(self.gspo(), prefix_one(g.0.0));
            },
            (Some(g), Some(s), None, Some(o)) => {
                self.lemma_scan_no_dup::<GSPO>(self.gspo(), prefix_two(g.0.0, s.0.0));
                crate::indexed_quad_set::lemma_filter_no_dup(
                    self.gspo().keys().filter(prefix_two(g.0.0, s.0.0)).map_values(
                        quad_mapper::<GSPO>(),
                    ),
                    object_is(o),
                );
            },
            (Some(g), None, Some(p), Some(o)) => {
                self.lemma_scan_no_dup::<POSG>(self.posg(), prefix_two(p.0.0, o.0.0));
                crate::indexed_quad_set::lemma_filter_no_dup(
                    self.posg().keys().filter(prefix_two(p.0.0, o.0.0)).map_values(
                        quad_mapper::<POSG>(),
                    ),
                    graph_is(g),
                );
            },
            (Some(g), None, Some(p), None) => {
                self.lemma_scan_no_dup::<POSG>(self.posg(), prefix_one(p.0.0));
                crate::indexed_quad_set::lemma_filter_no_dup(
                    self.posg().keys().filter(prefix_one(p.0.0)).map_values(
                        quad_mapper::<POSG>(),
                    ),
                    graph_is(g),
                );
            },
            (Some(g), None, None, Some(o)) => {
                self.lemma_scan_no_dup::<OSPG>(self.ospg(), prefix_one(o.0.0));
                crate::indexed_quad_set::lemma_filter_no_dup(
                    self.ospg().keys().filter(prefix_one(o.0.0)).map_values(
                        quad_mapper::<OSPG>(),
                    ),
                    graph_is(g),
                );
            },
            (None, Some(s), Some(p), Some(o)) => {
                self.lemma_scan_no_dup::<SPOG>(self.spog(), prefix_three(s.0.0, p.0.0, o.0.0));
            },
            (None, Some(s), Some(p), None) => {
                self.lemma_scan_no_dup::<SPOG>(self.spog(), prefix_two(s.0.0, p.0.0));
            },
            (None, Some(s), None, None) => {
                self.lemma_scan_no_dup::<SPOG>(self.spog(), prefix_one(s.0.0));
            },
            (None, None, Some(p), Some(o)) => {
                self.lemma_scan_no_dup::<POSG>(self.posg(), prefix_two(p.0.0, o.0.0));
            },
            (None, None, Some(p), None) => {
                self.lemma_scan_no_dup::<POSG>(self.posg(), prefix_one(p.0.0));
            },
            (None, Some(s), None, Some(o)) => {
                self.lemma_scan_no_dup::<OSPG>(self.ospg(), prefix_two(o.0.0, s.0.0));
            },
            (None, None, None, Some(o)) => {
                self.lemma_scan_no_dup::<OSPG>(self.ospg(), prefix_one(o.0.0));
            },
        }
    }

    /// A prefix scan of a well-formed index yields no duplicates.
    proof fn lemma_scan_no_dup<Q: IndexOrder>(
        self,
        idx: IndexedQuadSet<Q>,
        kp: spec_fn(IndexKey) -> bool,
    )
        requires
            idx.wf(),
        ensures
            idx.keys().filter(kp).map_values(quad_mapper::<Q>()).no_duplicates(),
    {
        crate::indexed_quad_set::lemma_sorted_no_dup(idx.keys());
        crate::indexed_quad_set::lemma_filter_no_dup(idx.keys(), kp);
        crate::indexed_quad_set::lemma_map_no_dup::<Q>(idx.keys().filter(kp));
    }

    /// Whether an optional node argument resolves: unbound positions always
    /// do, bound ones only when the node is in the table.
    pub open spec fn mask_known(self, n: Option<StoreNode>) -> bool {
        match n {
            Some(node) => self.contains_node(node@),
            None => true,
        }
    }

    /// The node id a bound position resolves to.
    pub open spec fn resolve_mask(self, n: Option<StoreNode>) -> Option<InternalID> {
        match n {
            Some(node) => Some(InternalID(SixtyFourBitID(self.node_id_of(node@) as u64))),
            None => None,
        }
    }

    /// The id-quads a node-level query resolves to.
    pub open spec fn search_nodes_spec(
        self,
        graph: Option<StoreNode>,
        subject: Option<StoreNode>,
        predicate: Option<StoreNode>,
        object: Option<StoreNode>,
    ) -> Seq<StoreQuad> {
        self.search_spec(
            self.resolve_mask(graph),
            self.resolve_mask(subject),
            self.resolve_mask(predicate),
            self.resolve_mask(object),
        )
    }

    /// An owned copy of the node at a live id.
    fn node_clone_at(&self, id: &InternalID) -> (r: StoreNode)
        requires
            self.wf(),
            self.node_live(*id),
        ensures
            r@ == self.node_at(*id),
    {
        match self.object_map.get_key_ref_by_id(&id.0) {
            Some(n) => n.clone(),
            None => {
                proof {
                    assert(false);
                }
                StoreNode::Blank(BlankNode::from_internal_id(*id))
            },
        }
    }

    /// Answers a pattern query over node values.  Bound nodes are resolved
    /// by lookup only — a read never mutates the store — and any unknown
    /// bound node short-circuits to an empty result.
    #[verifier::loop_isolation(false)]
    pub fn search_nodes(
        &self,
        graph: Option<StoreNode>,
        subject: Option<StoreNode>,
        predicate: Option<StoreNode>,
        object: Option<StoreNode>,
    ) -> (r: Vec<(StoreNode, StoreNode, StoreNode, StoreNode)>)
        requires
            self.wf(),
        ensures
            !(self.mask_known(graph) && self.mask_known(subject) && self.mask_known(predicate)
                && self.mask_known(object)) ==> r@ == Seq::<
                (StoreNode, StoreNode, StoreNode, StoreNode),
            >::empty(),
            self.mask_known(graph) && self.mask_known(subject) && self.mask_known(predicate)
                && self.mask_known(object) ==> {
                &&& r@.len() == self.search_nodes_spec(graph, subject, predicate, object).len()
                &&& forall|i: int|
                    0 <= i < r@.len() ==> {
                        let q = self.search_nodes_spec(graph, subject, predicate, object)[i];
                        (#[trigger] r@[i]).0@ == self.node_at(q.0) && r@[i].1@ == self.node_at(
                            q.1,
                        ) && r@[i].2@ == self.node_at(q.2) && r@[i].3@ == self.node_at(q.3)
                    }
            },
    {
        let gid = match &graph {
            Some(n) => {
                match self.find_internal_id(n) {
                    Ok(id) => Some(id),
                    Err(_) => {
                        return Vec::new();
                    },
                }
            },
            None => None,
        };
        let sid = match &subject {
            Some(n) => {
                match self.find_internal_id(n) {
                    Ok(id) => Some(id),
                    Err(_) => {
                        return Vec::new();
                    },
                }
            },
            None => None,
        };
        let pid = match &predicate {
            Some(n) => {
                match self.find_internal_id(n) {
                    Ok(id) => Some(id),
                    Err(_) => {
                        return Vec::new();
                    },
                }
            },
            None => None,
        };
        let oid = match &object {
            Some(n) => {
                match self.find_internal_id(n) {
                    Ok(id) => Some(id),
                    Err(_) => {
                        return Vec::new();
                    },
                }
            },
            None => None,
        };
        proof {
            assert(gid == self.resolve_mask(graph));
            assert(sid == self.resolve_mask(subject));
            assert(pid == self.resolve_mask(predicate));
            assert(oid == self.resolve_mask(object));
            self.lemma_planner_correct(gid, sid, pid, oid);
        }
        let ids = self.search_engine_internal(gid, sid, pid, oid);
        let ghost spec_ids = self.search_spec(gid, sid, pid, oid);
        let n = ids.len();
        let mut out: Vec<(StoreNode, StoreNode, StoreNode, StoreNode)> = Vec::new();
        let mut i: usize = 0;
        while i < n
            invariant
                0 <= i <= n,
                out@.len() == i,
                forall|j: int|
                    0 <= j < i ==> {
                        let q = spec_ids[j];
                        (#[trigger] out@[j]).0@ == self.node_at(q.0) && out@[j].1@ == self.node_at(
                            q.1,
                        ) && out@[j].2@ == self.node_at(q.2) && out@[j].3@ == self.node_at(q.3)
                    },
            decreases n - i,
        {
            let q = ids[i];
            proof {
                assert(spec_ids.contains(spec_ids[i as int]));
            }
            let gn = self.node_clone_at(&q.0);
            let sn = self.node_clone_at(&q.1);
            let pn = self.node_clone_at(&q.2);
            let on = self.node_clone_at(&q.3);
            out.push((gn, sn, pn, on));
            i += 1;
        }
        out
    }

    /// Growing the node table preserves the store invariant.
    proof fn lemma_wf_after_node_growth(self, prev: Self)
        requires
            prev.wf(),
            self.object_arena().wf(),
            self.nodes_grown_from(prev),
            self.same_uris(prev),
            self.same_indices(prev),
        ensures
            self.wf(),
    {
        assert(self.quads() == prev.quads());
        assert forall|q: StoreQuad| #[trigger] self.quads().contains(q) implies self.node_live(q.0)
            && self.node_live(q.1) && self.node_live(q.2) && self.node_live(q.3) by {
            assert(prev.quads().contains(q));
        }
        assert(self.node_live(default_graph_id()));
    }
}

impl Default for StorageEngine {
    /// An empty store with the default graph bootstrapped: its sentinel URI
    /// is interned first and its node receives id 0.
    fn default() -> (r: StorageEngine)
        ensures
            r.wf(),
            r.quads() == Set::<StoreQuad>::empty(),
            r.node_at(default_graph_id()) == NodeView::Uri(
                InternalUriID(ThirtyTwoBitID(0), ThirtyTwoBitID(0)),
            ),
            r.uri_live(InternalUriID(ThirtyTwoBitID(0), ThirtyTwoBitID(0))),
            r.materialize_spec(InternalUriID(ThirtyTwoBitID(0), ThirtyTwoBitID(0)))
                == default_graph_uri_spec(),
            r.knows_uri(default_graph_uri_spec()),
            r.interned_uri_id(default_graph_uri_spec()) == InternalUriID(
                ThirtyTwoBitID(0),
                ThirtyTwoBitID(0),
            ),
            r.prefix_arena().key_at(0) == prefix_of(default_graph_uri_spec()),
            r.suffix_arena().key_at(0) == suffix_of(default_graph_uri_spec()),
            r.contains_node(NodeView::Uri(InternalUriID(ThirtyTwoBitID(0), ThirtyTwoBitID(0)))),
            r.node_id_of(NodeView::Uri(InternalUriID(ThirtyTwoBitID(0), ThirtyTwoBitID(0))))
                == 0,
            r.object_arena().slots_view().len() == 1,
            r.object_arena().pool_view().len() == 0,
            r.prefix_arena().slots_view().len() == 1,
            r.prefix_arena().pool_view().len() == 0,
            r.suffix_arena().slots_view().len() == 1,
            r.suffix_arena().pool_view().len() == 0,
    {
        let mut fresh = StorageEngine {
            object_map: ObjectMap::default(),
            prefix_map: PrefixMap::default(),
            suffix_map: SuffixMap::default(),
            spog_index: SPOGIndex::default(),
            gspo_index: GSPOIndex::default(),
            posg_index: POSGIndex::default(),
            ospg_index: OSPGIndex::default(),
        };
        let prefix_part = String::from_str("http://internal/");
        let suffix_part = String::from_str("graph");
        let pid = match fresh.prefix_map.insert_unchecked(prefix_part) {
            Ok(v) => v,
            Err(_) => {
                proof {
                    assert(false);
                }
                ThirtyTwoBitID(0)
            },
        };
        let sid = match fresh.suffix_map.insert_unchecked(suffix_part) {
            Ok(v) => v,
            Err(_) => {
                proof {
                    assert(false);
                }
                ThirtyTwoBitID(0)
            },
        };
        let node = StoreNode::URIRef(RDFUri::from_iuid(InternalUriID(pid, sid)));
        let _nid = match fresh.object_map.insert_unchecked(node) {
            Ok(v) => v,
            Err(_) => {
                proof {
                    assert(false);
                }
                SixtyFourBitID(0)
            },
        };
        proof {
            assert(pid.id_spec() == 0 && sid.id_spec() == 0);
            assert(InternalUriID(pid, sid) == InternalUriID(ThirtyTwoBitID(0), ThirtyTwoBitID(0)));
            reveal_strlit("http://internal/");
            reveal_strlit("graph");
            reveal_strlit("http://internal/graph");
            let u = default_graph_uri_spec();
            assert(fresh.materialize_spec(InternalUriID(ThirtyTwoBitID(0), ThirtyTwoBitID(0)))
                == u) by {
                assert(fresh.materialize_spec(InternalUriID(ThirtyTwoBitID(0), ThirtyTwoBitID(0)))
                    =~= u);
            }
            // the sentinel splits at its last '/': the two inserted parts
            // are exactly the canonical prefix and suffix
            assert(!u.contains('#')) by {
                if u.contains('#') {
                    let j = choose|j: int| 0 <= j < u.len() && u[j] == '#';
                    assert(u[j] != '#');
                }
            }
            assert(u[15] == '/');
            assert(u.contains('/'));
            lemma_last_index_char_at(u, '/', 15);
            assert(split_point(u) == 16);
            assert(fresh.prefix_arena().key_at(0) == prefix_of(u)) by {
                assert(prefix_of(u) =~= "http://internal/"@);
            }
            assert(fresh.suffix_arena().key_at(0) == suffix_of(u)) by {
                assert(suffix_of(u) =~= "graph"@);
            }
            assert(fresh.prefix_arena().contains_key(prefix_of(u)) && fresh.interned_uri_id(u).0
                == ThirtyTwoBitID(0)) by {
                fresh.prefix_arena().lemma_id_of_live(0);
            }
            assert(fresh.suffix_arena().contains_key(suffix_of(u)) && fresh.interned_uri_id(u).1
                == ThirtyTwoBitID(0)) by {
                fresh.suffix_arena().lemma_id_of_live(0);
            }
            assert(fresh.contains_node(
                NodeView::Uri(InternalUriID(ThirtyTwoBitID(0), ThirtyTwoBitID(0))),
            ) && fresh.node_id_of(
                NodeView::Uri(InternalUriID(ThirtyTwoBitID(0), ThirtyTwoBitID(0))),
            ) == 0) by {
                fresh.object_arena().lemma_id_of_live(0);
            }
            assert(fresh.quads() =~= Set::<StoreQuad>::empty()) by {
                assert(fresh.gspo().keys().len() == 0);
                assert forall|q: StoreQuad| !fresh.gspo().quads().contains(q) by {
                    if fresh.gspo().quads().contains(q) {
                        let k = choose|k: IndexKey|
                            fresh.gspo().key_set().contains(k) && q == GSPO::quad_of_key(k);
                        assert(fresh.gspo().keys().contains(k));
                    }
                }
            }
            assert(fresh.spog().quads() =~= fresh.quads()) by {
                lemma_empty_index_quads::<SPOG>(fresh.spog());
                lemma_empty_index_quads::<GSPO>(fresh.gspo());
            }
            assert(fresh.posg().quads() =~= fresh.quads()) by {
                lemma_empty_index_quads::<POSG>(fresh.posg());
                lemma_empty_index_quads::<GSPO>(fresh.gspo());
            }
            assert(fresh.ospg().quads() =~= fresh.quads()) by {
                lemma_empty_index_quads::<OSPG>(fresh.ospg());
                lemma_empty_index_quads::<GSPO>(fresh.gspo());
            }
        }
        fresh
    }
}

/// Interning bijection: for a URI that splits, materializing the compact id
/// that interning produced recovers the URI byte for byte.
pub proof fn lemma_intern_materialize(s: StorageEngine, u: Seq<char>, iid: InternalUriID)
    requires
        s.wf(),
        has_sep(u),
        s.uri_live(iid),
        s.prefix_arena().key_at(iid.0.id_spec()) == prefix_of(u),
        s.suffix_arena().key_at(iid.1.id_spec()) == suffix_of(u),
    ensures
        s.materialize_spec(iid) == u,
{
    lemma_split_concat(u);
}

/// Node id bijection: a live id names a node that the table maps back to
/// that id, so `find_or_add` is idempotent.
pub proof fn lemma_node_id_bijection(s: StorageEngine, id: InternalID)
    requires
        s.wf(),
        s.node_live(id),
    ensures
        s.contains_node(s.node_at(id)),
        s.node_id_of(s.node_at(id)) == id.id_spec(),
{
    s.object_arena().lemma_id_of_live(id.id_spec());
}

/// Quad idempotence: adding an equal quad twice leaves the quad set it left
/// after the first addition.
pub proof fn lemma_quad_idempotence(quads: Set<StoreQuad>, q: StoreQuad)
    ensures
        quads.insert(q).insert(q) == quads.insert(q),
{
    assert(quads.insert(q).insert(q) =~= quads.insert(q));
}

/// Quad idempotence at the store: two stores that arose from `s0` by adding
/// the same quad once and then again — exactly what `add_internal_quad`'s
/// contract describes — are one store.
pub proof fn lemma_add_quad_idempotent(
    s0: StorageEngine,
    s1: StorageEngine,
    s2: StorageEngine,
    q: StoreQuad,
)
    requires
        s1.quads() == s0.quads().insert(q),
        s2.quads() == s1.quads().insert(q),
        s1.quads().contains(q) ==> s2 == s1,
    ensures
        s2 == s1,
{
    assert(s1.quads().contains(q));
}

/// Mirror consistency at each quad: a quad the store holds is observable in
/// all four indices, under each index's own key permutation.
pub proof fn lemma_quad_in_all_indices(s: StorageEngine, q: StoreQuad)
    requires
        s.wf(),
        s.quads().contains(q),
    ensures
        s.spog().quads().contains(q),
        s.gspo().quads().contains(q),
        s.posg().quads().contains(q),
        s.ospg().quads().contains(q),
        s.spog().key_set().contains(SPOG::key_of_quad(q)),
        s.gspo().key_set().contains(GSPO::key_of_quad(q)),
        s.posg().key_set().contains(POSG::key_of_quad(q)),
        s.ospg().key_set().contains(OSPG::key_of_quad(q)),
{
    crate::indexed_quad_set::lemma_index_contains(s.spog(), q);
    crate::indexed_quad_set::lemma_index_contains(s.gspo(), q);
    crate::indexed_quad_set::lemma_index_contains(s.posg(), q);
    crate::indexed_quad_set::lemma_index_contains(s.ospg(), q);
}

/// Mirror consistency: under the store invariant, every quad observable in
/// one index is observable in all four.
pub proof fn lemma_mirror_consistency(s: StorageEngine)
    requires
        s.wf(),
    ensures
        s.spog().quads() == s.quads(),
        s.gspo().quads() == s.quads(),
        s.posg().quads() == s.quads(),
        s.ospg().quads() == s.quads(),
{
}

/// Id reuse isolation: after removing `q` and adding a distinct `q2` — as
/// when `q2` carries a brand-new node id — queries find `q2` and not `q`.
pub proof fn lemma_id_reuse_isolation(quads: Set<StoreQuad>, q: StoreQuad, q2: StoreQuad)
    requires
        q2 != q,
    ensures
        !quads.remove(q).insert(q2).contains(q),
        quads.remove(q).insert(q2).contains(q2),
{
}

/// An index without keys holds no quads.
proof fn lemma_empty_index_quads<Q: IndexOrder>(idx: IndexedQuadSet<Q>)
    requires
        idx.keys().len() == 0,
    ensures
        idx.quads() == Set::<StoreQuad>::empty(),
{
    assert forall|q: StoreQuad| !idx.quads().contains(q) by {
        if idx.quads().contains(q) {
            let k = choose|k: IndexKey| idx.key_set().contains(k) && q == Q::quad_of_key(k);
            assert(idx.keys().contains(k));
        }
    }
    assert(idx.quads() =~= Set::<StoreQuad>::empty());
}

} // verus!
