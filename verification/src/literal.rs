//! Literal nodes: a lexical form, a datatype URI and an optional lang tag.

use vstd::prelude::*;

use crate::errors::StoreError;
use crate::store::StorageEngine;
use crate::uri::RDFUri;

verus! {

/// The mathematical content of a literal.  Literals are compared by lexical
/// form, datatype and lang tag, as opaque strings.
pub ghost struct LitView {
    pub lex: Seq<char>,
    pub data_type: crate::identifiers::InternalUriID,
    pub lang: Option<Seq<char>>,
}

/// The default datatype of a plain literal.
pub open spec fn xsd_string_uri_spec() -> Seq<char> {
    "http://www.w3.org/2001/XMLSchema#string"@
}

/// The datatype every lang-tagged literal must carry.
pub open spec fn lang_string_uri_spec() -> Seq<char> {
    "http://www.w3.org/1999/02/22-rdf-syntax-ns#langString"@
}

/// The view of an optional borrowed string.
pub open spec fn opt_str_view(o: Option<&str>) -> Option<Seq<char>> {
    match o {
        Some(s) => Some(s@),
        None => None,
    }
}

/// The datatype a literal construction resolves to.
pub open spec fn chosen_datatype(dt: Option<Seq<char>>, lang: Option<Seq<char>>) -> Seq<char> {
    match (dt, lang) {
        (Some(d), None) => d,
        (None, None) => xsd_string_uri_spec(),
        (_, Some(_)) => lang_string_uri_spec(),
    }
}

/// Whether the datatype and lang arguments can coexist: a lang tag forces the
/// langString datatype.
pub open spec fn literal_args_consistent(dt: Option<Seq<char>>, lang: Option<Seq<char>>) -> bool {
    match (dt, lang) {
        (Some(d), Some(_)) => d == lang_string_uri_spec(),
        _ => true,
    }
}

/// A literal node.
#[derive(PartialEq, Eq, Debug)]
pub struct Literal {
    lexical_form: String,
    data_type: RDFUri,
    lang: Option<String>,
}

impl View for Literal {
    type V = LitView;

    closed spec fn view(&self) -> LitView {
        LitView {
            lex: self.lexical_form@,
            data_type: self.data_type.id_spec(),
            lang: match self.lang {
                Some(l) => Some(l@),
                None => None,
            },
        }
    }
}

impl Clone for Literal {
    /// A clone carries the same lexical form, datatype and lang tag.
    fn clone(&self) -> (r: Self)
        ensures
            r == *self,
    {
        Literal {
            lexical_form: self.lexical_form.clone(),
            data_type: self.data_type,
            lang: match &self.lang {
                Some(l) => Some(l.clone()),
                None => None,
            },
        }
    }
}

/// The default datatype of a plain literal.
pub fn xsd_string_uri() -> (r: &'static str)
    ensures
        r@ == xsd_string_uri_spec(),
{
    "http://www.w3.org/2001/XMLSchema#string"
}

/// The datatype every lang-tagged literal must carry.
pub fn lang_string_uri() -> (r: &'static str)
    ensures
        r@ == lang_string_uri_spec(),
{
    "http://www.w3.org/1999/02/22-rdf-syntax-ns#langString"
}

/// Character-wise string comparison.
#[verifier::loop_isolation(false)]
fn str_eq(a: &str, b: &str) -> (r: bool)
    ensures
        r == (a@ == b@),
{
    let n = a.unicode_len();
    let m = b.unicode_len();
    if n != m {
        proof {
            assert(a@ != b@) by {
                if a@ == b@ {
                    assert(a@.len() == b@.len());
                }
            }
        }
        return false;
    }
    let mut i: usize = 0;
    while i < n
        invariant
            0 <= i <= n,
            forall|j: int| 0 <= j < i ==> a@[j] == b@[j],
        decreases n - i,
    {
        if a.get_char(i) != b.get_char(i) {
            return false;
        }
        i += 1;
    }
    proof {
        assert(a@ =~= b@);
    }
    true
}

impl Literal {
    /// Builds a literal (write path): resolves the datatype — `xsd:string`
    /// when neither datatype nor lang is given, `rdf:langString` when a lang
    /// tag is — and interns it.  A non-langString datatype combined with a
    /// lang tag is rejected.
    pub fn new(
        store: &mut StorageEngine,
        lexical_form: &str,
        data_type: Option<&str>,
        lang: Option<&str>,
    ) -> (r: Result<Literal, StoreError>)
        requires
            old(store).wf(),
        ensures
            final(store).wf(),
            final(store).same_nodes_and_quads(*old(store)),
            final(store).uris_grown_from(*old(store)),
            r is Ok <==> literal_args_consistent(opt_str_view(data_type), opt_str_view(lang))
                && old(store).can_intern_uri(
                chosen_datatype(opt_str_view(data_type), opt_str_view(lang)),
            ),
            old(store).knows_uri(chosen_datatype(opt_str_view(data_type), opt_str_view(lang)))
                && literal_args_consistent(opt_str_view(data_type), opt_str_view(lang))
                ==> *final(store) == *old(store),
            match r {
                Ok(lit) => {
                    &&& lit@.lex == lexical_form@
                    &&& lit@.lang == opt_str_view(lang)
                    &&& final(store).uri_live(lit@.data_type)
                    &&& final(store).materialize_spec(lit@.data_type) == chosen_datatype(
                        opt_str_view(data_type),
                        opt_str_view(lang),
                    )
                    &&& final(store).knows_uri(
                        chosen_datatype(opt_str_view(data_type), opt_str_view(lang)),
                    )
                    &&& lit@.data_type == final(store).interned_uri_id(
                        chosen_datatype(opt_str_view(data_type), opt_str_view(lang)),
                    )
                },
                Err(e) => {
                    &&& (e == StoreError::InconsistentLiteral <==> !literal_args_consistent(
                        opt_str_view(data_type),
                        opt_str_view(lang),
                    ))
                    &&& e == StoreError::InconsistentLiteral || e == StoreError::MalformedUri
                        || e == StoreError::Overflow
                    &&& e == StoreError::MalformedUri ==> !crate::store::has_sep(
                        chosen_datatype(opt_str_view(data_type), opt_str_view(lang)),
                    )
                },
            },
    {
        let determined: &str = match (data_type, lang) {
            (None, None) => xsd_string_uri(),
            (Some(dt), None) => dt,
            (None, Some(_l)) => lang_string_uri(),
            (Some(dt), Some(_l)) => {
                if !str_eq(dt, lang_string_uri()) {
                    return Err(StoreError::InconsistentLiteral);
                }
                lang_string_uri()
            },
        };
        let data_type_uri = match RDFUri::from_string(store, determined) {
            Ok(u) => u,
            Err(e) => {
                return Err(e);
            },
        };
        let owned_lang: Option<String> = match lang {
            Some(l) => Some(l.to_owned()),
            None => None,
        };
        Ok(
            Literal {
                lexical_form: lexical_form.to_owned(),
                data_type: data_type_uri,
                lang: owned_lang,
            },
        )
    }

    /// Builds a literal (read path): resolves the datatype without interning
    /// anything; fails when the datatype URI is unknown to the store.
    pub fn construct_if_exist(
        store: &StorageEngine,
        lexical_form: &str,
        data_type: Option<&str>,
        lang: Option<&str>,
    ) -> (r: Result<Literal, StoreError>)
        requires
            store.wf(),
        ensures
            r is Ok <==> literal_args_consistent(opt_str_view(data_type), opt_str_view(lang))
                && store.knows_uri(chosen_datatype(opt_str_view(data_type), opt_str_view(lang))),
            match r {
                Ok(lit) => {
                    &&& lit@.lex == lexical_form@
                    &&& lit@.lang == opt_str_view(lang)
                    &&& store.uri_live(lit@.data_type)
                    &&& store.materialize_spec(lit@.data_type) == chosen_datatype(
                        opt_str_view(data_type),
                        opt_str_view(lang),
                    )
                    &&& lit@.data_type == store.interned_uri_id(
                        chosen_datatype(opt_str_view(data_type), opt_str_view(lang)),
                    )
                },
                Err(e) => {
                    &&& (e == StoreError::InconsistentLiteral <==> !literal_args_consistent(
                        opt_str_view(data_type),
                        opt_str_view(lang),
                    ))
                    &&& e == StoreError::InconsistentLiteral || e == StoreError::MalformedUri
                        || e == StoreError::NotFound
                    &&& e == StoreError::MalformedUri ==> !crate::store::has_sep(
                        chosen_datatype(opt_str_view(data_type), opt_str_view(lang)),
                    )
                },
            },
    {
        let determined: &str = match (data_type, lang) {
            (None, None) => xsd_string_uri(),
            (Some(dt), None) => dt,
            (None, Some(_l)) => lang_string_uri(),
            (Some(dt), Some(_l)) => {
                if !str_eq(dt, lang_string_uri()) {
                    return Err(StoreError::InconsistentLiteral);
                }
                lang_string_uri()
            },
        };
        let data_type_uri = match RDFUri::from_string_if_exist(store, determined) {
            Ok(u) => u,
            Err(e) => {
                return Err(e);
            },
        };
        let owned_lang: Option<String> = match lang {
            Some(l) => Some(l.to_owned()),
            None => None,
        };
        Ok(
            Literal {
                lexical_form: lexical_form.to_owned(),
                data_type: data_type_uri,
                lang: owned_lang,
            },
        )
    }

    /// A plain `xsd:string` literal (write path).
    pub fn from_string(store: &mut StorageEngine, lexical_form: &str) -> (r: Result<
        Literal,
        StoreError,
    >)
        requires
            old(store).wf(),
        ensures
            final(store).wf(),
            final(store).same_nodes_and_quads(*old(store)),
            final(store).uris_grown_from(*old(store)),
            r is Ok <==> old(store).can_intern_uri(xsd_string_uri_spec()),
            old(store).knows_uri(xsd_string_uri_spec()) ==> *final(store) == *old(store),
            match r {
                Ok(lit) => {
                    &&& lit@.lex == lexical_form@
                    &&& lit@.lang is None
                    &&& final(store).uri_live(lit@.data_type)
                    &&& final(store).materialize_spec(lit@.data_type) == xsd_string_uri_spec()
                    &&& final(store).knows_uri(xsd_string_uri_spec())
                    &&& lit@.data_type == final(store).interned_uri_id(xsd_string_uri_spec())
                },
                Err(e) => e == StoreError::Overflow,
            },
    {
        proof {
            reveal_strlit("http://www.w3.org/2001/XMLSchema#string");
            assert(xsd_string_uri_spec()[32] == '#');
            assert(xsd_string_uri_spec().contains('#'));
        }
        Self::new(store, lexical_form, None, None)
    }

    /// A plain `xsd:string` literal (read path).
    pub fn from_string_if_exist(store: &StorageEngine, lexical_form: &str) -> (r: Result<
        Literal,
        StoreError,
    >)
        requires
            store.wf(),
        ensures
            r is Ok <==> store.knows_uri(xsd_string_uri_spec()),
            match r {
                Ok(lit) => {
                    &&& lit@.lex == lexical_form@
                    &&& lit@.lang is None
                    &&& store.uri_live(lit@.data_type)
                    &&& store.materialize_spec(lit@.data_type) == xsd_string_uri_spec()
                    &&& lit@.data_type == store.interned_uri_id(xsd_string_uri_spec())
                },
                Err(e) => e == StoreError::NotFound,
            },
    {
        proof {
            reveal_strlit("http://www.w3.org/2001/XMLSchema#string");
            assert(xsd_string_uri_spec()[32] == '#');
            assert(xsd_string_uri_spec().contains('#'));
        }
        Self::construct_if_exist(store, lexical_form, None, None)
    }

    /// A lang-tagged literal (write path); its datatype is `rdf:langString`.
    pub fn with_lang(store: &mut StorageEngine, lexical_form: &str, lang: &str) -> (r: Result<
        Literal,
        StoreError,
    >)
        requires
            old(store).wf(),
        ensures
            final(store).wf(),
            final(store).same_nodes_and_quads(*old(store)),
            final(store).uris_grown_from(*old(store)),
            r is Ok <==> old(store).can_intern_uri(lang_string_uri_spec()),
            old(store).knows_uri(lang_string_uri_spec()) ==> *final(store) == *old(store),
            match r {
                Ok(lit) => {
                    &&& lit@.lex == lexical_form@
                    &&& lit@.lang == Some(lang@)
                    &&& final(store).uri_live(lit@.data_type)
                    &&& final(store).materialize_spec(lit@.data_type) == lang_string_uri_spec()
                    &&& final(store).knows_uri(lang_string_uri_spec())
                    &&& lit@.data_type == final(store).interned_uri_id(lang_string_uri_spec())
                },
                Err(e) => e == StoreError::Overflow,
            },
    {
        proof {
            reveal_strlit("http://www.w3.org/1999/02/22-rdf-syntax-ns#langString");
            assert(lang_string_uri_spec()[42] == '#');
            assert(lang_string_uri_spec().contains('#'));
        }
        Self::new(store, lexical_form, None, Some(lang))
    }

    /// A lang-tagged literal (read path).
    pub fn with_lang_if_exist(store: &StorageEngine, lexical_form: &str, lang: &str) -> (r: Result<
        Literal,
        StoreError,
    >)
        requires
            store.wf(),
        ensures
            r is Ok <==> store.knows_uri(lang_string_uri_spec()),
            match r {
                Ok(lit) => {
                    &&& lit@.lex == lexical_form@
                    &&& lit@.lang == Some(lang@)
                    &&& store.uri_live(lit@.data_type)
                    &&& store.materialize_spec(lit@.data_type) == lang_string_uri_spec()
                    &&& lit@.data_type == store.interned_uri_id(lang_string_uri_spec())
                },
                Err(e) => e == StoreError::NotFound,
            },
    {
        proof {
            reveal_strlit("http://www.w3.org/1999/02/22-rdf-syntax-ns#langString");
            assert(lang_string_uri_spec()[42] == '#');
            assert(lang_string_uri_spec().contains('#'));
        }
        Self::construct_if_exist(store, lexical_form, None, Some(lang))
    }

    /// Equality on content: lexical form, datatype id and lang tag.
    pub fn lit_eq(&self, other: &Self) -> (r: bool)
        ensures
            r == (self@ == other@),
    {
        proof {
            crate::uri::lemma_rdfuri_id_injective(self.data_type, other.data_type);
        }
        self.lexical_form.eq(&other.lexical_form) && self.data_type == other.data_type && (
        match (&self.lang, &other.lang) {
            (Some(a), Some(b)) => a.eq(b),
            (None, None) => true,
            _ => false,
        })
    }

    /// The lexical form.
    pub fn borrow_lexical_form<'a>(&'a self) -> (r: &'a str)
        ensures
            r@ == self@.lex,
    {
        self.lexical_form.as_str()
    }

    /// The lang tag, if any.
    pub fn borrow_lang<'a>(&'a self) -> (r: Option<&'a str>)
        ensures
            match r {
                Some(l) => self@.lang == Some(l@),
                None => self@.lang is None,
            },
    {
        match &self.lang {
            Some(l) => Some(l.as_str()),
            None => None,
        }
    }

    /// The datatype URI reference.
    pub fn borrow_datatype_uri<'a>(&'a self) -> (r: &'a RDFUri)
        ensures
            r.id_spec() == self@.data_type,
    {
        &self.data_type
    }
}

} // verus!
