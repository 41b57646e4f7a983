//! The registry of document types.
//!
//! A document type declares the header key its files must carry and where
//! its typed sub-documents live.  Types are registered once and referred to
//! by handle, which replaces host-runtime class reflection.

use vstd::prelude::*;

use crate::errors::{ConfigError, ErrV};


verus! {

/// Where one family of sub-documents lives inside a parent document: a
/// `/`-separated key path, optionally suffixed `[]` to mean "every value
/// under the map or list at this location", and the type they carry.
#[derive(Debug, PartialEq)]
pub struct SubdocSpec {
    pub path_spec: String,
    pub type_id: usize,
}

/// One document type: its required header key and its sub-document
/// declarations.
#[derive(Debug, PartialEq)]
pub struct DocTypeDef {
    pub header: String,
    pub subdocs: Vec<SubdocSpec>,
}

/// The registered document types; a `type_id` is an index into `types`.
#[derive(Debug, PartialEq)]
pub struct TypeRegistry {
    pub types: Vec<DocTypeDef>,
}

/// The mathematical shape of a [`DocTypeDef`].
#[verifier::ext_equal]
pub struct TypeV {
    pub header: Seq<char>,
    pub subdocs: Seq<(Seq<char>, int)>,
}

pub open spec fn view_subdocs(s: Seq<SubdocSpec>) -> Seq<(Seq<char>, int)> {
    s.map_values(|x: SubdocSpec| (x.path_spec@, x.type_id as int))
}

pub open spec fn view_typedef(d: DocTypeDef) -> TypeV {
    TypeV { header: d.header@, subdocs: view_subdocs(d.subdocs@) }
}

impl View for DocTypeDef {
    type V = TypeV;

    open spec fn view(&self) -> TypeV {
        view_typedef(*self)
    }
}

impl View for TypeRegistry {
    type V = Seq<TypeV>;

    open spec fn view(&self) -> Seq<TypeV> {
        self.types@.map_values(|d: DocTypeDef| view_typedef(d))
    }
}

impl TypeRegistry {
    /// A registry with no types.
    pub fn new() -> (r: TypeRegistry)
        ensures
            r@ =~= Seq::<TypeV>::empty(),
    {
        TypeRegistry { types: Vec::new() }
    }

    /// Register a document type and return its handle.
    pub fn register(&mut self, def: DocTypeDef) -> (r: usize)
        ensures
            r == old(self)@.len(),
            final(self)@ =~= old(self)@.push(def@),
    {
        let id = self.types.len();
        self.types.push(def);
        proof {
            assert(final(self)@ =~= old(self)@.push(final(self).types@.last()@));
        }
        id
    }

    /// The header key that files of this type must carry.  An unknown
    /// handle is the analogue of calling `header` on an abstract base type.
    pub fn header(&self, type_id: usize) -> (r: Result<&String, ConfigError>)
        ensures
            match r {
                Ok(h) => type_id < self@.len() && h@ == self@[type_id as int].header,
                Err(e) => type_id >= self@.len() && e@ == (ErrV::UnknownType {
                    type_id: type_id as int,
                }),
            },
    {
        if type_id < self.types.len() {
            Ok(&self.types[type_id].header)
        } else {
            Err(ConfigError::UnknownType { type_id })
        }
    }

    /// The sub-document declarations of this type.
    pub fn subdocuments(&self, type_id: usize) -> (r: Result<&Vec<SubdocSpec>, ConfigError>)
        ensures
            match r {
                Ok(s) => type_id < self@.len() && view_subdocs(s@) == self@[
                    type_id as int
                ].subdocs,
                Err(e) => type_id >= self@.len() && e@ == (ErrV::UnknownType {
                    type_id: type_id as int,
                }),
            },
    {
        if type_id < self.types.len() {
            Ok(&self.types[type_id].subdocs)
        } else {
            Err(ConfigError::UnknownType { type_id })
        }
    }
}

/// A convenience constructor for one sub-document declaration.
pub fn subdoc_spec(path_spec: &str, type_id: usize) -> (r: SubdocSpec)
    ensures
        r.path_spec@ == path_spec@,
        r.type_id == type_id,
{
    SubdocSpec { path_spec: path_spec.to_owned(), type_id }
}

/// A convenience constructor for one document type.
pub fn doc_type_def(header: &str, subdocs: Vec<SubdocSpec>) -> (r: DocTypeDef)
    ensures
        r.header@ == header@,
        r.subdocs@ == subdocs@,
{
    DocTypeDef { header: header.to_owned(), subdocs }
}

} // verus!
