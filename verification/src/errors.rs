//! The error taxonomy of the document engine.
//!
//! Every failure is reported to the caller as one of these variants; the
//! payload fields carry the offending path, reference or value instead of a
//! pre-rendered message, so that contracts can state exactly which error an
//! input produces.

use vstd::prelude::*;

verus! {

/// An error of the document engine.
#[derive(Debug, PartialEq)]
pub enum ConfigError {
    /// A referenced file could not be read or parsed.
    InvalidDocument { path: String, cause: String },
    /// A loaded file body lacks the header key its document type requires.
    InvalidHeader { expected: String, path: String },
    /// A `$ref` or sub-document chain revisits a path already being loaded.
    CircularDependency { path: String },
    /// No candidate file was found for a `$ref` across the repositories.
    ReferencedDocumentNotFound { reference: String, requested_by: Option<String> },
    /// The `$remove` sentinel stood in a position where removal is not
    /// syntactically meaningful.
    InvalidRemove,
    /// Template rendering failed for a string value.
    VariableProcessing { original: String, document_path: Option<String>, cause: String },
    /// A resolution-phase operation was called on a frozen document.
    AlreadyFrozen,
    /// The frozen snapshot was read before the document was frozen.
    NotFrozen,
    /// A value did not have the shape its accessor demands.
    TypeMismatch,
    /// A sub-document path specification does not fit the document's shape.
    PathError { detail: String },
    /// A type handle that the registry does not know.
    UnknownType { type_id: usize },
}

/// The mathematical shape of a [`ConfigError`].
#[verifier::ext_equal]
pub enum ErrV {
    InvalidDocument { path: Seq<char>, cause: Seq<char> },
    InvalidHeader { expected: Seq<char>, path: Seq<char> },
    CircularDependency { path: Seq<char> },
    ReferencedDocumentNotFound { reference: Seq<char>, requested_by: Option<Seq<char>> },
    InvalidRemove,
    VariableProcessing {
        original: Seq<char>,
        document_path: Option<Seq<char>>,
        cause: Seq<char>,
    },
    AlreadyFrozen,
    NotFrozen,
    TypeMismatch,
    PathError { detail: Seq<char> },
    UnknownType { type_id: int },
}

impl View for ConfigError {
    type V = ErrV;

    open spec fn view(&self) -> ErrV {
        match *self {
            ConfigError::InvalidDocument { ref path, ref cause } => ErrV::InvalidDocument {
                path: path@,
                cause: cause@,
            },
            ConfigError::InvalidHeader { ref expected, ref path } => ErrV::InvalidHeader {
                expected: expected@,
                path: path@,
            },
            ConfigError::CircularDependency { ref path } => ErrV::CircularDependency {
                path: path@,
            },
            ConfigError::ReferencedDocumentNotFound {
                ref reference,
                ref requested_by,
            } => ErrV::ReferencedDocumentNotFound {
                reference: reference@,
                requested_by: match requested_by {
                    Some(p) => Some(p@),
                    None => None,
                },
            },
            ConfigError::InvalidRemove => ErrV::InvalidRemove,
            ConfigError::VariableProcessing {
                ref original,
                ref document_path,
                ref cause,
            } => ErrV::VariableProcessing {
                original: original@,
                document_path: match document_path {
                    Some(p) => Some(p@),
                    None => None,
                },
                cause: cause@,
            },
            ConfigError::AlreadyFrozen => ErrV::AlreadyFrozen,
            ConfigError::NotFrozen => ErrV::NotFrozen,
            ConfigError::TypeMismatch => ErrV::TypeMismatch,
            ConfigError::PathError { ref detail } => ErrV::PathError { detail: detail@ },
            ConfigError::UnknownType { type_id } => ErrV::UnknownType {
                type_id: type_id as int,
            },
        }
    }
}

} // verus!
