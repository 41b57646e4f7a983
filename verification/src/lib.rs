//! A layered, referenceable configuration-document model.
//!
//! Documents are YAML-shaped value trees that can `$ref` other documents by
//! repository-relative path, deep-merge with removal-marker semantics,
//! declare typed sub-documents that are resolved recursively, and finally
//! undergo variable-substitution templating to a fixed point.
//!
//! File reading is the caller's concern: the resolution engine works against
//! a [`loader::FileSet`] of already-parsed documents, so every algorithm in
//! this crate is a pure function of its inputs.

pub mod document;
pub mod errors;
pub mod loader;
pub mod merger;
pub mod mj;
pub mod registry;
pub mod render;
pub mod resolver;
pub mod strutil;
pub mod tokens;
pub mod value;
pub mod variables;
