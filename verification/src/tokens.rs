//! The reserved wire-format tokens of the document language.

use vstd::prelude::*;

verus! {

/// The key whose presence marks an unresolved reference: `$ref`.
pub open spec fn ref_key() -> Seq<char> {
    "$ref"@
}

/// The sentinel string that marks a node for deletion: `$remove`.
pub open spec fn remove_marker() -> Seq<char> {
    "$remove"@
}

/// The prefix of a list-element removal marker: `$remove::`.
pub open spec fn remove_prefix() -> Seq<char> {
    "$remove::"@
}

/// The internal marker that the `str` template filter prepends so that the
/// post-render coercion keeps a numeric-looking result as a string.
pub open spec fn force_string_marker() -> Seq<char> {
    "__forcestring__"@
}

/// The key injected into named sub-documents so they know their own name.
pub open spec fn name_key() -> Seq<char> {
    "$name"@
}

pub fn ref_key_str() -> (r: &'static str)
    ensures
        r@ == ref_key(),
{
    "$ref"
}

pub fn remove_marker_str() -> (r: &'static str)
    ensures
        r@ == remove_marker(),
{
    "$remove"
}

pub fn remove_prefix_str() -> (r: &'static str)
    ensures
        r@ == remove_prefix(),
{
    "$remove::"
}

pub fn force_string_marker_str() -> (r: &'static str)
    ensures
        r@ == force_string_marker(),
{
    "__forcestring__"
}

pub fn name_key_str() -> (r: &'static str)
    ensures
        r@ == name_key(),
{
    "$name"
}

} // verus!
