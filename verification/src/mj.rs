//! The declaration of the template engine's dynamic value type.

use vstd::prelude::*;

verus! {

/// minijinja's dynamic value type, kept opaque: the library only builds
/// such values from its own and hands them to the engine.
#[verifier::external_type_specification]
#[verifier::external_body]
pub struct ExMjValue(minijinja::value::Value);

} // verus!
