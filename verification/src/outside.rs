//! The types of other crates that values of this library pass through.
//!
//! Nothing is known of what is inside a value of these types: what the
//! contracts need of one is said where it is used.

use vstd::prelude::*;

verus! {

/// `walrus::Module`: a compiled module, parsed.
#[verifier::external_type_specification]
#[verifier::external_body]
pub struct ExParsedModule(walrus::Module);

/// `anyhow::Error`: the failure of a call into `walrus` or `wit_component`.
#[verifier::external_type_specification]
#[verifier::external_body]
pub struct ExFailure(anyhow::Error);

} // verus!
