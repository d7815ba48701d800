//! Declarations of the outside types that run through this crate's
//! signatures and fields.

use vstd::prelude::*;

verus! {

/// Declares `reqwest::Client` so that it can stand in this crate's fields;
/// the value is opaque to verification and is only carried through.
#[verifier::external_type_specification]
#[verifier::external_body]
pub struct ExReqwestClient(reqwest::Client);

} // verus!
