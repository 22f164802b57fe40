//! Types of the `plist` crate that the library's signatures name.
use vstd::prelude::*;

verus! {

/// A failure to decode a property list, from `plist::Value::from_reader`.
#[verifier::external_type_specification]
#[verifier::external_body]
pub struct ExPlistError(plist::Error);

} // verus!
