//! Declarations of the database's handle and error types, so that they can
//! stand in signatures and fields. Both are opaque: nothing is assumed of
//! a value of either type.

use vstd::prelude::*;

verus! {

#[verifier::external_type_specification]
#[verifier::external_body]
pub struct ExDb(sled::Db);

#[verifier::external_type_specification]
#[verifier::external_body]
pub struct ExSledError(sled::Error);

} // verus!
