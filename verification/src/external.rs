//! Declarations of the outside error types that the library's error enums carry.
//! Each is opaque to Verus: the library only stores and hands such a value on.

use vstd::prelude::*;

verus! {

/// `std::io::Error`, the error of a failed file-system operation.
#[verifier::external_type_specification]
#[verifier::external_body]
pub struct ExIoError(std::io::Error);

/// `serde_json::Error`, the error of a failed JSON conversion.
#[verifier::external_type_specification]
#[verifier::external_body]
pub struct ExJsonError(serde_json::Error);

/// `reqwest::Error`, the error of a failed HTTP exchange.
#[verifier::external_type_specification]
#[verifier::external_body]
pub struct ExHttpError(reqwest::Error);

} // verus!
