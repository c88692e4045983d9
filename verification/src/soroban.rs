//! The pieces of the Soroban SDK that the verified library touches: its error
//! values, which carry their type and code in their own bits, so that reading
//! them asks nothing of the host.
//!
//! Host objects such as byte buffers are read by the caller and handed to the
//! library as plain bytes: every host call is charged to the host's budget, and
//! the SDK panics when that runs out.
use vstd::prelude::*;

verus! {

/// A Soroban error value, carried through opaquely.
#[verifier::external_type_specification]
#[verifier::external_body]
pub struct ExError(soroban_sdk::Error);

/// Whether an error is of the contract-error type.
pub uninterp spec fn is_contract_error(e: soroban_sdk::Error) -> bool;

/// The code an error carries.
pub uninterp spec fn error_code_of(e: soroban_sdk::Error) -> u32;

/// `Error::is_type` with `ScErrorType::Contract`: whether the error is a
/// contract error.
#[verifier::external_body]
pub(crate) fn error_is_contract(e: &soroban_sdk::Error) -> (r: bool)
    ensures
        r == is_contract_error(*e),
{
    e.is_type(soroban_sdk::xdr::ScErrorType::Contract)
}

/// `Error::get_code`: the code the error carries.
#[verifier::external_body]
pub(crate) fn error_code(e: &soroban_sdk::Error) -> (r: u32)
    ensures
        r == error_code_of(*e),
{
    e.get_code()
}

} // verus!
