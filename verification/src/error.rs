//! The failures that the operations on a progress record report.

use vstd::prelude::*;

verus! {

/// Why an operation was refused. A refused operation changes nothing.
#[derive(Clone, Copy, Debug, PartialEq, Eq, Structural)]
pub enum ShadowRanchError {
    /// The challenge id is not one of 0 to 15.
    InvalidChallengeId,
    /// The module id is not one of 0 to 3.
    InvalidModuleId,
    /// The requester is not the authority of the progress record.
    Unauthorized,
    /// A challenge of the module, or the module itself, is not completed yet.
    ModuleNotComplete,
    /// The metadata locator is not acceptable. No operation reports this yet.
    InvalidMetadataUri,
    /// A credential was minted for the module before. No operation reports this yet.
    NftAlreadyMinted,
    /// The program authority is not the expected one. No operation reports this yet.
    InvalidProgramAuthority,
    /// An account did not pass validation. No operation reports this yet.
    AccountValidationFailed,
    /// A progress record exists already for the authority.
    AlreadyExists,
}

} // verus!
