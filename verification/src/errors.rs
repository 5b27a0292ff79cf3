//! The error taxonomy of the bridge pipeline.

use vstd::prelude::*;

verus! {

/// Every way a message can be rejected.  All failures are terminal for the
/// single message being processed; none leaves a partial state change behind.
#[derive(Clone, Copy, Debug, PartialEq, Eq, Structural)]
pub enum BridgeError {
    /// The attestation does not validate against the payload.
    VerificationFailure,
    /// A length-prefixed buffer is truncated or length-inconsistent.
    MalformedEncoding,
    /// A verified payload does not decode as a bridge event.
    DecodeError,
    /// The recipient bytes do not map to a local account identifier.
    InvalidRecipient,
    /// No ledger module is registered for the application identifier.
    UnknownApplication,
    /// A free balance would overflow the 256-bit range after minting.
    FreeMintingOverflow,
    /// The total issuance would overflow the 256-bit range after minting.
    TotalMintingOverflow,
    /// A free balance would go negative after burning.
    FreeBurningUnderflow,
    /// The total issuance would go negative after burning.
    TotalBurningUnderflow,
}

} // verus!
