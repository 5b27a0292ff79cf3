//! Verified core of a cross-chain token bridge.
//!
//! The library ingests relayed, attested messages that claim an event
//! happened on a foreign chain, verifies the attestation, decodes the
//! embedded log record, routes it to the ledger that owns the asset class,
//! and applies the balance change under checked arithmetic.  Every stage
//! fails closed: a verification or decode failure aborts the pipeline with
//! no state mutation, and for each asset the total issuance always equals
//! the sum of the account balances.

pub mod bytes;
pub mod codec;
pub mod errors;
pub mod events;
pub mod ledger;
pub mod message;
pub mod native;
pub mod notify;
pub mod router;
pub mod token;
pub mod u256;
