//! The message verifier: split a relayed buffer into payload and
//! attestation, and check the attestation against a known signer set.
//!
//! A raw message carries a 4-byte big-endian payload length, the payload,
//! and the attestation.  The attestation is 16 bytes: an 8-byte big-endian
//! signer key followed by an 8-byte big-endian tag, and it validates when
//! the signer is in the known set and the tag equals the keyed tag of the
//! payload.  Verification is a pure function of the input bytes: any
//! malformed attestation is rejected, never thrown.

use vstd::prelude::*;
use crate::bytes::{be_bytes_value, copy_range, lemma_be_bytes_value_bound, pow256};
use crate::errors::BridgeError;
use crate::u256::be_u128;

verus! {

/// Bytes as received from the relay.
pub type RawMessage = Vec<u8>;

/// The attestation accompanying a payload.
pub type Signature = Vec<u8>;

/// A raw message split into payload and attestation.
pub struct SignedMessage {
    /// The inner application payload.
    pub data: Vec<u8>,
    /// The attestation over the payload.
    pub signature: Vec<u8>,
}

/// A known signer key.
pub const SIGNER_KEY_A: u64 = 0xa1b2c3d4e5f60001;

/// A second known signer key.
pub const SIGNER_KEY_B: u64 = 0xa1b2c3d4e5f60002;

/// Whether a signer key belongs to the known signer set.
pub open spec fn spec_authorized(signer: nat) -> bool {
    signer == SIGNER_KEY_A || signer == SIGNER_KEY_B
}

/// The keyed tag of a payload under a signer key: a fold over the payload
/// bytes in the 64-bit range, seeded with the key.
pub open spec fn spec_tag(signer: nat, payload: Seq<u8>) -> nat
    decreases payload.len(),
{
    if payload.len() == 0 {
        signer % 0x1_0000_0000_0000_0000
    } else {
        ((spec_tag(signer, payload.drop_last()) * 131 + payload.last())
            % 0x1_0000_0000_0000_0000) as nat
    }
}

/// Compute the keyed tag of a payload.
pub fn compute_tag(signer: u64, payload: &Vec<u8>) -> (r: u64)
    ensures
        r as nat == spec_tag(signer as nat, payload@),
{
    let n = payload.len();
    let mut t: u64 = signer;
    let mut i: usize = 0;
    proof {
        assert(payload@.take(0) =~= Seq::<u8>::empty());
    }
    while i < n
        invariant
            n == payload@.len(),
            i <= n,
            t as nat == spec_tag(signer as nat, payload@.take(i as int)),
        decreases n - i,
    {
        proof {
            assert(payload@.take(i as int + 1).drop_last() =~= payload@.take(i as int));
        }
        t = (((t as u128) * 131 + (payload[i] as u128)) % 0x1_0000_0000_0000_0000u128) as u64;
        i += 1;
    }
    proof {
        assert(payload@.take(n as int) =~= payload@);
    }
    t
}

/// Whether an attestation validates against a payload: it is exactly 16
/// bytes, its signer key is in the known set, and its tag is the keyed tag
/// of the payload under that key.
pub open spec fn spec_verify(payload: Seq<u8>, sig: Seq<u8>) -> bool {
    &&& sig.len() == 16
    &&& spec_authorized(be_bytes_value(sig.subrange(0, 8)))
    &&& be_bytes_value(sig.subrange(8, 16)) == spec_tag(
        be_bytes_value(sig.subrange(0, 8)),
        payload,
    )
}

/// Check an attestation against a payload.  Pure: the result depends on the
/// two buffers alone, and a malformed attestation returns `false`.
pub fn verify(message: RawMessage, signature: Signature) -> (r: bool)
    ensures
        r == spec_verify(message@, signature@),
{
    if signature.len() != 16 {
        return false;
    }
    proof {
        lemma_be_bytes_value_bound(signature@.subrange(0, 8));
        lemma_be_bytes_value_bound(signature@.subrange(8, 16));
        reveal_with_fuel(pow256, 9);
    }
    let signer = be_u128(&signature, 0, 8) as u64;
    let tag = be_u128(&signature, 8, 16) as u64;
    if !(signer == SIGNER_KEY_A || signer == SIGNER_KEY_B) {
        return false;
    }
    let expected = compute_tag(signer, &message);
    tag == expected
}

/// The split of a raw message: `Some((payload, attestation))` when the
/// buffer holds a 4-byte big-endian payload length consistent with its own
/// size, `None` otherwise.
pub open spec fn spec_split(m: Seq<u8>) -> Option<(Seq<u8>, Seq<u8>)> {
    if m.len() < 4 {
        None
    } else {
        let l = be_bytes_value(m.subrange(0, 4)) as int;
        if 4 + l <= m.len() {
            Some((m.subrange(4, 4 + l), m.subrange(4 + l, m.len() as int)))
        } else {
            None
        }
    }
}

/// Split a raw message into payload and attestation.  Fails exactly on a
/// truncated or length-inconsistent buffer, with no partial result.
pub fn decode_signed(m: &Vec<u8>) -> (r: Result<SignedMessage, BridgeError>)
    ensures
        match r {
            Ok(sm) => spec_split(m@) == Some((sm.data@, sm.signature@)),
            Err(e) => spec_split(m@) is None && e == BridgeError::MalformedEncoding,
        },
{
    let mlen = m.len();
    if mlen < 4 {
        return Err(BridgeError::MalformedEncoding);
    }
    let lval = be_u128(m, 0, 4);
    let rem = mlen - 4;
    if lval > rem as u128 {
        return Err(BridgeError::MalformedEncoding);
    }
    let l = lval as usize;
    let data = copy_range(m, 4, l);
    let signature = copy_range(m, 4 + l, mlen - (4 + l));
    Ok(SignedMessage { data, signature })
}

} // verus!
