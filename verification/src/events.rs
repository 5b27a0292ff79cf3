//! The decoder: from a verified payload to a typed bridge event.
//!
//! The first topic of the log record names the event kind.  The two known
//! kinds carry their parameters in the data blob as a further
//! length-prefixed record; every other kind decodes as `Unrecognized`,
//! which downstream handling treats as a successful no-op.

use vstd::prelude::*;
use crate::bytes::{be_bytes_value, bytes_eq, copy_range};
use crate::codec::{decode_log, parse_list_header, parse_string_header, spec_list_at, spec_log, spec_string_at};
use crate::errors::BridgeError;
use crate::u256::U256;

verus! {

/// A decoded foreign-chain occurrence.
#[derive(Debug, PartialEq, Eq)]
pub enum BridgeEvent {
    /// A transfer of the native asset towards a local recipient.
    NativeTransfer { sender: Vec<u8>, recipient: Vec<u8>, amount: U256 },
    /// A transfer of a token asset, keyed by the token address.
    TokenTransfer { token: Vec<u8>, sender: Vec<u8>, recipient: Vec<u8>, amount: U256 },
    /// A well-formed event of a kind outside the known set.
    Unrecognized,
}

/// The abstract value of a bridge event.
pub enum EventView {
    /// A transfer of the native asset.
    Native { sender: Seq<u8>, recipient: Seq<u8>, amount: nat },
    /// A transfer of a token asset.
    Token { token: Seq<u8>, sender: Seq<u8>, recipient: Seq<u8>, amount: nat },
    /// An event of an unknown kind.
    Unknown,
}

/// The abstract value of a decoded event.
pub open spec fn event_view(e: BridgeEvent) -> EventView {
    match e {
        BridgeEvent::NativeTransfer { sender, recipient, amount } => EventView::Native {
            sender: sender@,
            recipient: recipient@,
            amount: amount@,
        },
        BridgeEvent::TokenTransfer { token, sender, recipient, amount } => EventView::Token {
            token: token@,
            sender: sender@,
            recipient: recipient@,
            amount: amount@,
        },
        BridgeEvent::Unrecognized => EventView::Unknown,
    }
}

/// The fixed-width fields of a decoded event have their schema widths.
pub open spec fn event_wf(e: BridgeEvent) -> bool {
    match e {
        BridgeEvent::NativeTransfer { sender, recipient, amount } => sender@.len() == 20,
        BridgeEvent::TokenTransfer { token, sender, recipient, amount } => token@.len() == 20
            && sender@.len() == 20,
        BridgeEvent::Unrecognized => true,
    }
}

/// The topic hash that names the native-asset transfer event.
pub open spec fn spec_native_sig() -> Seq<u8> {
    seq![
        0x1du8, 0x5au8, 0x0fu8, 0x50u8, 0x60u8, 0xe6u8, 0x14u8, 0xbfu8,
        0x63u8, 0xccu8, 0x10u8, 0x4au8, 0x87u8, 0x23u8, 0xd2u8, 0x4eu8,
        0x0bu8, 0x25u8, 0x80u8, 0x3cu8, 0x9au8, 0x3au8, 0xdcu8, 0x17u8,
        0xacu8, 0xeeu8, 0x05u8, 0x6fu8, 0x31u8, 0x9cu8, 0x87u8, 0x0eu8,
    ]
}

/// The topic hash that names the token transfer event.
pub open spec fn spec_token_sig() -> Seq<u8> {
    seq![
        0x54u8, 0x2du8, 0x8bu8, 0xcfu8, 0x61u8, 0x7du8, 0x9fu8, 0x21u8,
        0x6au8, 0x3cu8, 0x55u8, 0xe8u8, 0x74u8, 0x8au8, 0x93u8, 0x0au8,
        0x2fu8, 0x44u8, 0x1cu8, 0xd6u8, 0xbau8, 0x60u8, 0x6eu8, 0x5du8,
        0x71u8, 0x02u8, 0xe5u8, 0x9eu8, 0x3fu8, 0x9du8, 0x4bu8, 0xa1u8,
    ]
}

/// The native-transfer topic hash as a byte vector.
pub fn native_sig_bytes() -> (r: Vec<u8>)
    ensures
        r@ == spec_native_sig(),
{
    let mut v: Vec<u8> = Vec::new();
    v.push(0x1d); v.push(0x5a); v.push(0x0f); v.push(0x50); v.push(0x60); v.push(0xe6); v.push(0x14); v.push(0xbf);
    v.push(0x63); v.push(0xcc); v.push(0x10); v.push(0x4a); v.push(0x87); v.push(0x23); v.push(0xd2); v.push(0x4e);
    v.push(0x0b); v.push(0x25); v.push(0x80); v.push(0x3c); v.push(0x9a); v.push(0x3a); v.push(0xdc); v.push(0x17);
    v.push(0xac); v.push(0xee); v.push(0x05); v.push(0x6f); v.push(0x31); v.push(0x9c); v.push(0x87); v.push(0x0e);
    proof {
        assert(v@ =~= spec_native_sig());
    }
    v
}

/// The token-transfer topic hash as a byte vector.
pub fn token_sig_bytes() -> (r: Vec<u8>)
    ensures
        r@ == spec_token_sig(),
{
    let mut v: Vec<u8> = Vec::new();
    v.push(0x54); v.push(0x2d); v.push(0x8b); v.push(0xcf); v.push(0x61); v.push(0x7d); v.push(0x9f); v.push(0x21);
    v.push(0x6a); v.push(0x3c); v.push(0x55); v.push(0xe8); v.push(0x74); v.push(0x8a); v.push(0x93); v.push(0x0a);
    v.push(0x2f); v.push(0x44); v.push(0x1c); v.push(0xd6); v.push(0xba); v.push(0x60); v.push(0x6e); v.push(0x5d);
    v.push(0x71); v.push(0x02); v.push(0xe5); v.push(0x9e); v.push(0x3f); v.push(0x9d); v.push(0x4b); v.push(0xa1);
    proof {
        assert(v@ =~= spec_token_sig());
    }
    v
}

/// The native-transfer parameters carried by a data blob: a list holding a
/// 20-byte sender, a variable-length recipient, and an amount of at most 32
/// bytes, filling the blob exactly.
pub open spec fn spec_native_payload(d: Seq<u8>) -> Option<EventView> {
    match spec_list_at(d, 0) {
        None => None,
        Some((ps, pl)) => {
            let end = ps + pl;
            if end != d.len() {
                None
            } else {
                match spec_string_at(d, ps) {
                    None => None,
                    Some((scs, scl)) => {
                        if scl != 20 || scs + scl > end {
                            None
                        } else {
                            match spec_string_at(d, scs + scl) {
                                None => None,
                                Some((rcs, rcl)) => {
                                    if rcs + rcl > end {
                                        None
                                    } else {
                                        match spec_string_at(d, rcs + rcl) {
                                            None => None,
                                            Some((mcs, mcl)) => {
                                                if mcl <= 32 && mcs + mcl == end {
                                                    Some(
                                                        EventView::Native {
                                                            sender: d.subrange(scs, scs + scl),
                                                            recipient: d.subrange(rcs, rcs + rcl),
                                                            amount: be_bytes_value(
                                                                d.subrange(mcs, mcs + mcl),
                                                            ),
                                                        },
                                                    )
                                                } else {
                                                    None
                                                }
                                            },
                                        }
                                    }
                                },
                            }
                        }
                    },
                }
            }
        },
    }
}

/// The token-transfer parameters carried by a data blob: a list holding a
/// 20-byte token address, a 20-byte sender, a variable-length recipient,
/// and an amount of at most 32 bytes, filling the blob exactly.
pub open spec fn spec_token_payload(d: Seq<u8>) -> Option<EventView> {
    match spec_list_at(d, 0) {
        None => None,
        Some((ps, pl)) => {
            let end = ps + pl;
            if end != d.len() {
                None
            } else {
                match spec_string_at(d, ps) {
                    None => None,
                    Some((tcs, tcl)) => {
                        if tcl != 20 || tcs + tcl > end {
                            None
                        } else {
                            match spec_string_at(d, tcs + tcl) {
                                None => None,
                                Some((scs, scl)) => {
                                    if scl != 20 || scs + scl > end {
                                        None
                                    } else {
                                        match spec_string_at(d, scs + scl) {
                                            None => None,
                                            Some((rcs, rcl)) => {
                                                if rcs + rcl > end {
                                                    None
                                                } else {
                                                    match spec_string_at(d, rcs + rcl) {
                                                        None => None,
                                                        Some((mcs, mcl)) => {
                                                            if mcl <= 32 && mcs + mcl == end {
                                                                Some(
                                                                    EventView::Token {
                                                                        token: d.subrange(
                                                                            tcs,
                                                                            tcs + tcl,
                                                                        ),
                                                                        sender: d.subrange(
                                                                            scs,
                                                                            scs + scl,
                                                                        ),
                                                                        recipient: d.subrange(
                                                                            rcs,
                                                                            rcs + rcl,
                                                                        ),
                                                                        amount: be_bytes_value(
                                                                            d.subrange(
                                                                                mcs,
                                                                                mcs + mcl,
                                                                            ),
                                                                        ),
                                                                    },
                                                                )
                                                            } else {
                                                                None
                                                            }
                                                        },
                                                    }
                                                }
                                            },
                                        }
                                    }
                                },
                            }
                        }
                    },
                }
            }
        },
    }
}

/// The event encoded by a verified payload: the log record's first topic
/// picks the schema; an unknown first topic (or no topic at all) is the
/// `Unknown` kind, which is not an error.
pub open spec fn spec_event(d: Seq<u8>) -> Option<EventView> {
    match spec_log(d) {
        None => None,
        Some(log) => {
            if log.topics.len() > 0 && log.topics[0] == spec_native_sig() {
                spec_native_payload(log.data)
            } else if log.topics.len() > 0 && log.topics[0] == spec_token_sig() {
                spec_token_payload(log.data)
            } else {
                Some(EventView::Unknown)
            }
        },
    }
}

/// Parse a data blob under the native-transfer schema.
fn parse_native_payload(d: &Vec<u8>) -> (r: Result<BridgeEvent, BridgeError>)
    ensures
        match r {
            Ok(ev) => spec_native_payload(d@) == Some(event_view(ev)) && event_wf(ev),
            Err(e) => spec_native_payload(d@) is None && e == BridgeError::DecodeError,
        },
{
    let dlen = d.len();
    let (ps, pl) = match parse_list_header(d, 0) {
        Ok(v) => v,
        Err(_) => {
            return Err(BridgeError::DecodeError);
        }
    };
    let end = ps + pl;
    if end != dlen {
        return Err(BridgeError::DecodeError);
    }
    let (scs, scl) = match parse_string_header(d, ps) {
        Ok(v) => v,
        Err(_) => {
            return Err(BridgeError::DecodeError);
        }
    };
    if scl != 20 || scs > end || scl > end - scs {
        return Err(BridgeError::DecodeError);
    }
    let (rcs, rcl) = match parse_string_header(d, scs + scl) {
        Ok(v) => v,
        Err(_) => {
            return Err(BridgeError::DecodeError);
        }
    };
    if rcs > end || rcl > end - rcs {
        return Err(BridgeError::DecodeError);
    }
    let (mcs, mcl) = match parse_string_header(d, rcs + rcl) {
        Ok(v) => v,
        Err(_) => {
            return Err(BridgeError::DecodeError);
        }
    };
    if mcl > 32 || mcs > end || mcl != end - mcs {
        return Err(BridgeError::DecodeError);
    }
    let sender = copy_range(d, scs, scl);
    let recipient = copy_range(d, rcs, rcl);
    let amount_bytes = copy_range(d, mcs, mcl);
    let amount = U256::from_be_bytes(&amount_bytes);
    Ok(BridgeEvent::NativeTransfer { sender, recipient, amount })
}

/// Parse a data blob under the token-transfer schema.
fn parse_token_payload(d: &Vec<u8>) -> (r: Result<BridgeEvent, BridgeError>)
    ensures
        match r {
            Ok(ev) => spec_token_payload(d@) == Some(event_view(ev)) && event_wf(ev),
            Err(e) => spec_token_payload(d@) is None && e == BridgeError::DecodeError,
        },
{
    let dlen = d.len();
    let (ps, pl) = match parse_list_header(d, 0) {
        Ok(v) => v,
        Err(_) => {
            return Err(BridgeError::DecodeError);
        }
    };
    let end = ps + pl;
    if end != dlen {
        return Err(BridgeError::DecodeError);
    }
    let (tcs, tcl) = match parse_string_header(d, ps) {
        Ok(v) => v,
        Err(_) => {
            return Err(BridgeError::DecodeError);
        }
    };
    if tcl != 20 || tcs > end || tcl > end - tcs {
        return Err(BridgeError::DecodeError);
    }
    let (scs, scl) = match parse_string_header(d, tcs + tcl) {
        Ok(v) => v,
        Err(_) => {
            return Err(BridgeError::DecodeError);
        }
    };
    if scl != 20 || scs > end || scl > end - scs {
        return Err(BridgeError::DecodeError);
    }
    let (rcs, rcl) = match parse_string_header(d, scs + scl) {
        Ok(v) => v,
        Err(_) => {
            return Err(BridgeError::DecodeError);
        }
    };
    if rcs > end || rcl > end - rcs {
        return Err(BridgeError::DecodeError);
    }
    let (mcs, mcl) = match parse_string_header(d, rcs + rcl) {
        Ok(v) => v,
        Err(_) => {
            return Err(BridgeError::DecodeError);
        }
    };
    if mcl > 32 || mcs > end || mcl != end - mcs {
        return Err(BridgeError::DecodeError);
    }
    let token = copy_range(d, tcs, tcl);
    let sender = copy_range(d, scs, scl);
    let recipient = copy_range(d, rcs, rcl);
    let amount_bytes = copy_range(d, mcs, mcl);
    let amount = U256::from_be_bytes(&amount_bytes);
    Ok(BridgeEvent::TokenTransfer { token, sender, recipient, amount })
}

/// Decode a verified payload into a typed bridge event.  Succeeds exactly
/// when the payload is a well-formed log record whose data blob matches the
/// schema its first topic names, and then returns exactly the event the
/// schema assigns; a well-formed record of an unknown kind is the
/// `Unrecognized` event, not an error.
pub fn decode_event(payload: &Vec<u8>) -> (r: Result<BridgeEvent, BridgeError>)
    ensures
        match r {
            Ok(ev) => spec_event(payload@) == Some(event_view(ev)) && event_wf(ev),
            Err(e) => spec_event(payload@) is None && e == BridgeError::DecodeError,
        },
{
    let log = match decode_log(payload) {
        Ok(l) => l,
        Err(_) => {
            return Err(BridgeError::DecodeError);
        }
    };
    if log.topics.len() == 0 {
        return Ok(BridgeEvent::Unrecognized);
    }
    if bytes_eq(&log.topics[0], &native_sig_bytes()) {
        parse_native_payload(&log.data)
    } else if bytes_eq(&log.topics[0], &token_sig_bytes()) {
        parse_token_payload(&log.data)
    } else {
        Ok(BridgeEvent::Unrecognized)
    }
}

} // verus!
