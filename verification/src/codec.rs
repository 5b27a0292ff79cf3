//! Codec utilities: decoding of a length-prefixed binary record.
//!
//! A buffer holds a nested list-or-bytestring structure.  A byte string is
//! either a single byte below `0x80`, a short form (`0x80 + len`, up to 55
//! bytes), or a long form (`0xb7 + len_of_len`, then a big-endian length).
//! A list is the same with bases `0xc0` and `0xf7`.  Decoding proceeds in a
//! single left-to-right pass with no backtracking; a truncated or
//! length-inconsistent buffer fails with `MalformedEncoding` and produces no
//! partial result.  The grammar below is the sole definition of the format:
//! the `spec_*` functions state it, and the parsers are proved against them.

use vstd::prelude::*;
use crate::bytes::{be_bytes_value, copy_range, seq_views};
use crate::errors::BridgeError;
use crate::u256::be_u128;

verus! {

/// The byte-string item at `pos`: `Some((content_start, content_len))`, or
/// `None` when no well-formed string item starts there.
pub open spec fn spec_string_at(d: Seq<u8>, pos: int) -> Option<(int, int)> {
    if !(0 <= pos < d.len()) {
        None
    } else {
        let b = d[pos];
        if b < 0x80 {
            Some((pos, 1))
        } else if b <= 0xb7 {
            let l = (b - 0x80) as int;
            if pos + 1 + l <= d.len() {
                Some((pos + 1, l))
            } else {
                None
            }
        } else if b <= 0xbf {
            let ll = (b - 0xb7) as int;
            if pos + 1 + ll <= d.len() {
                let l = be_bytes_value(d.subrange(pos + 1, pos + 1 + ll)) as int;
                if pos + 1 + ll + l <= d.len() {
                    Some((pos + 1 + ll, l))
                } else {
                    None
                }
            } else {
                None
            }
        } else {
            None
        }
    }
}

/// The list item at `pos`: `Some((payload_start, payload_len))`, or `None`
/// when no well-formed list item starts there.
pub open spec fn spec_list_at(d: Seq<u8>, pos: int) -> Option<(int, int)> {
    if !(0 <= pos < d.len()) {
        None
    } else {
        let b = d[pos];
        if b < 0xc0 {
            None
        } else if b <= 0xf7 {
            let l = (b - 0xc0) as int;
            if pos + 1 + l <= d.len() {
                Some((pos + 1, l))
            } else {
                None
            }
        } else {
            let ll = (b - 0xf7) as int;
            if pos + 1 + ll <= d.len() {
                let l = be_bytes_value(d.subrange(pos + 1, pos + 1 + ll)) as int;
                if pos + 1 + ll + l <= d.len() {
                    Some((pos + 1 + ll, l))
                } else {
                    None
                }
            } else {
                None
            }
        }
    }
}

/// The topics of a log record: fixed-width 32-byte hashes that fill the
/// range `[pos, end)` exactly.
pub open spec fn spec_topics(d: Seq<u8>, pos: int, end: int) -> Option<Seq<Seq<u8>>>
    decreases end - pos,
{
    if pos == end {
        Some(Seq::empty())
    } else if pos > end {
        None
    } else {
        match spec_string_at(d, pos) {
            None => None,
            Some((cs, cl)) => {
                if cl == 32 && pos < cs + cl && cs + cl <= end {
                    match spec_topics(d, cs + cl, end) {
                        None => None,
                        Some(rest) => Some(seq![d.subrange(cs, cs + cl)] + rest),
                    }
                } else {
                    None
                }
            },
        }
    }
}

/// Parse the header of the byte-string item at `pos`.
pub fn parse_string_header(d: &Vec<u8>, pos: usize) -> (r: Result<(usize, usize), BridgeError>)
    ensures
        match r {
            Ok((cs, cl)) => {
                &&& spec_string_at(d@, pos as int) == Some((cs as int, cl as int))
                &&& pos <= cs
                &&& (pos as int) < cs as int + cl as int
                &&& cs as int + cl as int <= d@.len()
            },
            Err(e) => {
                &&& spec_string_at(d@, pos as int) is None
                &&& e == BridgeError::MalformedEncoding
            },
        },
{
    let dlen = d.len();
    if pos >= dlen {
        return Err(BridgeError::MalformedEncoding);
    }
    let b = d[pos];
    if b < 0x80 {
        Ok((pos, 1))
    } else if b <= 0xb7 {
        let l = (b - 0x80) as usize;
        if l > dlen - (pos + 1) {
            Err(BridgeError::MalformedEncoding)
        } else {
            Ok((pos + 1, l))
        }
    } else if b <= 0xbf {
        let ll = (b - 0xb7) as usize;
        if ll > dlen - (pos + 1) {
            return Err(BridgeError::MalformedEncoding);
        }
        let lval = be_u128(d, pos + 1, pos + 1 + ll);
        let rem = dlen - (pos + 1 + ll);
        if lval > rem as u128 {
            return Err(BridgeError::MalformedEncoding);
        }
        Ok((pos + 1 + ll, lval as usize))
    } else {
        Err(BridgeError::MalformedEncoding)
    }
}

/// Parse the header of the list item at `pos`.
pub fn parse_list_header(d: &Vec<u8>, pos: usize) -> (r: Result<(usize, usize), BridgeError>)
    ensures
        match r {
            Ok((ps, pl)) => {
                &&& spec_list_at(d@, pos as int) == Some((ps as int, pl as int))
                &&& pos < ps
                &&& ps as int + pl as int <= d@.len()
            },
            Err(e) => {
                &&& spec_list_at(d@, pos as int) is None
                &&& e == BridgeError::MalformedEncoding
            },
        },
{
    let dlen = d.len();
    if pos >= dlen {
        return Err(BridgeError::MalformedEncoding);
    }
    let b = d[pos];
    if b < 0xc0 {
        Err(BridgeError::MalformedEncoding)
    } else if b <= 0xf7 {
        let l = (b - 0xc0) as usize;
        if l > dlen - (pos + 1) {
            Err(BridgeError::MalformedEncoding)
        } else {
            Ok((pos + 1, l))
        }
    } else {
        let ll = (b - 0xf7) as usize;
        if ll > dlen - (pos + 1) {
            return Err(BridgeError::MalformedEncoding);
        }
        let lval = be_u128(d, pos + 1, pos + 1 + ll);
        let rem = dlen - (pos + 1 + ll);
        if lval > rem as u128 {
            return Err(BridgeError::MalformedEncoding);
        }
        Ok((pos + 1 + ll, lval as usize))
    }
}

/// Parse the 32-byte topics that fill `[start, end)` exactly.
pub fn parse_topics(d: &Vec<u8>, start: usize, end: usize) -> (r: Result<
    Vec<Vec<u8>>,
    BridgeError,
>)
    requires
        start <= end <= d@.len(),
    ensures
        match r {
            Ok(ts) => spec_topics(d@, start as int, end as int) == Some(seq_views(ts@)),
            Err(e) => {
                &&& spec_topics(d@, start as int, end as int) is None
                &&& e == BridgeError::MalformedEncoding
            },
        },
{
    let mut ts: Vec<Vec<u8>> = Vec::new();
    let mut pos = start;
    while pos < end
        invariant
            start <= pos <= end <= d@.len(),
            spec_topics(d@, pos as int, end as int) matches Some(rest)
                ==> spec_topics(d@, start as int, end as int)
                    == Some(seq_views(ts@) + rest),
            spec_topics(d@, pos as int, end as int) is None
                ==> spec_topics(d@, start as int, end as int) is None,
        decreases end - pos,
    {
        let (cs, cl) = match parse_string_header(d, pos) {
            Ok(v) => v,
            Err(e) => {
                return Err(e);
            }
        };
        if cl != 32 || cs > end || cl > end - cs {
            return Err(BridgeError::MalformedEncoding);
        }
        let t = copy_range(d, cs, cl);
        let ghost pre = ts@;
        ts.push(t);
        proof {
            let rest0 = spec_topics(d@, pos as int, end as int);
            assert(seq_views(ts@) =~= seq_views(pre) + seq![t@]);
            match spec_topics(d@, cs as int + cl as int, end as int) {
                Some(rest) => {
                    assert(rest0 == Some(
                        seq![d@.subrange(cs as int, cs as int + cl as int)] + rest,
                    ));
                    assert(seq_views(pre) + (seq![t@] + rest) =~= seq_views(ts@) + rest);
                },
                None => {},
            }
        }
        pos = cs + cl;
    }
    proof {
        assert(seq_views(ts@) + Seq::<Seq<u8>>::empty() =~= seq_views(ts@));
    }
    Ok(ts)
}

/// A decoded log record: the emitting address, the topic list, and the
/// opaque data blob.
#[derive(Debug, PartialEq, Eq)]
pub struct LogRecord {
    /// The 20-byte address of the emitting contract.
    pub address: Vec<u8>,
    /// The 32-byte topic hashes; the first one names the event kind.
    pub topics: Vec<Vec<u8>>,
    /// The opaque, schema-dependent data blob.
    pub data: Vec<u8>,
}

/// The abstract value of a decoded log record.
pub struct LogView {
    /// The 20-byte address of the emitting contract.
    pub address: Seq<u8>,
    /// The 32-byte topic hashes.
    pub topics: Seq<Seq<u8>>,
    /// The opaque data blob.
    pub data: Seq<u8>,
}

impl View for LogRecord {
    type V = LogView;

    open spec fn view(&self) -> LogView {
        LogView { address: self.address@, topics: seq_views(self.topics@), data: self.data@ }
    }
}

/// The log record encoded by the whole buffer `d`: a list holding a 20-byte
/// address, a list of 32-byte topics, and a data string, with nothing left
/// over.  `None` when `d` is not exactly such a record.
pub open spec fn spec_log(d: Seq<u8>) -> Option<LogView> {
    match spec_list_at(d, 0) {
        None => None,
        Some((ps, pl)) => {
            let end = ps + pl;
            if end != d.len() {
                None
            } else {
                match spec_string_at(d, ps) {
                    None => None,
                    Some((acs, acl)) => {
                        if acl != 20 || acs + acl > end {
                            None
                        } else {
                            match spec_list_at(d, acs + acl) {
                                None => None,
                                Some((tps, tpl)) => {
                                    if tps + tpl > end {
                                        None
                                    } else {
                                        match spec_topics(d, tps, tps + tpl) {
                                            None => None,
                                            Some(ts) => {
                                                match spec_string_at(d, tps + tpl) {
                                                    None => None,
                                                    Some((dcs, dcl)) => {
                                                        if dcs + dcl == end {
                                                            Some(
                                                                LogView {
                                                                    address: d.subrange(
                                                                        acs,
                                                                        acs + acl,
                                                                    ),
                                                                    topics: ts,
                                                                    data: d.subrange(
                                                                        dcs,
                                                                        dcs + dcl,
                                                                    ),
                                                                },
                                                            )
                                                        } else {
                                                            None
                                                        }
                                                    },
                                                }
                                            },
                                        }
                                    }
                                },
                            }
                        }
                    },
                }
            }
        },
    }
}

/// Decode a whole buffer as a log record.  Succeeds exactly on the buffers
/// of the length-prefix grammar, and then returns exactly the record the
/// grammar assigns to the buffer.
pub fn decode_log(d: &Vec<u8>) -> (r: Result<LogRecord, BridgeError>)
    ensures
        match r {
            Ok(log) => spec_log(d@) == Some(log@),
            Err(e) => {
                &&& spec_log(d@) is None
                &&& e == BridgeError::MalformedEncoding
            },
        },
{
    let dlen = d.len();
    let (ps, pl) = match parse_list_header(d, 0) {
        Ok(v) => v,
        Err(e) => {
            return Err(e);
        }
    };
    let end = ps + pl;
    if end != dlen {
        return Err(BridgeError::MalformedEncoding);
    }
    let (acs, acl) = match parse_string_header(d, ps) {
        Ok(v) => v,
        Err(e) => {
            return Err(e);
        }
    };
    if acl != 20 || acs > end || acl > end - acs {
        return Err(BridgeError::MalformedEncoding);
    }
    let (tps, tpl) = match parse_list_header(d, acs + acl) {
        Ok(v) => v,
        Err(e) => {
            return Err(e);
        }
    };
    if tps > end || tpl > end - tps {
        return Err(BridgeError::MalformedEncoding);
    }
    let topics = match parse_topics(d, tps, tps + tpl) {
        Ok(v) => v,
        Err(e) => {
            return Err(e);
        }
    };
    let (dcs, dcl) = match parse_string_header(d, tps + tpl) {
        Ok(v) => v,
        Err(e) => {
            return Err(e);
        }
    };
    if dcs > end || dcl != end - dcs {
        return Err(BridgeError::MalformedEncoding);
    }
    let address = copy_range(d, acs, acl);
    let data = copy_range(d, dcs, dcl);
    Ok(LogRecord { address, topics, data })
}

} // verus!
