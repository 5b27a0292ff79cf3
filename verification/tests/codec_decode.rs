use token_bridge::codec::decode_log;
use token_bridge::errors::BridgeError;
use token_bridge::events::{decode_event, native_sig_bytes, BridgeEvent};
use token_bridge::u256::U256;

fn rlp_str(content: &[u8]) -> Vec<u8> {
    let mut v = Vec::new();
    let n = content.len();
    if n == 1 && content[0] < 0x80 {
        v.push(content[0]);
        return v;
    }
    if n <= 55 {
        v.push(0x80 + n as u8);
    } else {
        let mut lenbytes: Vec<u8> = Vec::new();
        let mut x = n;
        while x > 0 {
            lenbytes.insert(0, (x & 0xff) as u8);
            x >>= 8;
        }
        v.push(0xb7 + lenbytes.len() as u8);
        v.extend_from_slice(&lenbytes);
    }
    v.extend_from_slice(content);
    v
}

fn rlp_list(payload: &[u8]) -> Vec<u8> {
    let mut v = Vec::new();
    let n = payload.len();
    if n <= 55 {
        v.push(0xc0 + n as u8);
    } else {
        let mut lenbytes: Vec<u8> = Vec::new();
        let mut x = n;
        while x > 0 {
            lenbytes.insert(0, (x & 0xff) as u8);
            x >>= 8;
        }
        v.push(0xf7 + lenbytes.len() as u8);
        v.extend_from_slice(&lenbytes);
    }
    v.extend_from_slice(payload);
    v
}

fn make_log(address: &[u8], topics: &[Vec<u8>], data: &[u8]) -> Vec<u8> {
    let mut tp = Vec::new();
    for t in topics {
        tp.extend(rlp_str(t));
    }
    let mut payload = Vec::new();
    payload.extend(rlp_str(address));
    payload.extend(rlp_list(&tp));
    payload.extend(rlp_str(data));
    rlp_list(&payload)
}

fn native_data(sender: &[u8], recipient: &[u8], amount_be: &[u8]) -> Vec<u8> {
    let mut p = Vec::new();
    p.extend(rlp_str(sender));
    p.extend(rlp_str(recipient));
    p.extend(rlp_str(amount_be));
    rlp_list(&p)
}

#[test]
fn test_decode() {
    let address = [0x11u8; 20];
    let topic = vec![0x22u8; 32];
    let data = [0x33u8, 0x44, 0x55];
    let encoded = make_log(&address, &[topic.clone()], &data);
    let log = decode_log(&encoded).unwrap();
    assert_eq!(log.address, address.to_vec());
    assert_eq!(log.topics.len(), 1);
    assert_eq!(log.topics[0], topic);
    assert_eq!(log.data, data.to_vec());
}

#[test]
fn test_decode_long_form() {
    // a data blob over 55 bytes forces the long length form
    let address = [0x11u8; 20];
    let data = vec![0x77u8; 200];
    let encoded = make_log(&address, &[vec![0x22u8; 32], vec![0x23u8; 32]], &data);
    let log = decode_log(&encoded).unwrap();
    assert_eq!(log.topics.len(), 2);
    assert_eq!(log.data.len(), 200);
}

#[test]
fn test_decode_truncated_fails() {
    let encoded = make_log(&[0x11u8; 20], &[vec![0x22u8; 32]], &[0x33u8; 10]);
    for cut in 1..encoded.len() {
        let truncated = encoded[..cut].to_vec();
        assert_eq!(decode_log(&truncated), Err(BridgeError::MalformedEncoding));
    }
}

#[test]
fn test_decode_trailing_bytes_fail() {
    let mut encoded = make_log(&[0x11u8; 20], &[vec![0x22u8; 32]], &[0x33u8; 10]);
    encoded.push(0x00);
    assert_eq!(decode_log(&encoded), Err(BridgeError::MalformedEncoding));
}

#[test]
fn test_decode_length_inconsistent_fails() {
    // a topic of 31 bytes is not a fixed-width hash
    let encoded = make_log(&[0x11u8; 20], &[vec![0x22u8; 31]], &[0x33u8; 10]);
    assert_eq!(decode_log(&encoded), Err(BridgeError::MalformedEncoding));
    // an 19-byte address is rejected
    let encoded = make_log(&[0x11u8; 19], &[vec![0x22u8; 32]], &[0x33u8; 10]);
    assert_eq!(decode_log(&encoded), Err(BridgeError::MalformedEncoding));
    // empty buffer
    assert_eq!(decode_log(&Vec::new()), Err(BridgeError::MalformedEncoding));
}

#[test]
fn test_decode_event_native() {
    let sender = [0x44u8; 20];
    let recipient = vec![0x55u8; 32];
    let data = native_data(&sender, &recipient, &[0x64]);
    let payload = make_log(&[0x11u8; 20], &[native_sig_bytes()], &data);
    match decode_event(&payload).unwrap() {
        BridgeEvent::NativeTransfer { sender: s, recipient: r, amount } => {
            assert_eq!(s, sender.to_vec());
            assert_eq!(r, recipient);
            assert_eq!(amount, U256::from_u64(100));
        },
        _ => panic!("expected a native transfer"),
    }
}

#[test]
fn test_decode_event_bad_schema_fails() {
    // known kind, but the data blob lacks the amount field
    let sender = [0x44u8; 20];
    let mut p = Vec::new();
    p.extend(rlp_str(&sender));
    p.extend(rlp_str(&[0x55u8; 32]));
    let data = rlp_list(&p);
    let payload = make_log(&[0x11u8; 20], &[native_sig_bytes()], &data);
    assert_eq!(decode_event(&payload), Err(BridgeError::DecodeError));
    // amount wider than 32 bytes is rejected
    let data = native_data(&sender, &[0x55u8; 32], &[0x01u8; 33]);
    let payload = make_log(&[0x11u8; 20], &[native_sig_bytes()], &data);
    assert_eq!(decode_event(&payload), Err(BridgeError::DecodeError));
}

#[test]
fn test_decode_event_unknown_kind() {
    // a well-formed record of an unknown kind decodes as Unrecognized
    let payload = make_log(&[0x11u8; 20], &[vec![0xabu8; 32]], &[0x01, 0x02]);
    assert!(matches!(decode_event(&payload), Ok(BridgeEvent::Unrecognized)));
    // no topics at all is also an unknown kind
    let payload = make_log(&[0x11u8; 20], &[], &[0x01, 0x02]);
    assert!(matches!(decode_event(&payload), Ok(BridgeEvent::Unrecognized)));
}
