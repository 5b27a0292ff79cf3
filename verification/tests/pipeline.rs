use token_bridge::errors::BridgeError;
use token_bridge::events::{native_sig_bytes, token_sig_bytes};
use token_bridge::ledger::bytes_to_account_id;
use token_bridge::message::{compute_tag, verify, SIGNER_KEY_A, SIGNER_KEY_B};
use token_bridge::notify::Notification;
use token_bridge::router::{Bridge, APP_NATIVE, APP_TOKEN};
use token_bridge::u256::U256;

fn rlp_str(content: &[u8]) -> Vec<u8> {
    let mut v = Vec::new();
    let n = content.len();
    if n == 1 && content[0] < 0x80 {
        v.push(content[0]);
        return v;
    }
    if n <= 55 {
        v.push(0x80 + n as u8);
    } else {
        let mut lenbytes: Vec<u8> = Vec::new();
        let mut x = n;
        while x > 0 {
            lenbytes.insert(0, (x & 0xff) as u8);
            x >>= 8;
        }
        v.push(0xb7 + lenbytes.len() as u8);
        v.extend_from_slice(&lenbytes);
    }
    v.extend_from_slice(content);
    v
}

fn rlp_list(payload: &[u8]) -> Vec<u8> {
    let mut v = Vec::new();
    let n = payload.len();
    if n <= 55 {
        v.push(0xc0 + n as u8);
    } else {
        let mut lenbytes: Vec<u8> = Vec::new();
        let mut x = n;
        while x > 0 {
            lenbytes.insert(0, (x & 0xff) as u8);
            x >>= 8;
        }
        v.push(0xf7 + lenbytes.len() as u8);
        v.extend_from_slice(&lenbytes);
    }
    v.extend_from_slice(payload);
    v
}

fn make_log(address: &[u8], topics: &[Vec<u8>], data: &[u8]) -> Vec<u8> {
    let mut tp = Vec::new();
    for t in topics {
        tp.extend(rlp_str(t));
    }
    let mut payload = Vec::new();
    payload.extend(rlp_str(address));
    payload.extend(rlp_list(&tp));
    payload.extend(rlp_str(data));
    rlp_list(&payload)
}

fn native_transfer_payload(sender: &[u8], recipient: &[u8], amount_be: &[u8]) -> Vec<u8> {
    let mut p = Vec::new();
    p.extend(rlp_str(sender));
    p.extend(rlp_str(recipient));
    p.extend(rlp_str(amount_be));
    make_log(&[0x11u8; 20], &[native_sig_bytes()], &rlp_list(&p))
}

fn token_transfer_payload(
    token: &[u8],
    sender: &[u8],
    recipient: &[u8],
    amount_be: &[u8],
) -> Vec<u8> {
    let mut p = Vec::new();
    p.extend(rlp_str(token));
    p.extend(rlp_str(sender));
    p.extend(rlp_str(recipient));
    p.extend(rlp_str(amount_be));
    make_log(&[0x11u8; 20], &[token_sig_bytes()], &rlp_list(&p))
}

fn signed(payload: &[u8], signer: u64, corrupt: bool) -> Vec<u8> {
    let mut m = Vec::new();
    m.extend_from_slice(&(payload.len() as u32).to_be_bytes());
    m.extend_from_slice(payload);
    m.extend_from_slice(&signer.to_be_bytes());
    let mut tag = compute_tag(signer, &payload.to_vec());
    if corrupt {
        tag = tag.wrapping_add(1);
    }
    m.extend_from_slice(&tag.to_be_bytes());
    m
}

#[test]
fn test_tag_formula() {
    // seed: the signer key itself
    assert_eq!(compute_tag(5, &Vec::new()), 5);
    // one step: tag * 131 + byte, in the 64-bit range
    assert_eq!(compute_tag(5, &vec![2u8]), 5 * 131 + 2);
    assert_eq!(compute_tag(5, &vec![2u8, 3]), (5 * 131 + 2) * 131 + 3);
    assert_eq!(
        compute_tag(u64::MAX, &vec![0xffu8]),
        ((u64::MAX as u128 * 131 + 0xff) % (1u128 << 64)) as u64,
    );
}

#[test]
fn test_verify_accepts_valid_attestation() {
    let payload = vec![1u8, 2, 3, 4];
    let msg = signed(&payload, SIGNER_KEY_A, false);
    let sig = msg[msg.len() - 16..].to_vec();
    assert!(verify(payload.clone(), sig));
    let msg_b = signed(&payload, SIGNER_KEY_B, false);
    assert!(verify(payload.clone(), msg_b[msg_b.len() - 16..].to_vec()));
}

#[test]
fn test_verify_rejects_malformed_attestation() {
    let payload = vec![1u8, 2, 3, 4];
    // wrong tag
    let msg = signed(&payload, SIGNER_KEY_A, true);
    assert!(!verify(payload.clone(), msg[msg.len() - 16..].to_vec()));
    // unknown signer
    let msg = signed(&payload, 0x1234, false);
    assert!(!verify(payload.clone(), msg[msg.len() - 16..].to_vec()));
    // wrong length, empty, and garbage are rejected, never thrown
    assert!(!verify(payload.clone(), vec![0u8; 15]));
    assert!(!verify(payload.clone(), Vec::new()));
    assert!(!verify(payload.clone(), vec![0xffu8; 16]));
}

#[test]
fn test_scenario_native_transfer() {
    // a verified native transfer of 100 towards a fresh account
    let recipient = vec![0x42u8; 32];
    let payload = native_transfer_payload(&[0x01u8; 20], &recipient, &[100]);
    let msg = signed(&payload, SIGNER_KEY_A, false);
    let mut bridge = Bridge::new();
    assert_eq!(bridge.handle(APP_NATIVE, &msg), Ok(()));
    let acct = bytes_to_account_id(&recipient).unwrap();
    assert_eq!(bridge.native().balance(&acct), U256::from_u64(100));
    assert_eq!(bridge.native().issuance_value(), U256::from_u64(100));
    assert_eq!(bridge.native().notifications().len(), 1);
    match &bridge.native().notifications()[0] {
        Notification::Minted { amount, .. } => assert_eq!(*amount, U256::from_u64(100)),
        _ => panic!("expected a Minted notification"),
    }
}

#[test]
fn test_scenario_zero_amount() {
    // the same transfer with amount zero: no balance change, no notification
    let recipient = vec![0x42u8; 32];
    let payload = native_transfer_payload(&[0x01u8; 20], &recipient, &[]);
    let msg = signed(&payload, SIGNER_KEY_A, false);
    let mut bridge = Bridge::new();
    assert_eq!(bridge.handle(APP_NATIVE, &msg), Ok(()));
    let acct = bytes_to_account_id(&recipient).unwrap();
    assert_eq!(bridge.native().balance(&acct), U256::from_u64(0));
    assert_eq!(bridge.native().issuance_value(), U256::from_u64(0));
    assert_eq!(bridge.native().notifications().len(), 0);
}

#[test]
fn test_scenario_failed_attestation() {
    // a message whose attestation fails verification changes nothing
    let recipient = vec![0x42u8; 32];
    let payload = native_transfer_payload(&[0x01u8; 20], &recipient, &[100]);
    let msg = signed(&payload, SIGNER_KEY_A, true);
    let mut bridge = Bridge::new();
    assert_eq!(
        bridge.handle(APP_NATIVE, &msg),
        Err(BridgeError::VerificationFailure),
    );
    let acct = bytes_to_account_id(&recipient).unwrap();
    assert_eq!(bridge.native().balance(&acct), U256::from_u64(0));
    assert_eq!(bridge.native().issuance_value(), U256::from_u64(0));
    assert_eq!(bridge.native().notifications().len(), 0);
}

#[test]
fn test_scenario_token_transfer_twice() {
    // two identical token transfers of 50 both apply
    let token = vec![0xaau8; 20];
    let recipient = vec![0x42u8; 32];
    let payload = token_transfer_payload(&token, &[0x01u8; 20], &recipient, &[50]);
    let msg = signed(&payload, SIGNER_KEY_B, false);
    let mut bridge = Bridge::new();
    assert_eq!(bridge.handle(APP_TOKEN, &msg), Ok(()));
    assert_eq!(bridge.handle(APP_TOKEN, &msg), Ok(()));
    let acct = bytes_to_account_id(&recipient).unwrap();
    assert_eq!(bridge.token().balance(&token, &acct), U256::from_u64(100));
    assert_eq!(bridge.token().issuance_value(&token), U256::from_u64(100));
    assert_eq!(bridge.token().notifications().len(), 2);
}

#[test]
fn test_unknown_application() {
    let payload = native_transfer_payload(&[0x01u8; 20], &[0x42u8; 32], &[100]);
    let msg = signed(&payload, SIGNER_KEY_A, false);
    let mut bridge = Bridge::new();
    assert_eq!(bridge.handle(7, &msg), Err(BridgeError::UnknownApplication));
    assert_eq!(bridge.native().issuance_value(), U256::from_u64(0));
}

#[test]
fn test_unrecognized_event_is_noop() {
    // a well-formed event of an unknown kind routes successfully and
    // mutates nothing
    let payload = make_log(&[0x11u8; 20], &[vec![0xabu8; 32]], &[0x01, 0x02]);
    let msg = signed(&payload, SIGNER_KEY_A, false);
    let mut bridge = Bridge::new();
    assert_eq!(bridge.handle(APP_NATIVE, &msg), Ok(()));
    assert_eq!(bridge.native().issuance_value(), U256::from_u64(0));
    assert_eq!(bridge.native().notifications().len(), 0);
    // the token module ignores a native transfer the same way
    let payload = native_transfer_payload(&[0x01u8; 20], &[0x42u8; 32], &[100]);
    let msg = signed(&payload, SIGNER_KEY_A, false);
    assert_eq!(bridge.handle(APP_TOKEN, &msg), Ok(()));
    assert_eq!(bridge.token().notifications().len(), 0);
    // and the native module ignores a token transfer
    let payload = token_transfer_payload(&[0xaau8; 20], &[0x01u8; 20], &[0x42u8; 32], &[9]);
    let msg = signed(&payload, SIGNER_KEY_A, false);
    assert_eq!(bridge.handle(APP_NATIVE, &msg), Ok(()));
    assert_eq!(bridge.native().issuance_value(), U256::from_u64(0));
}

#[test]
fn test_invalid_recipient() {
    // a recipient that is not a 32-byte account encoding is rejected
    let payload = native_transfer_payload(&[0x01u8; 20], &[0x42u8; 31], &[100]);
    let msg = signed(&payload, SIGNER_KEY_A, false);
    let mut bridge = Bridge::new();
    assert_eq!(bridge.handle(APP_NATIVE, &msg), Err(BridgeError::InvalidRecipient));
    assert_eq!(bridge.native().issuance_value(), U256::from_u64(0));
}

#[test]
fn test_malformed_message_framing() {
    let mut bridge = Bridge::new();
    // too short for the length prefix
    assert_eq!(
        bridge.handle(APP_NATIVE, &vec![0u8, 0, 0]),
        Err(BridgeError::MalformedEncoding),
    );
    // length prefix exceeds the buffer
    assert_eq!(
        bridge.handle(APP_NATIVE, &vec![0u8, 0, 0, 9, 1, 2]),
        Err(BridgeError::MalformedEncoding),
    );
}

#[test]
fn test_undecodable_payload() {
    // verified but not a log record: rejected by the decoder, no mutation
    let payload = vec![0x01u8, 0x02, 0x03];
    let msg = signed(&payload, SIGNER_KEY_A, false);
    let mut bridge = Bridge::new();
    assert_eq!(bridge.handle(APP_NATIVE, &msg), Err(BridgeError::DecodeError));
    assert_eq!(bridge.native().issuance_value(), U256::from_u64(0));
}

#[test]
fn test_burn_after_bridge_mint() {
    // end to end: mint via the pipeline, then burn locally
    let recipient = vec![0x42u8; 32];
    let payload = native_transfer_payload(&[0x01u8; 20], &recipient, &[100]);
    let msg = signed(&payload, SIGNER_KEY_A, false);
    let mut bridge = Bridge::new();
    bridge.handle(APP_NATIVE, &msg).unwrap();
    let acct = bytes_to_account_id(&recipient).unwrap();
    assert_eq!(bridge.native_mut().burn(&acct, &U256::from_u64(100)), Ok(()));
    assert_eq!(bridge.native().balance(&acct), U256::from_u64(0));
    assert_eq!(bridge.native().issuance_value(), U256::from_u64(0));
    assert_eq!(
        bridge.native_mut().burn(&acct, &U256::from_u64(1)),
        Err(BridgeError::TotalBurningUnderflow),
    );
}
