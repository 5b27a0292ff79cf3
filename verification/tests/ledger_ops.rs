use token_bridge::errors::BridgeError;
use token_bridge::ledger::bytes_to_account_id;
use token_bridge::ledger::AccountId;
use token_bridge::native::NativeApp;
use token_bridge::notify::Notification;
use token_bridge::token::TokenApp;
use token_bridge::u256::U256;

fn account(fill: u8) -> AccountId {
    bytes_to_account_id(&vec![fill; 32]).unwrap()
}

#[test]
fn test_account_id_resolution() {
    assert!(bytes_to_account_id(&vec![7u8; 32]).is_some());
    assert!(bytes_to_account_id(&vec![7u8; 31]).is_none());
    assert!(bytes_to_account_id(&vec![7u8; 33]).is_none());
    assert!(bytes_to_account_id(&Vec::new()).is_none());
}

#[test]
fn test_u256_checked_arithmetic() {
    let a = U256::from_u64(100);
    let b = U256::from_u64(28);
    assert_eq!(a.checked_add(&b).unwrap(), U256::from_u64(128));
    assert_eq!(a.checked_sub(&b).unwrap(), U256::from_u64(72));
    assert!(b.checked_sub(&a).is_none());
    let max = U256::max_value();
    assert!(max.checked_add(&U256::from_u64(1)).is_none());
    assert_eq!(max.checked_add(&U256::from_u64(0)).unwrap(), max);
    assert_eq!(max.checked_sub(&max).unwrap(), U256::from_u64(0));
}

#[test]
fn test_u256_from_be_bytes() {
    assert_eq!(U256::from_be_bytes(&vec![]), U256::from_u64(0));
    assert_eq!(U256::from_be_bytes(&vec![0x64]), U256::from_u64(100));
    assert_eq!(U256::from_be_bytes(&vec![0x01, 0x00]), U256::from_u64(256));
    assert_eq!(
        U256::from_be_bytes(&vec![0xde, 0xad, 0xbe, 0xef]),
        U256::from_u64(0xdeadbeef),
    );
    // 17 bytes: crosses the 128-bit limb boundary
    let mut b = vec![0x01];
    b.extend_from_slice(&[0u8; 16]);
    assert_eq!(U256::from_be_bytes(&b), U256::from_u128(1u128 << 127).checked_add(&U256::from_u128(1u128 << 127)).unwrap());
    assert_eq!(U256::from_be_bytes(&vec![0xff; 32]), U256::max_value());
}

#[test]
fn test_mint_updates_balance_and_issuance() {
    let mut app = NativeApp::new();
    let who = account(1);
    assert_eq!(app.do_mint(&who, &U256::from_u64(100)), Ok(()));
    assert_eq!(app.balance(&who), U256::from_u64(100));
    assert_eq!(app.issuance_value(), U256::from_u64(100));
    assert_eq!(app.notifications().len(), 1);
    match &app.notifications()[0] {
        Notification::Minted { amount, .. } => assert_eq!(*amount, U256::from_u64(100)),
        _ => panic!("expected a Minted notification"),
    }
}

#[test]
fn test_mint_zero_is_noop() {
    let mut app = NativeApp::new();
    let who = account(1);
    assert_eq!(app.do_mint(&who, &U256::from_u64(0)), Ok(()));
    assert_eq!(app.balance(&who), U256::from_u64(0));
    assert_eq!(app.issuance_value(), U256::from_u64(0));
    assert_eq!(app.notifications().len(), 0);
}

#[test]
fn test_burn_zero_is_noop() {
    let mut app = NativeApp::new();
    let who = account(1);
    app.do_mint(&who, &U256::from_u64(10)).unwrap();
    assert_eq!(app.burn(&who, &U256::from_u64(0)), Ok(()));
    assert_eq!(app.balance(&who), U256::from_u64(10));
    assert_eq!(app.issuance_value(), U256::from_u64(10));
    assert_eq!(app.notifications().len(), 1); // only the mint
}

#[test]
fn test_mint_overflow_boundary() {
    let mut app = NativeApp::new();
    let who = account(1);
    // minting exactly up to the maximum succeeds
    assert_eq!(app.do_mint(&who, &U256::max_value()), Ok(()));
    assert_eq!(app.balance(&who), U256::max_value());
    // one more unit fails, and neither balance nor issuance changes
    assert_eq!(
        app.do_mint(&who, &U256::from_u64(1)),
        Err(BridgeError::TotalMintingOverflow),
    );
    assert_eq!(app.balance(&who), U256::max_value());
    assert_eq!(app.issuance_value(), U256::max_value());
    assert_eq!(app.notifications().len(), 1);
}

#[test]
fn test_burn_underflow_boundary() {
    let mut app = NativeApp::new();
    let alice = account(1);
    let bob = account(2);
    app.do_mint(&alice, &U256::from_u64(100)).unwrap();
    app.do_mint(&bob, &U256::from_u64(50)).unwrap();
    // more than bob's balance but within total issuance
    assert_eq!(
        app.burn(&bob, &U256::from_u64(120)),
        Err(BridgeError::FreeBurningUnderflow),
    );
    assert_eq!(app.balance(&bob), U256::from_u64(50));
    assert_eq!(app.issuance_value(), U256::from_u64(150));
    // more than the total issuance
    assert_eq!(
        app.burn(&bob, &U256::from_u64(200)),
        Err(BridgeError::TotalBurningUnderflow),
    );
    // burning exactly the balance succeeds and leaves it at zero
    assert_eq!(app.burn(&bob, &U256::from_u64(50)), Ok(()));
    assert_eq!(app.balance(&bob), U256::from_u64(0));
    assert_eq!(app.issuance_value(), U256::from_u64(100));
    match app.notifications().last().unwrap() {
        Notification::Burned { amount, .. } => assert_eq!(*amount, U256::from_u64(50)),
        _ => panic!("expected a Burned notification"),
    }
}

#[test]
fn test_issuance_tracks_sum_of_balances() {
    let mut app = NativeApp::new();
    let a = account(1);
    let b = account(2);
    let c = account(3);
    app.do_mint(&a, &U256::from_u64(5)).unwrap();
    app.do_mint(&b, &U256::from_u64(7)).unwrap();
    app.do_mint(&c, &U256::from_u64(11)).unwrap();
    app.burn(&b, &U256::from_u64(3)).unwrap();
    let sum = app
        .balance(&a)
        .checked_add(&app.balance(&b))
        .unwrap()
        .checked_add(&app.balance(&c))
        .unwrap();
    assert_eq!(app.issuance_value(), sum);
    assert_eq!(app.issuance_value(), U256::from_u64(20));
}

#[test]
fn test_token_mint_per_token_issuance() {
    let mut app = TokenApp::new();
    let who = account(9);
    let tok_x = vec![0xaa; 20];
    let tok_y = vec![0xbb; 20];
    assert_eq!(app.do_mint(&tok_x, &who, &U256::from_u64(50)), Ok(()));
    assert_eq!(app.do_mint(&tok_y, &who, &U256::from_u64(8)), Ok(()));
    assert_eq!(app.balance(&tok_x, &who), U256::from_u64(50));
    assert_eq!(app.balance(&tok_y, &who), U256::from_u64(8));
    assert_eq!(app.issuance_value(&tok_x), U256::from_u64(50));
    assert_eq!(app.issuance_value(&tok_y), U256::from_u64(8));
    assert_eq!(app.notifications().len(), 2);
    // zero-amount token mint is a silent no-op
    assert_eq!(app.do_mint(&tok_x, &who, &U256::from_u64(0)), Ok(()));
    assert_eq!(app.notifications().len(), 2);
    // overflow boundary on one token leaves the other untouched
    assert_eq!(
        app.do_mint(&tok_x, &who, &U256::max_value()),
        Err(BridgeError::TotalMintingOverflow),
    );
    assert_eq!(app.balance(&tok_x, &who), U256::from_u64(50));
    assert_eq!(app.balance(&tok_y, &who), U256::from_u64(8));
}
