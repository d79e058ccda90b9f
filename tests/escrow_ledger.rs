use candy_machine::escrow::{EscrowError, EscrowLedger, EscrowState};

#[test]
fn thaw_needs_one_trigger_and_happens_once() {
    let r = [1u8; 32];
    let asset: u32 = 2;
    let mut l = EscrowLedger::new(100);
    assert_eq!(l.lock(&r, 50, asset, 1000), Ok(()));
    assert_eq!(l.lock(&r, 60, asset, 1001), Err(EscrowError::DuplicateEscrow));
    assert!(l.is_transfer_restricted(&r));
    assert_eq!(l.thaw(&r, false, false, 1099), Err(EscrowError::NotYetEligible));
    assert!(l.is_transfer_restricted(&r));
    assert_eq!(l.thaw(&r, false, false, 1100), Ok(50));
    assert!(!l.is_transfer_restricted(&r));
    assert_eq!(l.get(&r).unwrap().state, EscrowState::Thawed);
    assert_eq!(l.get(&r).unwrap().asset, 2);
    assert_eq!(l.thaw(&r, true, true, 5000), Err(EscrowError::AlreadyThawed));
}

#[test]
fn thaw_by_authority_or_sell_out() {
    let a = [1u8; 32];
    let b = [3u8; 32];
    let mut l = EscrowLedger::new(1_000_000);
    assert_eq!(l.lock(&a, 10, 0, 0), Ok(()));
    assert_eq!(l.lock(&b, 20, 1, 0), Ok(()));
    assert_eq!(l.thaw(&a, true, false, 1), Ok(10));
    assert_eq!(l.thaw(&b, false, true, 1), Ok(20));
    assert_eq!(l.thaw(&[9u8; 32], true, true, 1), Err(EscrowError::NoEscrow));
}

#[test]
fn thaw_timeout_handles_negative_times() {
    let a = [1u8; 32];
    let mut l = EscrowLedger::new(10);
    assert_eq!(l.lock(&a, 1, 0, i64::MIN), Ok(()));
    assert_eq!(l.thaw(&a, false, false, i64::MIN + 9), Err(EscrowError::NotYetEligible));
    assert_eq!(l.thaw(&a, false, false, i64::MAX), Ok(1));
}
