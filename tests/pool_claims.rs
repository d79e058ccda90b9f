use candy_machine::allowlist::{hash_leaf, hash_parent};
use candy_machine::engine::{
    AllowlistProof, ClaimError, Pool, PoolConfig, PoolError, PoolState, RevealMode,
};
use candy_machine::escrow::EscrowError;
use candy_machine::record_store::{ItemRecord, RecordError};

const AUTHORITY: [u8; 32] = [0xAA; 32];

fn config(capacity: u32) -> PoolConfig {
    PoolConfig {
        capacity,
        price: 100,
        max_name_len: 16,
        max_uri_len: 32,
        window: None,
        allowlist_root: None,
        allowlist_leaves: 0,
        reveal_mode: RevealMode::Sequential,
        hidden: false,
        escrow: false,
        freeze_duration: 1000,
        authority: AUTHORITY,
    }
}

fn records(n: u32) -> Vec<ItemRecord> {
    (0..n)
        .map(|i| ItemRecord {
            name: format!("Item {}", i).into_bytes(),
            uri: format!("https://x/{}", i).into_bytes(),
        })
        .collect()
}

fn active_pool(cfg: PoolConfig) -> Pool {
    let mut p = Pool::new(cfg);
    assert_eq!(p.append_records(0, &records(cfg.capacity)), Ok(()));
    assert_eq!(p.activate(), Ok(()));
    p
}

#[test]
fn three_claims_then_sold_out() {
    let mut p = active_pool(config(3));
    let caller = [1u8; 32];
    let mut slots = Vec::new();
    for (k, e) in [5u64, 8, 13].iter().enumerate() {
        let r = p.claim(&caller, &None, 100, 0, *e).unwrap();
        assert_eq!(r.order, k as u32);
        let rec = r.record.unwrap();
        assert_eq!(rec.name, format!("Item {}", r.slot).into_bytes());
        assert!(!slots.contains(&r.slot));
        slots.push(r.slot);
        assert_eq!(p.remaining_len() + p.redeemed() as usize, 3);
    }
    assert_eq!(p.state(), PoolState::SoldOut);
    assert_eq!(p.claim(&caller, &None, 100, 0, 1).unwrap_err(), ClaimError::SoldOut);
    assert_eq!(p.redeemed(), 3);
}

#[test]
fn claim_picks_entropy_mod_remaining() {
    let mut p = active_pool(config(4));
    // remaining = [0, 1, 2, 3]; 6 mod 4 = 2
    assert_eq!(p.claim(&[1u8; 32], &None, 100, 0, 6).unwrap().slot, 2);
    // remaining = [0, 1, 3]; 3 mod 3 = 0
    assert_eq!(p.claim(&[1u8; 32], &None, 100, 0, 3).unwrap().slot, 0);
    assert!(!p.is_remaining(2));
    assert!(p.is_remaining(3));
}

#[test]
fn allowlist_claim_replay_and_sold_out() {
    let a = [0x0Au8; 32];
    let b = [0x0Bu8; 32];
    let la = hash_leaf(&a, Some(1));
    let lb = hash_leaf(&b, Some(1));
    let root = hash_parent(&la, 0, &lb);
    let mut cfg = config(1);
    cfg.allowlist_root = Some(root);
    cfg.allowlist_leaves = 2;
    let mut p = active_pool(cfg);
    let proof_a = Some(AllowlistProof { leaf_index: 0, max_count: Some(1), siblings: vec![lb] });
    let proof_b = Some(AllowlistProof { leaf_index: 1, max_count: Some(1), siblings: vec![la] });
    assert_eq!(p.claim(&a, &None, 100, 0, 0).unwrap_err(), ClaimError::MissingProof);
    assert_eq!(p.claim(&b, &proof_a, 100, 0, 0).unwrap_err(), ClaimError::InvalidProof);
    assert!(p.claim(&a, &proof_a, 100, 0, 0).is_ok());
    assert_eq!(p.claim(&a, &proof_a, 100, 0, 0).unwrap_err(), ClaimError::Exhausted);
    assert_eq!(p.claim(&b, &proof_b, 100, 0, 0).unwrap_err(), ClaimError::SoldOut);
}

#[test]
fn escrow_claim_and_authority_thaw() {
    let mut cfg = config(2);
    cfg.escrow = true;
    let mut p = active_pool(cfg);
    let caller = [7u8; 32];
    let r = p.claim(&caller, &None, 150, 10, 0).unwrap();
    assert!(r.escrowed);
    assert_eq!(r.amount, 100);
    let rec = p.escrow_record(&caller).unwrap();
    assert_eq!(rec.asset, r.slot);
    assert_eq!(rec.locked_amount, 100);
    assert_eq!(rec.locked_at, 10);
    assert!(p.is_transfer_restricted(&caller));
    assert_eq!(p.thaw(&caller, &caller, 20), Err(EscrowError::NotYetEligible));
    assert!(p.is_transfer_restricted(&caller));
    assert_eq!(p.thaw(&caller, &AUTHORITY, 20), Ok(100));
    assert!(!p.is_transfer_restricted(&caller));
    assert_eq!(p.thaw(&caller, &AUTHORITY, 21), Err(EscrowError::AlreadyThawed));
    assert_eq!(p.claim(&[8u8; 32], &None, 100, 10, 0).map(|r| r.slot).is_ok(), true);
}

#[test]
fn escrow_thaws_on_sell_out_or_timeout() {
    let mut cfg = config(2);
    cfg.escrow = true;
    let mut p = active_pool(cfg);
    let a = [1u8; 32];
    let b = [2u8; 32];
    p.claim(&a, &None, 100, 0, 0).unwrap();
    assert_eq!(p.claim(&a, &None, 100, 0, 0).unwrap_err(), ClaimError::DuplicateEscrow);
    assert_eq!(p.thaw(&a, &a, 999), Err(EscrowError::NotYetEligible));
    assert_eq!(p.thaw(&a, &a, 1000), Ok(100));
    p.claim(&b, &None, 100, 5, 0).unwrap();
    assert_eq!(p.thaw(&b, &b, 6), Ok(100));
}

#[test]
fn claim_preconditions_change_nothing() {
    let mut cfg = config(2);
    cfg.window = Some((10, 20));
    let mut p = Pool::new(cfg);
    assert_eq!(p.claim(&[1u8; 32], &None, 100, 15, 0).unwrap_err(), ClaimError::NotActive);
    assert_eq!(p.activate(), Err(PoolError::NotPopulated));
    assert_eq!(p.append_records(0, &records(2)), Ok(()));
    assert_eq!(p.activate(), Ok(()));
    assert_eq!(p.append_records(0, &records(1)), Err(PoolError::NotConfigurable));
    assert_eq!(p.claim(&[1u8; 32], &None, 100, 9, 0).unwrap_err(), ClaimError::OutsideWindow);
    assert_eq!(p.claim(&[1u8; 32], &None, 100, 21, 0).unwrap_err(), ClaimError::OutsideWindow);
    assert_eq!(p.claim(&[1u8; 32], &None, 99, 20, 0).unwrap_err(), ClaimError::InsufficientPayment);
    assert_eq!(p.redeemed(), 0);
    assert_eq!(p.remaining_len(), 2);
    assert!(p.claim(&[1u8; 32], &None, 100, 10, 0).is_ok());
}

#[test]
fn hidden_and_randomized_pools_bind_content_later() {
    let mut cfg = config(2);
    cfg.hidden = true;
    let mut p = Pool::new(cfg);
    assert_eq!(p.activate(), Ok(()));
    let r = p.claim(&[1u8; 32], &None, 100, 0, 1).unwrap();
    assert_eq!(r.slot, 1);
    assert!(r.record.is_none());

    let mut cfg = config(2);
    cfg.reveal_mode = RevealMode::Randomized;
    let mut p = active_pool(cfg);
    let r = p.claim(&[1u8; 32], &None, 100, 0, 0).unwrap();
    assert!(r.record.is_none());
    assert_eq!(r.order, 0);
    let mapping = vec![1u32, 0];
    assert_eq!(p.revealed_record(r.order, &mapping).unwrap().name, b"Item 1".to_vec());
    assert_eq!(p.revealed_record(2, &mapping).unwrap_err(), RecordError::OutOfBounds);
    assert_eq!(p.record(r.slot).unwrap().uri, format!("https://x/{}", r.slot).into_bytes());
}

#[test]
fn empty_pool_is_sold_out_on_activation() {
    let mut p = Pool::new(config(0));
    assert_eq!(p.activate(), Ok(()));
    assert_eq!(p.state(), PoolState::SoldOut);
    assert_eq!(p.claim(&[1u8; 32], &None, 100, 0, 0).unwrap_err(), ClaimError::SoldOut);
    assert_eq!(p.record(0).unwrap_err(), RecordError::OutOfBounds);
}
