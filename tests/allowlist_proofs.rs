use candy_machine::allowlist::{
    compute_root, hash_leaf, hash_parent, verify, AllowlistError, ClaimCounts,
};
use sha3::{Digest, Keccak256};

fn id(b: u8) -> [u8; 32] {
    [b; 32]
}

/// Four leaves; returns the root and the proof for each leaf.
fn tree(leaves: &[[u8; 32]; 4]) -> ([u8; 32], Vec<Vec<[u8; 32]>>) {
    let l01 = hash_parent(&leaves[0], 0, &leaves[1]);
    let l23 = hash_parent(&leaves[2], 2, &leaves[3]);
    let root = hash_parent(&l01, 0, &l23);
    let proofs = vec![
        vec![leaves[1], l23],
        vec![leaves[0], l23],
        vec![leaves[3], l01],
        vec![leaves[2], l01],
    ];
    (root, proofs)
}

#[test]
fn leaf_hash_is_keccak_of_identity_and_count() {
    let mut bytes = id(7).to_vec();
    bytes.push(1);
    bytes.extend_from_slice(&3u32.to_le_bytes());
    let expected: [u8; 32] = Keccak256::digest(&bytes).into();
    assert_eq!(hash_leaf(&id(7), Some(3)), expected);
    let mut bytes = id(7).to_vec();
    bytes.push(0);
    let expected: [u8; 32] = Keccak256::digest(&bytes).into();
    assert_eq!(hash_leaf(&id(7), None), expected);
    assert_ne!(hash_leaf(&id(7), None), hash_leaf(&id(7), Some(3)));
}

#[test]
fn built_proofs_verify_and_tampering_fails() {
    let counts = [Some(1), None, Some(2), Some(1)];
    let mut leaves = [[0u8; 32]; 4];
    for i in 0..4 {
        leaves[i] = hash_leaf(&id(i as u8 + 1), counts[i]);
    }
    let (root, proofs) = tree(&leaves);
    for i in 0..4 {
        let ident = id(i as u8 + 1);
        assert_eq!(verify(&root, &ident, counts[i], i as u32, &proofs[i]), Ok(()));
        assert_eq!(compute_root(&ident, counts[i], i as u32, &proofs[i]), root);
        for s in 0..proofs[i].len() {
            for bit in [0usize, 31] {
                let mut bad = proofs[i].clone();
                bad[s][bit] ^= 1;
                assert_eq!(
                    verify(&root, &ident, counts[i], i as u32, &bad),
                    Err(AllowlistError::InvalidProof)
                );
            }
        }
        assert_eq!(
            verify(&root, &id(9), counts[i], i as u32, &proofs[i]),
            Err(AllowlistError::InvalidProof)
        );
        assert_eq!(
            verify(&root, &ident, Some(5), i as u32, &proofs[i]),
            Err(AllowlistError::InvalidProof)
        );
        assert_eq!(
            verify(&root, &ident, counts[i], (i as u32) ^ 1, &proofs[i]),
            Err(AllowlistError::InvalidProof)
        );
    }
}

#[test]
fn single_use_leaf_is_exhausted_on_second_claim() {
    let mut c = ClaimCounts::new(2);
    assert_eq!(c.check_and_consume(0, 1, None), Ok(()));
    assert_eq!(c.check_and_consume(0, 1, None), Err(AllowlistError::Exhausted));
    assert_eq!(c.claimed(0), Some(1));
    assert_eq!(c.check_and_consume(2, 1, None), Err(AllowlistError::UnknownLeaf));
}

#[test]
fn leaf_with_max_count_allows_that_many() {
    let mut c = ClaimCounts::new(1);
    assert_eq!(c.check_and_consume(0, 2, Some(3)), Ok(()));
    assert_eq!(c.check(0, 2, Some(3)), Err(AllowlistError::Exhausted));
    assert_eq!(c.check_and_consume(0, 1, Some(3)), Ok(()));
    assert_eq!(c.check_and_consume(0, 1, Some(3)), Err(AllowlistError::Exhausted));
    assert_eq!(c.claimed(0), Some(3));
}
