use candy_machine::allocator::{AllocError, IndexAllocator};

#[test]
fn allocate_takes_entropy_mod_remaining_and_swaps_last() {
    let mut a = IndexAllocator::new(5);
    // remaining = [0, 1, 2, 3, 4]; 7 mod 5 = 2
    assert_eq!(a.allocate(7), Ok(2));
    // remaining = [0, 1, 4, 3]; 2 mod 4 = 2 -> the former last slot
    assert_eq!(a.allocate(2), Ok(4));
    assert_eq!(a.remaining_len(), 3);
    assert!(!a.is_remaining(2));
    assert!(!a.is_remaining(4));
    assert!(a.is_remaining(3));
}

#[test]
fn allocate_never_repeats_a_slot() {
    let capacity: u32 = 50;
    let mut a = IndexAllocator::new(capacity);
    let mut seen = vec![false; capacity as usize];
    let mut x: u64 = 0x9e37_79b9_7f4a_7c15;
    for _ in 0..capacity {
        x = x.wrapping_mul(6364136223846793005).wrapping_add(1442695040888963407);
        let slot = a.allocate(x).unwrap();
        assert!(slot < capacity);
        assert!(!seen[slot as usize]);
        seen[slot as usize] = true;
    }
    assert!(seen.iter().all(|s| *s));
    assert_eq!(a.allocate(x), Err(AllocError::SoldOut));
}

#[test]
fn allocate_on_empty_pool_is_sold_out() {
    let mut a = IndexAllocator::new(0);
    assert_eq!(a.allocate(3), Err(AllocError::SoldOut));
    assert_eq!(a.peek(3), None);
}

#[test]
fn first_pick_is_uniform_over_fixed_seeds() {
    let capacity: u32 = 4;
    let trials: u64 = 4000;
    let mut counts = [0u64; 4];
    let mut x: u64 = 12345;
    for _ in 0..trials {
        x = x.wrapping_mul(6364136223846793005).wrapping_add(1442695040888963407);
        let mut a = IndexAllocator::new(capacity);
        let slot = a.allocate(x >> 11).unwrap();
        counts[slot as usize] += 1;
    }
    for c in counts.iter() {
        let expected = trials / capacity as u64;
        assert!(*c > expected * 8 / 10 && *c < expected * 12 / 10, "counts {:?}", counts);
    }
}

#[test]
fn each_slot_is_picked_by_the_same_number_of_entropies() {
    // Entropy over 0..k*m picks each of the k remaining slots exactly m times.
    let k: u64 = 5;
    let m: u64 = 7;
    let mut counts = [0u64; 5];
    for e in 0..k * m {
        let a = IndexAllocator::new(k as u32);
        counts[a.peek(e).unwrap() as usize] += 1;
    }
    assert_eq!(counts, [m; 5]);
}
