//! Random extraction of unclaimed slots without replacement.
use vstd::prelude::*;

verus! {

/// Why an allocation did not take place.
#[derive(Debug, Clone, Copy, PartialEq, Eq, Structural)]
pub enum AllocError {
    SoldOut,
}

/// Position drawn from `k` remaining slots with the given entropy.
pub open spec fn pick_position(k: nat, entropy: u64) -> int {
    entropy as int % k as int
}

/// The remaining sequence after the slot at position `j` is taken: the last
/// entry moves into the hole and the sequence shrinks by one.
pub open spec fn take_at(rem: Seq<u32>, j: int) -> Seq<u32> {
    rem.update(j, rem.last()).drop_last()
}

/// The slots handed out, in order, by successive allocations with the given
/// entropies, starting from `rem`.
pub open spec fn allocation_run(rem: Seq<u32>, entropies: Seq<u64>) -> Seq<u32>
    decreases entropies.len(),
{
    if entropies.len() == 0 || rem.len() == 0 {
        Seq::empty()
    } else {
        let j = pick_position(rem.len(), entropies[0]);
        seq![rem[j]] + allocation_run(take_at(rem, j), entropies.drop_first())
    }
}

/// Taking one entry out of a duplicate-free sequence leaves exactly the other
/// entries, still without duplicates.
pub proof fn lemma_take_at(rem: Seq<u32>, j: int)
    requires
        rem.no_duplicates(),
        0 <= j < rem.len(),
    ensures
        take_at(rem, j).no_duplicates(),
        take_at(rem, j).len() == rem.len() - 1,
        !take_at(rem, j).contains(rem[j]),
        forall|x: u32| #[trigger] take_at(rem, j).contains(x) <==> (rem.contains(x) && x != rem[j]),
{
    let t = take_at(rem, j);
    let n = rem.len();
    assert forall|i: int| 0 <= i < t.len() implies #[trigger] t[i] == (if i == j {
        rem[n - 1]
    } else {
        rem[i]
    }) by {}
    assert forall|a: int, b: int| 0 <= a < t.len() && 0 <= b < t.len() && a != b implies t[a]
        != t[b] by {}
    assert forall|x: u32| #[trigger] t.contains(x) implies (rem.contains(x) && x != rem[j]) by {
        let i = choose|i: int| 0 <= i < t.len() && t[i] == x;
        if i == j {
            assert(rem[n - 1] == x);
        } else {
            assert(rem[i] == x);
        }
    }
    assert forall|x: u32| rem.contains(x) && x != rem[j] implies #[trigger] t.contains(x) by {
        let i = choose|i: int| 0 <= i < n && rem[i] == x;
        if i == n - 1 {
            assert(t[j] == x);
        } else {
            assert(t[i] == x);
        }
    }
}

/// No slot is handed out twice: every run of allocations from a
/// duplicate-free remaining set yields distinct slots, each drawn from that
/// set.
pub proof fn lemma_allocation_run_distinct(rem: Seq<u32>, entropies: Seq<u64>)
    requires
        rem.no_duplicates(),
    ensures
        allocation_run(rem, entropies).no_duplicates(),
        forall|x: u32| #[trigger] allocation_run(rem, entropies).contains(x) ==> rem.contains(x),
    decreases entropies.len(),
{
    if entropies.len() == 0 || rem.len() == 0 {
    } else {
        let j = pick_position(rem.len(), entropies[0]);
        let t = take_at(rem, j);
        lemma_take_at(rem, j);
        lemma_allocation_run_distinct(t, entropies.drop_first());
        let tail = allocation_run(t, entropies.drop_first());
        let run = allocation_run(rem, entropies);
        assert(run == seq![rem[j]] + tail);
        assert forall|a: int, b: int| 0 <= a < run.len() && 0 <= b < run.len() && a != b implies run[a]
            != run[b] by {
            if a == 0 {
                assert(tail.contains(run[b]));
            } else if b == 0 {
                assert(tail.contains(run[a]));
            } else {
                assert(run[a] == tail[a - 1] && run[b] == tail[b - 1]);
            }
        }
        assert forall|x: u32| #[trigger] run.contains(x) implies rem.contains(x) by {
            let i = choose|i: int| 0 <= i < run.len() && run[i] == x;
            if i > 0 {
                assert(tail.contains(tail[i - 1]));
            }
        }
    }
}

/// A run of allocations is the first allocation followed by the run from
/// what it leaves: so the slots that successive `allocate` calls return are
/// exactly `allocation_run` of their entropies.
pub proof fn lemma_allocation_run_step(rem: Seq<u32>, entropy: u64, rest: Seq<u64>)
    requires
        rem.len() > 0,
    ensures
        allocation_run(rem, seq![entropy] + rest) == seq![
            rem[pick_position(rem.len(), entropy)],
        ] + allocation_run(take_at(rem, pick_position(rem.len(), entropy)), rest),
{
    let es = seq![entropy] + rest;
    assert(es.drop_first() =~= rest);
    assert(es[0] == entropy);
}

/// Every entropy below `k * m` picks position `e mod k` and is
/// `(e / k) * k + e mod k` with `e / k < m`; and each of the `m` values
/// `q * k + j` picks position `j`. So with entropy uniform over `0..k * m`
/// each of the `k` remaining slots is picked by exactly `m` values.
pub proof fn lemma_pick_uniform(k: nat, m: nat, e: nat, q: nat, j: nat)
    requires
        k > 0,
        e < k * m,
        q < m,
        j < k,
    ensures
        0 <= (e % k) < k,
        e / k < m,
        e == (e / k) * k + e % k,
        q * k + j < k * m,
        (q * k + j) % k == j,
        e <= u64::MAX ==> pick_position(k, e as u64) == e % k,
        q * k + j <= u64::MAX ==> pick_position(k, (q * k + j) as u64) == j,
{
    assert(e == (e / k) * k + e % k) by (nonlinear_arith)
        requires
            k > 0,
    ;
    assert(e / k < m) by (nonlinear_arith)
        requires
            k > 0,
            e < k * m,
            e == (e / k) * k + e % k,
            e % k >= 0,
    ;
    assert(q * k + j < k * m) by (nonlinear_arith)
        requires
            q < m,
            j < k,
    ;
    vstd::arithmetic::div_mod::lemma_mod_multiples_vanish(q as int, j as int, k as int);
    vstd::arithmetic::div_mod::lemma_small_mod(j, k);
    assert(k * q == q * k) by (nonlinear_arith);
}

/// The unclaimed slots of a pool, drawn from uniformly by swap-with-last
/// removal: constant time and no extra memory per allocation.
pub struct IndexAllocator {
    remaining: Vec<u32>,
    capacity: u32,
}

impl IndexAllocator {
    pub closed spec fn remaining_view(&self) -> Seq<u32> {
        self.remaining@
    }

    pub closed spec fn capacity_view(&self) -> nat {
        self.capacity as nat
    }

    /// Remaining slots are distinct and each below the capacity.
    pub closed spec fn wf(&self) -> bool {
        &&& self.remaining@.no_duplicates()
        &&& self.remaining@.len() <= self.capacity
        &&& forall|i: int|
            0 <= i < self.remaining@.len() ==> #[trigger] self.remaining@[i] < self.capacity
    }

    /// What well-formedness says of the remaining slots.
    pub proof fn lemma_wf(&self)
        requires
            self.wf(),
        ensures
            self.remaining_view().no_duplicates(),
            self.remaining_view().len() <= self.capacity_view(),
            forall|i: int|
                0 <= i < self.remaining_view().len() ==> #[trigger] self.remaining_view()[i]
                    < self.capacity_view(),
    {
    }

    /// An allocator over the slots `0..capacity`, none of them claimed.
    pub fn new(capacity: u32) -> (r: Self)
        ensures
            r.wf(),
            r.capacity_view() == capacity,
            r.remaining_view() == Seq::new(capacity as nat, |i: int| i as u32),
    {
        let mut remaining: Vec<u32> = Vec::with_capacity(capacity as usize);
        let mut i: u32 = 0;
        while i < capacity
            invariant
                i <= capacity,
                remaining@ == Seq::new(i as nat, |k: int| k as u32),
            decreases capacity - i,
        {
            remaining.push(i);
            i = i + 1;
            assert(remaining@ =~= Seq::new(i as nat, |k: int| k as u32));
        }
        let r = IndexAllocator { remaining, capacity };
        assert forall|a: int, b: int|
            0 <= a < r.remaining@.len() && 0 <= b < r.remaining@.len() && a != b implies r.remaining@[a]
            != r.remaining@[b] by {}
        r
    }

    pub fn capacity(&self) -> (r: u32)
        ensures
            r == self.capacity_view(),
    {
        self.capacity
    }

    /// How many slots are still unclaimed.
    pub fn remaining_len(&self) -> (r: usize)
        ensures
            r == self.remaining_view().len(),
    {
        self.remaining.len()
    }

    /// Whether `slot` is still unclaimed.
    pub fn is_remaining(&self, slot: u32) -> (r: bool)
        ensures
            r == self.remaining_view().contains(slot),
    {
        let mut i: usize = 0;
        while i < self.remaining.len()
            invariant
                i <= self.remaining@.len(),
                forall|k: int| 0 <= k < i ==> self.remaining@[k] != slot,
            decreases self.remaining@.len() - i,
        {
            if self.remaining[i] == slot {
                return true;
            }
            i = i + 1;
        }
        false
    }

    /// The slot that `allocate` would hand out for this entropy, without
    /// taking it.
    pub fn peek(&self, entropy: u64) -> (r: Option<u32>)
        ensures
            self.remaining_view().len() == 0 ==> r is None,
            self.remaining_view().len() > 0 ==> r == Some(
                self.remaining_view()[pick_position(self.remaining_view().len(), entropy)],
            ),
    {
        let k = self.remaining.len();
        if k == 0 {
            None
        } else {
            let j = (entropy % (k as u64)) as usize;
            Some(self.remaining[j])
        }
    }

    /// Takes the slot at position `entropy mod k` of the `k` remaining ones,
    /// moving the last remaining slot into its place.
    pub fn allocate(&mut self, entropy: u64) -> (r: Result<u32, AllocError>)
        requires
            old(self).wf(),
        ensures
            final(self).wf(),
            final(self).capacity_view() == old(self).capacity_view(),
            old(self).remaining_view().len() == 0 ==> r == Err::<u32, AllocError>(
                AllocError::SoldOut,
            ) && *final(self) == *old(self),
            old(self).remaining_view().len() > 0 ==> {
                let j = pick_position(old(self).remaining_view().len(), entropy);
                &&& r == Ok::<u32, AllocError>(old(self).remaining_view()[j])
                &&& final(self).remaining_view() == take_at(old(self).remaining_view(), j)
            },
            r matches Ok(slot) ==> !final(self).remaining_view().contains(slot)
                && old(self).remaining_view().contains(slot),
    {
        let k = self.remaining.len();
        if k == 0 {
            return Err(AllocError::SoldOut);
        }
        let j = (entropy % (k as u64)) as usize;
        proof {
            lemma_take_at(self.remaining@, j as int);
        }
        let slot = self.remaining.swap_remove(j);
        Ok(slot)
    }
}

} // verus!
