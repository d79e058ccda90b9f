//! The distribution pool: configuration, activation and the claim protocol.
use vstd::prelude::*;
use crate::allocator::{pick_position, take_at, IndexAllocator};
use crate::allowlist::{claim_limit, proof_root, verify, AllowlistError, ClaimCounts};
use crate::escrow::{has_record, same_address, EscrowError, EscrowLedger, EscrowRecord, EscrowState};
use crate::record_store::{batch_conflicts, batch_fits, with_batch, ItemRecord, RecordError, RecordStore};

verus! {

/// Whether the content a claimant receives is the allocated slot's record,
/// or is bound later from the order of allocation.
#[derive(Debug, Clone, Copy, PartialEq, Eq, Structural)]
pub enum RevealMode {
    Sequential,
    Randomized,
}

/// Where a pool stands in its life.
#[derive(Debug, Clone, Copy, PartialEq, Eq, Structural)]
pub enum PoolState {
    Configured,
    Active,
    SoldOut,
}

/// Why a claim was refused.
#[derive(Debug, Clone, Copy, PartialEq, Eq, Structural)]
pub enum ClaimError {
    NotActive,
    OutsideWindow,
    MissingProof,
    InvalidProof,
    UnknownLeaf,
    Exhausted,
    SoldOut,
    InconsistentState,
    InsufficientPayment,
    DuplicateEscrow,
}

/// Why a setup operation was refused.
#[derive(Debug, Clone, Copy, PartialEq, Eq, Structural)]
pub enum PoolError {
    NotConfigurable,
    NotPopulated,
    Record(RecordError),
}

/// The terms a pool is created with; they do not change afterwards.
#[derive(Debug, Clone, Copy)]
pub struct PoolConfig {
    pub capacity: u32,
    pub price: u64,
    pub max_name_len: usize,
    pub max_uri_len: usize,
    /// Claims are accepted from the first time to the second, both included.
    pub window: Option<(i64, i64)>,
    pub allowlist_root: Option<[u8; 32]>,
    pub allowlist_leaves: u32,
    pub reveal_mode: RevealMode,
    /// Content is published later; no records are written before activation.
    pub hidden: bool,
    /// Proceeds are held in escrow until thawed.
    pub escrow: bool,
    pub freeze_duration: u64,
    pub authority: [u8; 32],
}

/// A caller's evidence of allowlist membership.
#[derive(Debug, Clone)]
pub struct AllowlistProof {
    pub leaf_index: u32,
    pub max_count: Option<u32>,
    pub siblings: Vec<[u8; 32]>,
}

/// What a successful claim hands back.
#[derive(Debug, Clone)]
pub struct ClaimReceipt {
    /// The slot taken from the pool.
    pub slot: u32,
    /// How many claims came before this one.
    pub order: u32,
    /// The slot's record, where content is revealed in slot order.
    pub record: Option<ItemRecord>,
    /// The amount captured from the payment.
    pub amount: u64,
    /// Whether that amount is held in escrow.
    pub escrowed: bool,
}

/// Whether `now` falls in the activation window.
pub open spec fn in_window(window: Option<(i64, i64)>, now: i64) -> bool {
    match window {
        None => true,
        Some((start, end)) => start <= now && now <= end,
    }
}

/// One pool of items and everything that tracks its claims.
pub struct Pool {
    config: PoolConfig,
    redeemed: u32,
    state: PoolState,
    store: RecordStore,
    allocator: IndexAllocator,
    claims: ClaimCounts,
    escrow: EscrowLedger,
}

impl Pool {
    pub closed spec fn config_view(&self) -> PoolConfig {
        self.config
    }

    pub closed spec fn redeemed_view(&self) -> nat {
        self.redeemed as nat
    }

    pub closed spec fn state_view(&self) -> PoolState {
        self.state
    }

    pub closed spec fn records_view(&self) -> Seq<Option<(Seq<u8>, Seq<u8>)>> {
        self.store.view()
    }

    pub closed spec fn remaining_view(&self) -> Seq<u32> {
        self.allocator.remaining_view()
    }

    pub closed spec fn claims_view(&self) -> Seq<u32> {
        self.claims.view()
    }

    pub closed spec fn escrow_view(&self) -> Seq<EscrowRecord> {
        self.escrow.view()
    }

    /// The components agree with the terms and with each other; every
    /// unclaimed slot is remaining and every claim is counted.
    pub closed spec fn wf(&self) -> bool {
        &&& self.allocator.wf()
        &&& self.store.wf()
        &&& self.escrow.wf()
        &&& self.allocator.capacity_view() == self.config.capacity
        &&& self.store.view().len() == self.config.capacity
        &&& self.store.max_name() == self.config.max_name_len
        &&& self.store.max_uri() == self.config.max_uri_len
        &&& self.claims.view().len() == self.config.allowlist_leaves
        &&& self.escrow.freeze_duration_view() == self.config.freeze_duration
        &&& self.allocator.remaining_view().len() + self.redeemed == self.config.capacity
        &&& self.state == PoolState::Configured ==> self.redeemed == 0
        &&& self.state == PoolState::SoldOut <==> (self.state != PoolState::Configured
            && self.allocator.remaining_view().len() == 0)
    }

    /// The claim-protocol rule that the request breaks first, if any.
    pub open spec fn claim_error(
        &self,
        caller: Seq<u8>,
        proof: Option<AllowlistProof>,
        payment: u64,
        now: i64,
        entropy: u64,
    ) -> Option<ClaimError> {
        let config = self.config_view();
        let rem = self.remaining_view();
        if self.state_view() == PoolState::Configured {
            Some(ClaimError::NotActive)
        } else if !in_window(config.window, now) {
            Some(ClaimError::OutsideWindow)
        } else if config.allowlist_root is Some && proof is None {
            Some(ClaimError::MissingProof)
        } else if config.allowlist_root is Some && proof_root(
            caller,
            proof->Some_0.max_count,
            proof->Some_0.leaf_index,
            proof->Some_0.siblings@,
        ) != config.allowlist_root->Some_0@ {
            Some(ClaimError::InvalidProof)
        } else if config.allowlist_root is Some && proof->Some_0.leaf_index
            >= self.claims_view().len() {
            Some(ClaimError::UnknownLeaf)
        } else if config.allowlist_root is Some && self.claims_view()[proof->Some_0.leaf_index as int]
            + 1 > claim_limit(proof->Some_0.max_count) {
            Some(ClaimError::Exhausted)
        } else if rem.len() == 0 {
            Some(ClaimError::SoldOut)
        } else if config.reveal_mode == RevealMode::Sequential && !config.hidden
            && self.records_view()[rem[pick_position(rem.len(), entropy)] as int] is None {
            Some(ClaimError::InconsistentState)
        } else if payment < config.price {
            Some(ClaimError::InsufficientPayment)
        } else if config.escrow && has_record(self.escrow_view(), caller) {
            Some(ClaimError::DuplicateEscrow)
        } else {
            None
        }
    }

    /// In every well-formed state, and so after every claim, the remaining
    /// slots and the finalized claims together make up the capacity.
    pub proof fn lemma_supply_conserved(&self)
        requires
            self.wf(),
        ensures
            self.remaining_view().len() + self.redeemed_view() == self.config_view().capacity,
            self.state_view() == PoolState::SoldOut ==> self.redeemed_view()
                == self.config_view().capacity,
    {
    }

    /// A pool with these terms: every slot empty and unclaimed.
    pub fn new(config: PoolConfig) -> (r: Self)
        ensures
            r.wf(),
            r.config_view() == config,
            r.state_view() == PoolState::Configured,
            r.redeemed_view() == 0,
            r.remaining_view() == Seq::new(config.capacity as nat, |i: int| i as u32),
            r.records_view().len() == config.capacity,
            forall|i: int| 0 <= i < config.capacity ==> (#[trigger] r.records_view()[i]) is None,
            r.claims_view() == Seq::new(config.allowlist_leaves as nat, |i: int| 0u32),
            r.escrow_view() == Seq::<EscrowRecord>::empty(),
    {
        Pool {
            config,
            redeemed: 0,
            state: PoolState::Configured,
            store: RecordStore::new(config.capacity, config.max_name_len, config.max_uri_len),
            allocator: IndexAllocator::new(config.capacity),
            claims: ClaimCounts::new(config.allowlist_leaves),
            escrow: EscrowLedger::new(config.freeze_duration),
        }
    }

    pub fn config(&self) -> (r: PoolConfig)
        ensures
            r == self.config_view(),
    {
        self.config
    }

    pub fn capacity(&self) -> (r: u32)
        ensures
            r == self.config_view().capacity,
    {
        self.config.capacity
    }

    /// Claims finalized so far.
    pub fn redeemed(&self) -> (r: u32)
        ensures
            r == self.redeemed_view(),
    {
        self.redeemed
    }

    pub fn state(&self) -> (r: PoolState)
        ensures
            r == self.state_view(),
    {
        self.state
    }

    /// Slots not yet claimed.
    pub fn remaining_len(&self) -> (r: usize)
        ensures
            r == self.remaining_view().len(),
    {
        self.allocator.remaining_len()
    }

    /// Whether the slot has not been claimed yet.
    pub fn is_remaining(&self, slot: u32) -> (r: bool)
        ensures
            r == self.remaining_view().contains(slot),
    {
        self.allocator.is_remaining(slot)
    }

    /// The record written for a slot.
    pub fn record(&self, index: u32) -> (r: Result<ItemRecord, RecordError>)
        requires
            self.wf(),
        ensures
            index >= self.records_view().len() ==> r == Err::<ItemRecord, RecordError>(
                RecordError::OutOfBounds,
            ),
            index < self.records_view().len() && self.records_view()[index as int] is None ==> r
                == Err::<ItemRecord, RecordError>(RecordError::NotPresent),
            index < self.records_view().len() && self.records_view()[index as int] is Some ==> r is Ok
                && r->Ok_0.name@ == self.records_view()[index as int]->Some_0.0 && r->Ok_0.uri@
                == self.records_view()[index as int]->Some_0.1,
    {
        self.store.get(index)
    }

    /// Whether every slot has a record.
    pub fn is_fully_populated(&self) -> (r: bool)
        requires
            self.wf(),
        ensures
            r == forall|i: int|
                0 <= i < self.records_view().len() ==> (#[trigger] self.records_view()[i]) is Some,
    {
        self.store.is_fully_populated()
    }

    /// Writes a batch of records while the pool is being configured.
    pub fn append_records(&mut self, start_index: u32, records: &Vec<ItemRecord>) -> (r: Result<
        (),
        PoolError,
    >)
        requires
            old(self).wf(),
        ensures
            final(self).wf(),
            final(self).config_view() == old(self).config_view(),
            final(self).state_view() == old(self).state_view(),
            final(self).redeemed_view() == old(self).redeemed_view(),
            final(self).remaining_view() == old(self).remaining_view(),
            final(self).claims_view() == old(self).claims_view(),
            final(self).escrow_view() == old(self).escrow_view(),
            old(self).state_view() != PoolState::Configured ==> r == Err::<(), PoolError>(
                PoolError::NotConfigurable,
            ),
            old(self).state_view() == PoolState::Configured ==> {
                let cap = old(self).records_view().len();
                let fits = batch_fits(
                    records@,
                    old(self).config_view().max_name_len as nat,
                    old(self).config_view().max_uri_len as nat,
                );
                &&& start_index + records@.len() > cap ==> r == Err::<(), PoolError>(
                    PoolError::Record(RecordError::OutOfBounds),
                )
                &&& start_index + records@.len() <= cap && !fits ==> r == Err::<(), PoolError>(
                    PoolError::Record(RecordError::RecordTooLarge),
                )
                &&& start_index + records@.len() <= cap && fits && batch_conflicts(
                    old(self).records_view(),
                    start_index as int,
                    records@,
                ) ==> r == Err::<(), PoolError>(PoolError::Record(RecordError::AlreadyPresent))
                &&& start_index + records@.len() <= cap && fits && !batch_conflicts(
                    old(self).records_view(),
                    start_index as int,
                    records@,
                ) ==> r is Ok
            },
            r is Err ==> final(self).records_view() == old(self).records_view(),
            r is Ok ==> final(self).records_view() == with_batch(
                old(self).records_view(),
                start_index as int,
                records@,
            ),
    {
        if self.state != PoolState::Configured {
            return Err(PoolError::NotConfigurable);
        }
        match self.store.append_batch(start_index, records) {
            Ok(()) => Ok(()),
            Err(e) => Err(PoolError::Record(e)),
        }
    }

    /// Opens the pool for claims once every slot has a record, or at once
    /// where content is hidden. A pool of no items is sold out from the start.
    pub fn activate(&mut self) -> (r: Result<(), PoolError>)
        requires
            old(self).wf(),
        ensures
            final(self).wf(),
            final(self).config_view() == old(self).config_view(),
            final(self).redeemed_view() == old(self).redeemed_view(),
            final(self).remaining_view() == old(self).remaining_view(),
            final(self).records_view() == old(self).records_view(),
            final(self).claims_view() == old(self).claims_view(),
            final(self).escrow_view() == old(self).escrow_view(),
            old(self).state_view() != PoolState::Configured ==> r == Err::<(), PoolError>(
                PoolError::NotConfigurable,
            ),
            old(self).state_view() == PoolState::Configured && !old(self).config_view().hidden
                && !(forall|i: int|
                0 <= i < old(self).records_view().len() ==> (#[trigger] old(
                    self,
                ).records_view()[i]) is Some) ==> r == Err::<(), PoolError>(PoolError::NotPopulated),
            old(self).state_view() == PoolState::Configured && (old(self).config_view().hidden
                || forall|i: int|
                0 <= i < old(self).records_view().len() ==> (#[trigger] old(
                    self,
                ).records_view()[i]) is Some) ==> r is Ok,
            r is Err ==> final(self).state_view() == old(self).state_view(),
            r is Ok ==> old(self).state_view() == PoolState::Configured && (old(
                self,
            ).config_view().hidden || forall|i: int|
                0 <= i < old(self).records_view().len() ==> (#[trigger] old(
                    self,
                ).records_view()[i]) is Some) && final(self).state_view() == (if old(
                self,
            ).config_view().capacity == 0 {
                PoolState::SoldOut
            } else {
                PoolState::Active
            }),
    {
        if self.state != PoolState::Configured {
            return Err(PoolError::NotConfigurable);
        }
        if !self.config.hidden && !self.store.is_fully_populated() {
            return Err(PoolError::NotPopulated);
        }
        if self.config.capacity == 0 {
            self.state = PoolState::SoldOut;
        } else {
            self.state = PoolState::Active;
        }
        Ok(())
    }

    /// Claims one item for `caller`: checks the window, the allowlist proof
    /// and its claim limit, that an item remains, its record, the payment and
    /// the escrow, in that order, and on the first failure changes nothing.
    /// On success takes the slot at position `entropy mod k` of the `k`
    /// remaining ones, records the claim against the proof's leaf, locks the
    /// price in escrow where the pool holds proceeds, and counts the claim.
    pub fn claim(
        &mut self,
        caller: &[u8; 32],
        membership: &Option<AllowlistProof>,
        payment: u64,
        now: i64,
        entropy: u64,
    ) -> (r: Result<ClaimReceipt, ClaimError>)
        requires
            old(self).wf(),
        ensures
            final(self).wf(),
            final(self).config_view() == old(self).config_view(),
            final(self).records_view() == old(self).records_view(),
            old(self).claim_error(caller@, *membership, payment, now, entropy) is Some <==> r is Err,
            r matches Err(e) ==> old(self).claim_error(caller@, *membership, payment, now, entropy)
                == Some(e) && *final(self) == *old(self),
            r matches Ok(receipt) ==> {
                let config = old(self).config_view();
                let rem = old(self).remaining_view();
                let j = pick_position(rem.len(), entropy);
                &&& receipt.slot == rem[j]
                &&& receipt.order == old(self).redeemed_view()
                &&& receipt.amount == config.price
                &&& receipt.escrowed == config.escrow
                &&& final(self).remaining_view() == take_at(rem, j)
                &&& final(self).redeemed_view() == old(self).redeemed_view() + 1
                &&& final(self).state_view() == (if rem.len() == 1 {
                    PoolState::SoldOut
                } else {
                    PoolState::Active
                })
                &&& (config.reveal_mode == RevealMode::Sequential && !config.hidden)
                    ==> receipt.record is Some && old(self).records_view()[receipt.slot as int]
                    == Some((receipt.record->Some_0.name@, receipt.record->Some_0.uri@))
                &&& !(config.reveal_mode == RevealMode::Sequential && !config.hidden)
                    ==> receipt.record is None
                &&& config.allowlist_root is None ==> final(self).claims_view() == old(
                    self,
                ).claims_view()
                &&& config.allowlist_root is Some ==> final(self).claims_view() == old(
                    self,
                ).claims_view().update(
                    membership->Some_0.leaf_index as int,
                    (old(self).claims_view()[membership->Some_0.leaf_index as int] + 1) as u32,
                )
                &&& !config.escrow ==> final(self).escrow_view() == old(self).escrow_view()
                &&& config.escrow ==> final(self).escrow_view() == old(self).escrow_view().push(
                    EscrowRecord {
                        recipient: *caller,
                        locked_amount: config.price,
                        asset: rem[j],
                        locked_at: now,
                        state: EscrowState::Frozen,
                    },
                )
            },
    {
        if self.state == PoolState::Configured {
            return Err(ClaimError::NotActive);
        }
        match self.config.window {
            Some((start, end)) => {
                if now < start || now > end {
                    return Err(ClaimError::OutsideWindow);
                }
            },
            None => {},
        }
        match self.config.allowlist_root {
            Some(root) => {
                match membership {
                    None => {
                        return Err(ClaimError::MissingProof);
                    },
                    Some(p) => {
                        if verify(&root, caller, p.max_count, p.leaf_index, &p.siblings).is_err() {
                            return Err(ClaimError::InvalidProof);
                        }
                        match self.claims.check(p.leaf_index, 1, p.max_count) {
                            Ok(()) => {},
                            Err(AllowlistError::UnknownLeaf) => {
                                return Err(ClaimError::UnknownLeaf);
                            },
                            Err(_) => {
                                return Err(ClaimError::Exhausted);
                            },
                        }
                    },
                }
            },
            None => {},
        }
        let slot = match self.allocator.peek(entropy) {
            Some(s) => s,
            None => {
                return Err(ClaimError::SoldOut);
            },
        };
        proof {
            self.allocator.lemma_wf();
        }
        let sequential = self.config.reveal_mode == RevealMode::Sequential && !self.config.hidden;
        let record = if sequential {
            match self.store.get(slot) {
                Ok(rec) => Some(rec),
                Err(_) => {
                    return Err(ClaimError::InconsistentState);
                },
            }
        } else {
            None
        };
        if payment < self.config.price {
            return Err(ClaimError::InsufficientPayment);
        }
        if self.config.escrow && self.escrow.find(caller).is_some() {
            return Err(ClaimError::DuplicateEscrow);
        }
        // Every check has passed: commit the claim.

        match self.config.allowlist_root {
            Some(_) => {
                match membership {
                    Some(p) => {
                        let _ = self.claims.check_and_consume(p.leaf_index, 1, p.max_count);
                    },
                    None => {},
                }
            },
            None => {},
        }
        let _ = self.allocator.allocate(entropy);
        if self.config.escrow {
            let _ = self.escrow.lock(caller, self.config.price, slot, now);
        }
        let order = self.redeemed;
        self.redeemed = self.redeemed + 1;
        if self.allocator.remaining_len() == 0 {
            self.state = PoolState::SoldOut;
        } else {
            self.state = PoolState::Active;
        }
        Ok(
            ClaimReceipt {
                slot,
                order,
                record,
                amount: self.config.price,
                escrowed: self.config.escrow,
            },
        )
    }

    /// The recipient's escrow record, if a claim of theirs created one.
    pub fn escrow_record(&self, recipient: &[u8; 32]) -> (r: Option<EscrowRecord>)
        requires
            self.wf(),
        ensures
            r is None <==> !has_record(self.escrow_view(), recipient@),
            r matches Some(rec) ==> exists|i: int|
                0 <= i < self.escrow_view().len() && self.escrow_view()[i] == rec
                    && rec.recipient@ == recipient@,
    {
        let r = self.escrow.get(recipient);
        proof {
            if let Some(rec) = r {
                let i = choose|i: int|
                    0 <= i < self.escrow.view().len() && self.escrow.view()[i] == rec
                        && rec.recipient@ == recipient@;
                assert(self.escrow_view()[i] == rec);
            }
        }
        r
    }

    /// The content bound to the claim made in position `order`, under a
    /// published mapping from allocation order to record index.
    pub fn revealed_record(&self, order: u32, mapping: &Vec<u32>) -> (r: Result<
        ItemRecord,
        RecordError,
    >)
        requires
            self.wf(),
        ensures
            order >= mapping@.len() ==> r == Err::<ItemRecord, RecordError>(
                RecordError::OutOfBounds,
            ),
            order < mapping@.len() ==> {
                let index = mapping@[order as int];
                &&& index >= self.records_view().len() ==> r == Err::<ItemRecord, RecordError>(
                    RecordError::OutOfBounds,
                )
                &&& index < self.records_view().len() && self.records_view()[index as int] is None
                    ==> r == Err::<ItemRecord, RecordError>(RecordError::NotPresent)
                &&& index < self.records_view().len() && self.records_view()[index as int] is Some
                    ==> r is Ok && self.records_view()[index as int] == Some(
                    (r->Ok_0.name@, r->Ok_0.uri@),
                )
            },
    {
        if (order as usize) >= mapping.len() {
            return Err(RecordError::OutOfBounds);
        }
        self.store.get(mapping[order as usize])
    }

    /// Whether the recipient's claimed asset is still held by an escrow.
    pub fn is_transfer_restricted(&self, recipient: &[u8; 32]) -> (r: bool)
        requires
            self.wf(),
        ensures
            r == exists|i: int|
                0 <= i < self.escrow_view().len() && (#[trigger] self.escrow_view()[i]).recipient@
                    == recipient@ && self.escrow_view()[i].state == EscrowState::Frozen,
    {
        self.escrow.is_transfer_restricted(recipient)
    }

    /// Releases the recipient's escrow when `signer` is the pool's authority,
    /// the pool is sold out, or the freeze duration has passed since the lock.
    pub fn thaw(&mut self, recipient: &[u8; 32], signer: &[u8; 32], now: i64) -> (r: Result<
        u64,
        EscrowError,
    >)
        requires
            old(self).wf(),
        ensures
            final(self).wf(),
            final(self).config_view() == old(self).config_view(),
            final(self).state_view() == old(self).state_view(),
            final(self).redeemed_view() == old(self).redeemed_view(),
            final(self).remaining_view() == old(self).remaining_view(),
            final(self).records_view() == old(self).records_view(),
            final(self).claims_view() == old(self).claims_view(),
            r is Err ==> final(self).escrow_view() == old(self).escrow_view(),
            !has_record(old(self).escrow_view(), recipient@) ==> r == Err::<u64, EscrowError>(
                EscrowError::NoEscrow,
            ),
            forall|i: int|
                0 <= i < old(self).escrow_view().len() && (#[trigger] old(
                    self,
                ).escrow_view()[i]).recipient@ == recipient@ ==> {
                    let rec = old(self).escrow_view()[i];
                    let eligible = signer@ == old(self).config_view().authority@
                        || old(self).redeemed_view() == old(self).config_view().capacity
                        || now - rec.locked_at >= old(self).config_view().freeze_duration;
                    &&& rec.state == EscrowState::Thawed ==> r == Err::<u64, EscrowError>(
                        EscrowError::AlreadyThawed,
                    )
                    &&& rec.state == EscrowState::Frozen && !eligible ==> r == Err::<
                        u64,
                        EscrowError,
                    >(EscrowError::NotYetEligible)
                    &&& rec.state == EscrowState::Frozen && eligible ==> r == Ok::<u64, EscrowError>(
                        rec.locked_amount,
                    ) && final(self).escrow_view() == old(self).escrow_view().update(
                        i,
                        EscrowRecord { state: EscrowState::Thawed, ..rec },
                    )
                },
    {
        let authorized = same_address(signer, &self.config.authority);
        let sold_out = self.redeemed == self.config.capacity;
        self.escrow.thaw(recipient, authorized, sold_out, now)
    }
}

} // verus!
