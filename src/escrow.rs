//! Claim proceeds held per recipient until an authority, a sell-out or a
//! timeout releases them.
use vstd::prelude::*;

verus! {

/// Whether a record still holds its funds.
#[derive(Debug, Clone, Copy, PartialEq, Eq, Structural)]
pub enum EscrowState {
    Frozen,
    Thawed,
}

/// Why an escrow operation was refused.
#[derive(Debug, Clone, Copy, PartialEq, Eq, Structural)]
pub enum EscrowError {
    DuplicateEscrow,
    NoEscrow,
    NotYetEligible,
    AlreadyThawed,
}

/// Funds locked for one recipient, and the asset whose transfer they restrict.
#[derive(Debug, Clone, Copy)]
pub struct EscrowRecord {
    pub recipient: [u8; 32],
    pub locked_amount: u64,
    /// The claimed slot whose asset stays transfer-restricted while frozen.
    pub asset: u32,
    pub locked_at: i64,
    pub state: EscrowState,
}

/// Whether a frozen record may be thawed: the authority says so, the pool is
/// sold out, or the freeze duration has passed since the lock.
pub open spec fn thaw_eligible(
    authorized: bool,
    sold_out: bool,
    now: i64,
    locked_at: i64,
    freeze_duration: u64,
) -> bool {
    authorized || sold_out || now - locked_at >= freeze_duration
}

/// Whether some record belongs to `recipient`.
pub open spec fn has_record(records: Seq<EscrowRecord>, recipient: Seq<u8>) -> bool {
    exists|i: int| 0 <= i < records.len() && (#[trigger] records[i]).recipient@ == recipient
}

/// Whether two addresses are equal.
pub fn same_address(a: &[u8; 32], b: &[u8; 32]) -> (r: bool)
    ensures
        r == (a@ == b@),
{
    let mut i: usize = 0;
    while i < 32
        invariant
            i <= 32,
            a@.len() == 32,
            b@.len() == 32,
            forall|k: int| 0 <= k < i ==> a@[k] == b@[k],
        decreases 32 - i,
    {
        if a[i] != b[i] {
            return false;
        }
        i = i + 1;
    }
    assert(a@ =~= b@);
    true
}

/// The escrow records of a pool, at most one per recipient.
pub struct EscrowLedger {
    records: Vec<EscrowRecord>,
    freeze_duration: u64,
}

impl EscrowLedger {
    pub closed spec fn view(&self) -> Seq<EscrowRecord> {
        self.records@
    }

    pub closed spec fn freeze_duration_view(&self) -> u64 {
        self.freeze_duration
    }

    /// No two records share a recipient.
    pub open spec fn wf(&self) -> bool {
        forall|i: int, j: int|
            0 <= i < self.view().len() && 0 <= j < self.view().len() && (#[trigger] self.view()[i]).recipient@
                == (#[trigger] self.view()[j]).recipient@ ==> i == j
    }

    /// An empty ledger whose records may thaw `freeze_duration` after their lock.
    pub fn new(freeze_duration: u64) -> (r: Self)
        ensures
            r.wf(),
            r.view() == Seq::<EscrowRecord>::empty(),
            r.freeze_duration_view() == freeze_duration,
    {
        EscrowLedger { records: Vec::new(), freeze_duration }
    }

    pub fn freeze_duration(&self) -> (r: u64)
        ensures
            r == self.freeze_duration_view(),
    {
        self.freeze_duration
    }

    /// The position of the recipient's record, if there is one.
    pub fn find(&self, recipient: &[u8; 32]) -> (r: Option<usize>)
        ensures
            r is None <==> !has_record(self.view(), recipient@),
            r matches Some(i) ==> i < self.view().len() && self.view()[i as int].recipient@
                == recipient@,
    {
        let mut i: usize = 0;
        while i < self.records.len()
            invariant
                i <= self.records@.len(),
                forall|k: int| 0 <= k < i ==> (#[trigger] self.records@[k]).recipient@ != recipient@,
            decreases self.records@.len() - i,
        {
            if same_address(&self.records[i].recipient, recipient) {
                return Some(i);
            }
            i = i + 1;
        }
        None
    }

    /// The recipient's record, if there is one.
    pub fn get(&self, recipient: &[u8; 32]) -> (r: Option<EscrowRecord>)
        ensures
            r is None <==> !has_record(self.view(), recipient@),
            r matches Some(rec) ==> exists|i: int|
                0 <= i < self.view().len() && self.view()[i] == rec && rec.recipient@
                    == recipient@,
    {
        match self.find(recipient) {
            Some(i) => Some(self.records[i]),
            None => None,
        }
    }

    /// Whether the recipient's asset may not be transferred: its record is
    /// still frozen.
    pub fn is_transfer_restricted(&self, recipient: &[u8; 32]) -> (r: bool)
        requires
            self.wf(),
        ensures
            r == exists|i: int|
                0 <= i < self.view().len() && (#[trigger] self.view()[i]).recipient@
                    == recipient@ && self.view()[i].state == EscrowState::Frozen,
    {
        match self.find(recipient) {
            Some(i) => {
                let frozen = self.records[i].state == EscrowState::Frozen;
                proof {
                    if !frozen {
                        assert forall|k: int|
                            0 <= k < self.view().len() && (#[trigger] self.view()[k]).recipient@
                                == recipient@ implies self.view()[k].state != EscrowState::Frozen by {
                            if k != i {
                                assert(self.view()[k].recipient@ == self.view()[i as int].recipient@);
                            }
                        }
                    }
                }
                frozen
            },
            None => false,
        }
    }

    /// Locks `amount` for the recipient and restricts the transfer of `asset`.
    pub fn lock(&mut self, recipient: &[u8; 32], amount: u64, asset: u32, now: i64) -> (r:
        Result<(), EscrowError>)
        requires
            old(self).wf(),
        ensures
            final(self).wf(),
            final(self).freeze_duration_view() == old(self).freeze_duration_view(),
            has_record(old(self).view(), recipient@) ==> r == Err::<(), EscrowError>(
                EscrowError::DuplicateEscrow,
            ) && final(self).view() == old(self).view(),
            !has_record(old(self).view(), recipient@) ==> r is Ok && final(self).view()
                == old(self).view().push(
                EscrowRecord {
                    recipient: *recipient,
                    locked_amount: amount,
                    asset,
                    locked_at: now,
                    state: EscrowState::Frozen,
                },
            ),
    {
        if self.find(recipient).is_some() {
            return Err(EscrowError::DuplicateEscrow);
        }
        let rec = EscrowRecord {
            recipient: *recipient,
            locked_amount: amount,
            asset,
            locked_at: now,
            state: EscrowState::Frozen,
        };
        self.records.push(rec);
        proof {
            let v = self.records@;
            assert forall|i: int, j: int|
                0 <= i < v.len() && 0 <= j < v.len() && (#[trigger] v[i]).recipient@ == (
                #[trigger] v[j]).recipient@ implies i == j by {
                if i == v.len() - 1 && j < v.len() - 1 {
                    assert(old(self).view()[j] == v[j]);
                } else if j == v.len() - 1 && i < v.len() - 1 {
                    assert(old(self).view()[i] == v[i]);
                } else if i < v.len() - 1 && j < v.len() - 1 {
                    assert(old(self).view()[i] == v[i] && old(self).view()[j] == v[j]);
                }
            }
        }
        Ok(())
    }

    /// Releases the recipient's locked funds, returning the amount, when the
    /// authority says so, the pool is sold out, or the freeze duration has
    /// passed.
    pub fn thaw(&mut self, recipient: &[u8; 32], authorized: bool, sold_out: bool, now: i64) -> (r:
        Result<u64, EscrowError>)
        requires
            old(self).wf(),
        ensures
            final(self).wf(),
            final(self).freeze_duration_view() == old(self).freeze_duration_view(),
            r is Err ==> final(self).view() == old(self).view(),
            r is Ok ==> forall|j: int|
                0 <= j < final(self).view().len() && (#[trigger] final(self).view()[j]).recipient@
                    == recipient@ ==> final(self).view()[j].state == EscrowState::Thawed,
            !has_record(old(self).view(), recipient@) ==> r == Err::<u64, EscrowError>(
                EscrowError::NoEscrow,
            ),
            forall|i: int|
                0 <= i < old(self).view().len() && (#[trigger] old(self).view()[i]).recipient@
                    == recipient@ ==> {
                    let rec = old(self).view()[i];
                    &&& rec.state == EscrowState::Thawed ==> r == Err::<u64, EscrowError>(
                        EscrowError::AlreadyThawed,
                    )
                    &&& rec.state == EscrowState::Frozen && !thaw_eligible(
                        authorized,
                        sold_out,
                        now,
                        rec.locked_at,
                        old(self).freeze_duration_view(),
                    ) ==> r == Err::<u64, EscrowError>(EscrowError::NotYetEligible)
                    &&& rec.state == EscrowState::Frozen && thaw_eligible(
                        authorized,
                        sold_out,
                        now,
                        rec.locked_at,
                        old(self).freeze_duration_view(),
                    ) ==> r == Ok::<u64, EscrowError>(rec.locked_amount) && final(self).view()
                        == old(self).view().update(
                        i,
                        EscrowRecord { state: EscrowState::Thawed, ..rec },
                    )
                },
    {
        let found = self.find(recipient);
        let i = match found {
            Some(i) => i,
            None => {
                return Err(EscrowError::NoEscrow);
            },
        };
        let rec = self.records[i];
        if rec.state == EscrowState::Thawed {
            return Err(EscrowError::AlreadyThawed);
        }
        let elapsed: i128 = (now as i128) - (rec.locked_at as i128);
        if !(authorized || sold_out || elapsed >= self.freeze_duration as i128) {
            return Err(EscrowError::NotYetEligible);
        }
        let thawed = EscrowRecord { state: EscrowState::Thawed, ..rec };
        self.records.set(i, thawed);
        proof {
            let v = self.records@;
            assert forall|a: int, b: int|
                0 <= a < v.len() && 0 <= b < v.len() && (#[trigger] v[a]).recipient@ == (
                #[trigger] v[b]).recipient@ implies a == b by {
                assert(v[a].recipient == old(self).view()[a].recipient);
                assert(v[b].recipient == old(self).view()[b].recipient);
            }
        }
        Ok(rec.locked_amount)
    }
}

} // verus!
