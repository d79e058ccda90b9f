//! Per-slot item records: a presence bitmap beside zero-padded name and URI
//! fields, written in resumable batches.
use vstd::prelude::*;

verus! {

/// The name and URI of one item.
#[derive(Debug, Clone, PartialEq, Eq)]
pub struct ItemRecord {
    pub name: Vec<u8>,
    pub uri: Vec<u8>,
}

/// Why a record operation was refused.
#[derive(Debug, Clone, Copy, PartialEq, Eq, Structural)]
pub enum RecordError {
    OutOfBounds,
    AlreadyPresent,
    RecordTooLarge,
    NotPresent,
}

/// `s` without its trailing zero bytes.
pub open spec fn strip_zeros(s: Seq<u8>) -> Seq<u8>
    decreases s.len(),
{
    if s.len() > 0 && s.last() == 0 {
        strip_zeros(s.drop_last())
    } else {
        s
    }
}

/// `s` followed by zero bytes up to length `n`.
pub open spec fn pad_zeros(s: Seq<u8>, n: nat) -> Seq<u8> {
    s + Seq::new((n - s.len()) as nat, |i: int| 0u8)
}

/// Padding with zeros is undone by stripping them.
pub proof fn lemma_strip_pad(s: Seq<u8>, n: nat)
    requires
        s.len() <= n,
    ensures
        strip_zeros(pad_zeros(s, n)) == strip_zeros(s),
    decreases n - s.len(),
{
    if n > s.len() {
        let p = pad_zeros(s, n);
        assert(p.drop_last() =~= pad_zeros(s, (n - 1) as nat));
        lemma_strip_pad(s, (n - 1) as nat);
    } else {
        assert(pad_zeros(s, n) =~= s);
    }
}

/// Stripping twice strips no more than once.
pub proof fn lemma_strip_idempotent(s: Seq<u8>)
    ensures
        strip_zeros(strip_zeros(s)) == strip_zeros(s),
        strip_zeros(s).len() <= s.len(),
    decreases s.len(),
{
    if s.len() > 0 && s.last() == 0 {
        lemma_strip_idempotent(s.drop_last());
    }
}

/// What a slot holds once written: the name and URI as they read back.
pub open spec fn stored_form(r: ItemRecord) -> (Seq<u8>, Seq<u8>) {
    (strip_zeros(r.name@), strip_zeros(r.uri@))
}

/// Every record of the batch fits the declared maxima.
pub open spec fn batch_fits(records: Seq<ItemRecord>, max_name: nat, max_uri: nat) -> bool {
    forall|i: int|
        0 <= i < records.len() ==> (#[trigger] records[i]).name@.len() <= max_name
            && records[i].uri@.len() <= max_uri
}

/// Some record of the batch would overwrite a written slot with other content.
pub open spec fn batch_conflicts(
    slots: Seq<Option<(Seq<u8>, Seq<u8>)>>,
    start: int,
    records: Seq<ItemRecord>,
) -> bool {
    exists|i: int|
        0 <= i < records.len() && (#[trigger] slots[start + i]) is Some && slots[start + i]
            != Some(stored_form(records[i]))
}

/// The slots after the batch is written from `start` on.
pub open spec fn with_batch(
    slots: Seq<Option<(Seq<u8>, Seq<u8>)>>,
    start: int,
    records: Seq<ItemRecord>,
) -> Seq<Option<(Seq<u8>, Seq<u8>)>> {
    Seq::new(
        slots.len(),
        |k: int|
            if start <= k < start + records.len() {
                Some(stored_form(records[k - start]))
            } else {
                slots[k]
            },
    )
}

/// After a batch is written, each of its slots reads back the record written
/// there: byte for byte where the name and URI do not end in zero bytes,
/// which are padding.
pub proof fn lemma_batch_reads_back(
    slots: Seq<Option<(Seq<u8>, Seq<u8>)>>,
    start: int,
    records: Seq<ItemRecord>,
    i: int,
)
    requires
        0 <= start,
        start + records.len() <= slots.len(),
        0 <= i < records.len(),
    ensures
        with_batch(slots, start, records)[start + i] == Some(stored_form(records[i])),
        records[i].name@.len() == 0 || records[i].name@.last() != 0 ==> stored_form(records[i]).0
            == records[i].name@,
        records[i].uri@.len() == 0 || records[i].uri@.last() != 0 ==> stored_form(records[i]).1
            == records[i].uri@,
{
}

/// Writing again a batch whose slots already hold its records changes
/// nothing.
pub proof fn lemma_rewrite_is_noop(
    slots: Seq<Option<(Seq<u8>, Seq<u8>)>>,
    start: int,
    records: Seq<ItemRecord>,
)
    requires
        0 <= start,
        start + records.len() <= slots.len(),
        forall|i: int| 0 <= i < records.len() ==> slots[start + i] == Some(stored_form(#[trigger] records[i])),
    ensures
        !batch_conflicts(slots, start, records),
        with_batch(slots, start, records) == slots,
{
    let w = with_batch(slots, start, records);
    assert forall|k: int| 0 <= k < slots.len() implies w[k] == slots[k] by {
        if start <= k < start + records.len() {
            assert(slots[start + (k - start)] == Some(stored_form(records[k - start])));
        }
    }
    assert(w =~= slots);
}

/// Copies `v` without its trailing zero bytes.
pub fn strip_trailing_zeros(v: &Vec<u8>) -> (r: Vec<u8>)
    ensures
        r@ == strip_zeros(v@),
{
    let mut end: usize = v.len();
    assert(v@.subrange(0, end as int) =~= v@);
    while end > 0 && v[end - 1] == 0
        invariant
            end <= v@.len(),
            strip_zeros(v@.subrange(0, end as int)) == strip_zeros(v@),
        decreases end,
    {
        assert(v@.subrange(0, end as int).drop_last() =~= v@.subrange(0, end - 1));
        end = end - 1;
    }
    let mut r: Vec<u8> = Vec::with_capacity(end);
    let mut i: usize = 0;
    while i < end
        invariant
            i <= end <= v@.len(),
            r@ == v@.subrange(0, i as int),
        decreases end - i,
    {
        r.push(v[i]);
        i = i + 1;
        assert(r@ =~= v@.subrange(0, i as int));
    }
    assert(r@ =~= v@.subrange(0, end as int));
    r
}

/// Copies `v` and appends zero bytes up to length `n`.
pub fn pad_with_zeros(v: &Vec<u8>, n: usize) -> (r: Vec<u8>)
    requires
        v@.len() <= n,
    ensures
        r@ == pad_zeros(v@, n as nat),
{
    let mut r: Vec<u8> = Vec::with_capacity(n);
    let mut i: usize = 0;
    while i < n
        invariant
            i <= n,
            v@.len() <= n,
            r@ == pad_zeros(v@, n as nat).subrange(0, i as int),
        decreases n - i,
    {
        if i < v.len() {
            r.push(v[i]);
        } else {
            r.push(0u8);
        }
        i = i + 1;
        assert(r@ =~= pad_zeros(v@, n as nat).subrange(0, i as int));
    }
    assert(r@ =~= pad_zeros(v@, n as nat));
    r
}

/// Whether two byte strings are equal.
pub fn bytes_equal(a: &Vec<u8>, b: &Vec<u8>) -> (r: bool)
    ensures
        r == (a@ == b@),
{
    if a.len() != b.len() {
        return false;
    }
    let mut i: usize = 0;
    while i < a.len()
        invariant
            a@.len() == b@.len(),
            i <= a@.len(),
            forall|k: int| 0 <= k < i ==> a@[k] == b@[k],
        decreases a@.len() - i,
    {
        if a[i] != b[i] {
            return false;
        }
        i = i + 1;
    }
    assert(a@ =~= b@);
    true
}

/// The records of a pool, one slot per item. Presence and payload are kept in
/// parallel: `present[i]` says whether slot `i` has been written, and the name
/// and URI fields of every slot are zero-padded to the declared maxima.
pub struct RecordStore {
    present: Vec<bool>,
    names: Vec<Vec<u8>>,
    uris: Vec<Vec<u8>>,
    max_name_len: usize,
    max_uri_len: usize,
}

impl RecordStore {
    /// What each slot holds: `None` until written, then the name and URI as
    /// they read back.
    pub closed spec fn view(&self) -> Seq<Option<(Seq<u8>, Seq<u8>)>> {
        Seq::new(
            self.present@.len(),
            |i: int|
                if self.present@[i] {
                    Some((strip_zeros(self.names@[i]@), strip_zeros(self.uris@[i]@)))
                } else {
                    None
                },
        )
    }

    pub closed spec fn max_name(&self) -> nat {
        self.max_name_len as nat
    }

    pub closed spec fn max_uri(&self) -> nat {
        self.max_uri_len as nat
    }

    /// Parallel structures of one length, fields padded to their maxima.
    pub closed spec fn wf(&self) -> bool {
        &&& self.names@.len() == self.present@.len()
        &&& self.uris@.len() == self.present@.len()
        &&& forall|i: int|
            0 <= i < self.present@.len() ==> (#[trigger] self.names@[i])@.len()
                == self.max_name_len
        &&& forall|i: int|
            0 <= i < self.present@.len() ==> (#[trigger] self.uris@[i])@.len()
                == self.max_uri_len
    }

    /// A store of `capacity` empty slots.
    pub fn new(capacity: u32, max_name_len: usize, max_uri_len: usize) -> (r: Self)
        ensures
            r.wf(),
            r.view().len() == capacity,
            forall|i: int| 0 <= i < capacity ==> #[trigger] r.view()[i] is None,
            r.max_name() == max_name_len,
            r.max_uri() == max_uri_len,
    {
        let empty: Vec<u8> = Vec::new();
        let blank_name = pad_with_zeros(&empty, max_name_len);
        let blank_uri = pad_with_zeros(&empty, max_uri_len);
        let mut present: Vec<bool> = Vec::new();
        let mut names: Vec<Vec<u8>> = Vec::new();
        let mut uris: Vec<Vec<u8>> = Vec::new();
        let mut i: u32 = 0;
        while i < capacity
            invariant
                i <= capacity,
                present@.len() == i,
                names@.len() == i,
                uris@.len() == i,
                blank_name@.len() == max_name_len,
                blank_uri@.len() == max_uri_len,
                forall|k: int| 0 <= k < i ==> !(#[trigger] present@[k]),
                forall|k: int|
                    0 <= k < i ==> (#[trigger] names@[k])@.len() == max_name_len,
                forall|k: int| 0 <= k < i ==> (#[trigger] uris@[k])@.len() == max_uri_len,
            decreases capacity - i,
        {
            present.push(false);
            names.push(blank_name.clone());
            uris.push(blank_uri.clone());
            proof {
                assert(names@[i as int]@ =~= blank_name@);
                assert(uris@[i as int]@ =~= blank_uri@);
            }
            i = i + 1;
        }
        RecordStore { present, names, uris, max_name_len, max_uri_len }
    }

    /// Number of slots.
    pub fn capacity(&self) -> (r: usize)
        requires
            self.wf(),
        ensures
            r == self.view().len(),
    {
        self.present.len()
    }

    /// Whether slot `index` has been written.
    pub fn is_present(&self, index: u32) -> (r: bool)
        requires
            self.wf(),
        ensures
            r == (index < self.view().len() && self.view()[index as int] is Some),
    {
        (index as usize) < self.present.len() && self.present[index as usize]
    }

    /// The record of slot `index`, zero padding stripped.
    pub fn get(&self, index: u32) -> (r: Result<ItemRecord, RecordError>)
        requires
            self.wf(),
        ensures
            index >= self.view().len() ==> r == Err::<ItemRecord, RecordError>(
                RecordError::OutOfBounds,
            ),
            index < self.view().len() && self.view()[index as int] is None ==> r == Err::<
                ItemRecord,
                RecordError,
            >(RecordError::NotPresent),
            index < self.view().len() && self.view()[index as int] is Some ==> r is Ok
                && self.view()[index as int] == Some(stored_form(r->Ok_0))
                && r->Ok_0.name@ == self.view()[index as int]->Some_0.0
                && r->Ok_0.uri@ == self.view()[index as int]->Some_0.1,
    {
        let i = index as usize;
        if i >= self.present.len() {
            return Err(RecordError::OutOfBounds);
        }
        if !self.present[i] {
            return Err(RecordError::NotPresent);
        }
        let name = strip_trailing_zeros(&self.names[i]);
        let uri = strip_trailing_zeros(&self.uris[i]);
        proof {
            lemma_strip_idempotent(self.names@[i as int]@);
            lemma_strip_idempotent(self.uris@[i as int]@);
        }
        Ok(ItemRecord { name, uri })
    }

    /// Whether every slot has been written.
    pub fn is_fully_populated(&self) -> (r: bool)
        requires
            self.wf(),
        ensures
            r == forall|i: int| 0 <= i < self.view().len() ==> (#[trigger] self.view()[i]) is Some,
    {
        let mut i: usize = 0;
        while i < self.present.len()
            invariant
                self.wf(),
                i <= self.present@.len(),
                forall|k: int| 0 <= k < i ==> (#[trigger] self.view()[k]) is Some,
            decreases self.present@.len() - i,
        {
            if !self.present[i] {
                assert(self.view()[i as int] is None);
                return false;
            }
            i = i + 1;
        }
        true
    }

    /// Writes `records` into the slots `start_index..start_index + len`, all
    /// or nothing. Rewriting a slot with the content it already holds is a
    /// no-op; any other change to a written slot is refused.
    pub fn append_batch(&mut self, start_index: u32, records: &Vec<ItemRecord>) -> (r: Result<
        (),
        RecordError,
    >)
        requires
            old(self).wf(),
        ensures
            final(self).wf(),
            final(self).max_name() == old(self).max_name(),
            final(self).max_uri() == old(self).max_uri(),
            final(self).view().len() == old(self).view().len(),
            start_index + records@.len() > old(self).view().len() ==> r == Err::<(), RecordError>(
                RecordError::OutOfBounds,
            ),
            start_index + records@.len() <= old(self).view().len() && !batch_fits(
                records@,
                old(self).max_name(),
                old(self).max_uri(),
            ) ==> r == Err::<(), RecordError>(RecordError::RecordTooLarge),
            start_index + records@.len() <= old(self).view().len() && batch_fits(
                records@,
                old(self).max_name(),
                old(self).max_uri(),
            ) && batch_conflicts(old(self).view(), start_index as int, records@) ==> r == Err::<
                (),
                RecordError,
            >(RecordError::AlreadyPresent),
            start_index + records@.len() <= old(self).view().len() && batch_fits(
                records@,
                old(self).max_name(),
                old(self).max_uri(),
            ) && !batch_conflicts(old(self).view(), start_index as int, records@) ==> r is Ok,
            r is Err ==> *final(self) == *old(self),
            r is Ok ==> final(self).view() == with_batch(
                old(self).view(),
                start_index as int,
                records@,
            ),
    {
        let n = records.len();
        if n > self.present.len() || (start_index as usize) > self.present.len() - n {
            return Err(RecordError::OutOfBounds);
        }
        let start = start_index as usize;
        let mut i: usize = 0;
        while i < n
            invariant
                i <= n,
                n == records@.len(),
                forall|k: int|
                    0 <= k < i ==> (#[trigger] records@[k]).name@.len() <= self.max_name_len
                        && records@[k].uri@.len() <= self.max_uri_len,
                *self == *old(self),
                self.wf(),
                start == start_index,
                start + n <= old(self).view().len(),
                start + n <= self.present@.len(),
            decreases n - i,
        {
            if records[i].name.len() > self.max_name_len || records[i].uri.len() > self.max_uri_len {
                return Err(RecordError::RecordTooLarge);
            }
            i = i + 1;
        }
        let mut i: usize = 0;
        while i < n
            invariant
                self.wf(),
                i <= n,
                n == records@.len(),
                start + n <= self.present@.len(),
                start + n <= usize::MAX,
                forall|k: int|
                    0 <= k < i ==> !((#[trigger] self.view()[start + k]) is Some
                        && self.view()[start + k] != Some(stored_form(records@[k]))),
                *self == *old(self),
                start == start_index,
                start + n <= old(self).view().len(),
                batch_fits(records@, self.max_name_len as nat, self.max_uri_len as nat),
            decreases n - i,
        {
            let slot = start + i;
            if self.present[slot] {
                let name = strip_trailing_zeros(&self.names[slot]);
                let uri = strip_trailing_zeros(&self.uris[slot]);
                let new_name = strip_trailing_zeros(&records[i].name);
                let new_uri = strip_trailing_zeros(&records[i].uri);
                if !bytes_equal(&name, &new_name) || !bytes_equal(&uri, &new_uri) {
                    assert(self.view()[start + i as int] != Some(stored_form(records@[i as int])));
                    return Err(RecordError::AlreadyPresent);
                }
            }
            i = i + 1;
        }
        let ghost old_view = self.view();
        let mut i: usize = 0;
        while i < n
            invariant
                self.wf(),
                i <= n,
                n == records@.len(),
                start + n <= self.present@.len(),
                start + n <= usize::MAX,
                self.max_name_len == old(self).max_name_len,
                self.max_uri_len == old(self).max_uri_len,
                old_view.len() == self.present@.len(),
                batch_fits(records@, self.max_name_len as nat, self.max_uri_len as nat),
                forall|k: int|
                    0 <= k < self.present@.len() ==> #[trigger] self.view()[k] == (if start <= k
                        < start + i {
                        Some(stored_form(records@[k - start]))
                    } else {
                        old_view[k]
                    }),
            decreases n - i,
        {
            let slot = start + i;
            let name = pad_with_zeros(&records[i].name, self.max_name_len);
            let uri = pad_with_zeros(&records[i].uri, self.max_uri_len);
            assert(records@[i as int].name@.len() <= self.max_name_len);
            assert(name@.len() == self.max_name_len);
            assert(uri@.len() == self.max_uri_len);
            proof {
                lemma_strip_pad(records@[i as int].name@, self.max_name_len as nat);
                lemma_strip_pad(records@[i as int].uri@, self.max_uri_len as nat);
            }
            let ghost before = self.view();
            let ghost names0 = self.names@;
            let ghost uris0 = self.uris@;
            self.names.set(slot, name);
            self.uris.set(slot, uri);
            self.present.set(slot, true);
            proof {
                assert forall|k: int| 0 <= k < self.present@.len() implies (
                #[trigger] self.names@[k])@.len() == self.max_name_len && self.uris@[k]@.len()
                    == self.max_uri_len by {
                    if k != slot {
                        assert(self.names@[k] == names0[k] && self.uris@[k] == uris0[k]);
                        assert(names0[k]@.len() == self.max_name_len && uris0[k]@.len()
                            == self.max_uri_len);
                    }
                }
                assert(self.names@.len() == self.present@.len());
                assert(self.uris@.len() == self.present@.len());
                assert forall|k: int| 0 <= k < self.present@.len() implies (
                #[trigger] self.uris@[k])@.len() == self.max_uri_len by {
                    assert(self.names@[k]@.len() == self.max_name_len);
                }
                assert forall|k: int| 0 <= k < self.present@.len() implies #[trigger] self.view()[k]
                    == (if k == slot {
                    Some(stored_form(records@[i as int]))
                } else {
                    before[k]
                }) by {}
            }
            i = i + 1;
        }
        assert(self.view() =~= with_batch(old_view, start as int, records@));
        Ok(())
    }
}

} // verus!
