//! Merkle-proof allowlist membership and per-leaf claim limits.
use sha3::Digest;
use vstd::prelude::*;

verus! {

/// What Keccak-256 returns on the given bytes.
pub uninterp spec fn keccak_of(data: Seq<u8>) -> Seq<u8>;

/// Relies on sha3::Keccak256::digest: the 32-byte Keccak-256 digest, which
/// depends on the input bytes alone.
#[verifier::external_body]
fn keccak256(data: &Vec<u8>) -> (r: [u8; 32])
    ensures
        r@ == keccak_of(data@),
{
    sha3::Keccak256::digest(data.as_slice()).into()
}

/// Why an allowlist check failed.
#[derive(Debug, Clone, Copy, PartialEq, Eq, Structural)]
pub enum AllowlistError {
    InvalidProof,
    Exhausted,
    UnknownLeaf,
}

/// Little-endian bytes of a `u32`.
pub open spec fn u32_le(m: u32) -> Seq<u8> {
    seq![
        (m % 256) as u8,
        ((m / 256) % 256) as u8,
        ((m / 65536) % 256) as u8,
        ((m / 16777216) % 256) as u8,
    ]
}

/// The bytes hashed for a leaf: the identity, then `0`, or `1` and the
/// little-endian maximum count.
pub open spec fn leaf_bytes(identity: Seq<u8>, max_count: Option<u32>) -> Seq<u8> {
    match max_count {
        None => identity + seq![0u8],
        Some(m) => identity + seq![1u8] + u32_le(m),
    }
}

/// The hash of an allowlist leaf.
pub open spec fn leaf_hash(identity: Seq<u8>, max_count: Option<u32>) -> Seq<u8> {
    keccak_of(leaf_bytes(identity, max_count))
}

/// The parent of a node at `index` and its sibling: a node at an even index
/// is hashed on the left, one at an odd index on the right.
pub open spec fn parent_hash(node: Seq<u8>, index: nat, sibling: Seq<u8>) -> Seq<u8> {
    if index % 2 == 0 {
        keccak_of(node + sibling)
    } else {
        keccak_of(sibling + node)
    }
}

/// The root reached from `node` at `index` by hashing with the siblings in order.
pub open spec fn fold_proof(node: Seq<u8>, index: nat, siblings: Seq<Seq<u8>>) -> Seq<u8>
    decreases siblings.len(),
{
    if siblings.len() == 0 {
        node
    } else {
        fold_proof(parent_hash(node, index, siblings[0]), index / 2, siblings.drop_first())
    }
}

/// The sibling hashes of a proof as byte sequences.
pub open spec fn proof_view(proof: Seq<[u8; 32]>) -> Seq<Seq<u8>> {
    proof.map_values(|h: [u8; 32]| h@)
}

/// The root that a proof for this leaf leads to.
pub open spec fn proof_root(
    identity: Seq<u8>,
    max_count: Option<u32>,
    leaf_index: u32,
    proof: Seq<[u8; 32]>,
) -> Seq<u8> {
    fold_proof(leaf_hash(identity, max_count), leaf_index as nat, proof_view(proof))
}

/// Two to the power `d`.
pub open spec fn pow2(d: nat) -> nat
    decreases d,
{
    if d == 0 {
        1
    } else {
        2 * pow2((d - 1) as nat)
    }
}

/// The level above `nodes`: each pair of neighbours hashed into its parent.
pub open spec fn parent_level(nodes: Seq<Seq<u8>>) -> Seq<Seq<u8>> {
    Seq::new(nodes.len() / 2, |k: int| keccak_of(nodes[2 * k] + nodes[2 * k + 1]))
}

/// The root of a full tree of `2^depth` nodes.
pub open spec fn merkle_root(nodes: Seq<Seq<u8>>, depth: nat) -> Seq<u8>
    decreases depth,
{
    if depth == 0 {
        nodes[0]
    } else {
        merkle_root(parent_level(nodes), (depth - 1) as nat)
    }
}

/// The sibling hashes on the way from the node at `index` up to the root of
/// a full tree of `2^depth` nodes.
pub open spec fn proof_path(nodes: Seq<Seq<u8>>, index: nat, depth: nat) -> Seq<Seq<u8>>
    decreases depth,
{
    if depth == 0 {
        Seq::empty()
    } else {
        let sibling = if index % 2 == 0 {
            nodes[index + 1int]
        } else {
            nodes[index - 1int]
        };
        seq![sibling] + proof_path(parent_level(nodes), index / 2, (depth - 1) as nat)
    }
}

/// Following the path of siblings from any node of a full tree leads to the
/// tree's root.
pub proof fn lemma_path_reaches_root(nodes: Seq<Seq<u8>>, index: nat, depth: nat)
    requires
        nodes.len() == pow2(depth),
        index < nodes.len(),
    ensures
        fold_proof(nodes[index as int], index, proof_path(nodes, index, depth)) == merkle_root(
            nodes,
            depth,
        ),
    decreases depth,
{
    if depth > 0 {
        let d1 = (depth - 1) as nat;
        let up = parent_level(nodes);
        let path = proof_path(nodes, index, depth);
        assert(up.len() == pow2(d1));
        assert(path.drop_first() =~= proof_path(up, index / 2, d1));
        if index % 2 == 0 {
            assert(2 * (index / 2) == index);
        } else {
            assert(2 * (index / 2) + 1 == index);
        }
        assert(parent_hash(nodes[index as int], index, path[0]) == up[(index / 2) as int]);
        lemma_path_reaches_root(up, index / 2, d1);
    }
}

/// A proof built from a full tree of leaf hashes, for the leaf of
/// `(identity, max_count)` at `leaf_index`, leads to that tree's root; so
/// `verify` accepts it against that root.
pub proof fn lemma_built_proof_verifies(
    leaves: Seq<Seq<u8>>,
    depth: nat,
    identity: Seq<u8>,
    max_count: Option<u32>,
    leaf_index: u32,
    proof: Seq<[u8; 32]>,
)
    requires
        leaves.len() == pow2(depth),
        leaf_index < leaves.len(),
        leaves[leaf_index as int] == leaf_hash(identity, max_count),
        proof_view(proof) == proof_path(leaves, leaf_index as nat, depth),
    ensures
        proof_root(identity, max_count, leaf_index, proof) == merkle_root(leaves, depth),
{
    lemma_path_reaches_root(leaves, leaf_index as nat, depth);
}

/// Whether two hashes are equal.
pub fn hashes_equal(a: &[u8; 32], b: &[u8; 32]) -> (r: bool)
    ensures
        r == (a@ == b@),
{
    let mut i: usize = 0;
    while i < 32
        invariant
            i <= 32,
            a@.len() == 32,
            b@.len() == 32,
            forall|k: int| 0 <= k < i ==> a@[k] == b@[k],
        decreases 32 - i,
    {
        if a[i] != b[i] {
            return false;
        }
        i = i + 1;
    }
    assert(a@ =~= b@);
    true
}

/// `a` followed by `b`.
fn concat(a: &[u8; 32], b: &[u8; 32]) -> (r: Vec<u8>)
    ensures
        r@ == a@ + b@,
{
    let mut r: Vec<u8> = Vec::with_capacity(64);
    let mut i: usize = 0;
    while i < 32
        invariant
            i <= 32,
            a@.len() == 32,
            r@ == a@.subrange(0, i as int),
        decreases 32 - i,
    {
        r.push(a[i]);
        i = i + 1;
        assert(r@ =~= a@.subrange(0, i as int));
    }
    let mut i: usize = 0;
    while i < 32
        invariant
            i <= 32,
            a@.len() == 32,
            b@.len() == 32,
            r@ == a@ + b@.subrange(0, i as int),
        decreases 32 - i,
    {
        r.push(b[i]);
        i = i + 1;
        assert(r@ =~= a@ + b@.subrange(0, i as int));
    }
    assert(r@ =~= a@ + b@);
    r
}

/// Hashes an allowlist leaf.
pub fn hash_leaf(identity: &[u8; 32], max_count: Option<u32>) -> (r: [u8; 32])
    ensures
        r@ == leaf_hash(identity@, max_count),
{
    let mut bytes: Vec<u8> = Vec::with_capacity(37);
    let mut i: usize = 0;
    while i < 32
        invariant
            i <= 32,
            identity@.len() == 32,
            bytes@ == identity@.subrange(0, i as int),
        decreases 32 - i,
    {
        bytes.push(identity[i]);
        i = i + 1;
        assert(bytes@ =~= identity@.subrange(0, i as int));
    }
    assert(bytes@ =~= identity@);
    match max_count {
        None => {
            bytes.push(0u8);
        },
        Some(m) => {
            bytes.push(1u8);
            bytes.push((m % 256) as u8);
            bytes.push(((m / 256) % 256) as u8);
            bytes.push(((m / 65536) % 256) as u8);
            bytes.push(((m / 16777216) % 256) as u8);
        },
    }
    assert(bytes@ =~= leaf_bytes(identity@, max_count));
    keccak256(&bytes)
}

/// Hashes a node at `index` with its sibling into their parent.
pub fn hash_parent(node: &[u8; 32], index: u32, sibling: &[u8; 32]) -> (r: [u8; 32])
    ensures
        r@ == parent_hash(node@, index as nat, sibling@),
{
    if index % 2 == 0 {
        keccak256(&concat(node, sibling))
    } else {
        keccak256(&concat(sibling, node))
    }
}

/// Follows the proof from the leaf up and returns the root it reaches.
pub fn compute_root(
    identity: &[u8; 32],
    max_count: Option<u32>,
    leaf_index: u32,
    proof: &Vec<[u8; 32]>,
) -> (r: [u8; 32])
    ensures
        r@ == proof_root(identity@, max_count, leaf_index, proof@),
{
    let mut node = hash_leaf(identity, max_count);
    let mut index = leaf_index;
    let mut i: usize = 0;
    let ghost full = proof_view(proof@);
    assert(full.subrange(0, full.len() as int) =~= full);
    while i < proof.len()
        invariant
            i <= proof@.len(),
            full == proof_view(proof@),
            full.len() == proof@.len(),
            fold_proof(node@, index as nat, full.subrange(i as int, full.len() as int))
                == proof_root(identity@, max_count, leaf_index, proof@),
        decreases proof@.len() - i,
    {
        let ghost rest = full.subrange(i as int, full.len() as int);
        assert(rest[0] == proof@[i as int]@);
        assert(rest.drop_first() =~= full.subrange(i + 1, full.len() as int));
        node = hash_parent(&node, index, &proof[i]);
        index = index / 2;
        i = i + 1;
    }
    node
}

/// Whether the proof shows that the leaf `(identity, max_count)` at
/// `leaf_index` belongs to the tree with this root.
pub fn verify(
    root: &[u8; 32],
    identity: &[u8; 32],
    max_count: Option<u32>,
    leaf_index: u32,
    proof: &Vec<[u8; 32]>,
) -> (r: Result<(), AllowlistError>)
    ensures
        r is Ok <==> proof_root(identity@, max_count, leaf_index, proof@) == root@,
        r is Err ==> r == Err::<(), AllowlistError>(AllowlistError::InvalidProof),
{
    let reached = compute_root(identity, max_count, leaf_index, proof);
    if hashes_equal(&reached, root) {
        Ok(())
    } else {
        Err(AllowlistError::InvalidProof)
    }
}

/// The claim limit of a leaf: its maximum count, or one claim where the leaf
/// carries none.
pub open spec fn claim_limit(max_count: Option<u32>) -> nat {
    match max_count {
        Some(m) => m as nat,
        None => 1,
    }
}

/// A single-use leaf that was claimed once refuses every further claim.
pub proof fn lemma_single_use_leaf_exhausted(before: Seq<u32>, leaf: int, first: u32, second: u32)
    requires
        0 <= leaf < before.len(),
        first >= 1,
        second >= 1,
        before[leaf] + first <= claim_limit(None),
    ensures
        before.update(leaf, (before[leaf] + first) as u32)[leaf] + second > claim_limit(None),
{
}

/// Claims made so far against each allowlist leaf.
pub struct ClaimCounts {
    counts: Vec<u32>,
}

impl ClaimCounts {
    pub closed spec fn view(&self) -> Seq<u32> {
        self.counts@
    }

    /// Counts for `leaves` leaves, none claimed.
    pub fn new(leaves: u32) -> (r: Self)
        ensures
            r.view() == Seq::new(leaves as nat, |i: int| 0u32),
    {
        let mut counts: Vec<u32> = Vec::new();
        let mut i: u32 = 0;
        while i < leaves
            invariant
                i <= leaves,
                counts@ == Seq::new(i as nat, |k: int| 0u32),
            decreases leaves - i,
        {
            counts.push(0u32);
            i = i + 1;
            assert(counts@ =~= Seq::new(i as nat, |k: int| 0u32));
        }
        ClaimCounts { counts }
    }

    /// Claims made so far against the leaf.
    pub fn claimed(&self, leaf_index: u32) -> (r: Option<u32>)
        ensures
            leaf_index < self.view().len() ==> r == Some(self.view()[leaf_index as int]),
            leaf_index >= self.view().len() ==> r is None,
    {
        if (leaf_index as usize) < self.counts.len() {
            Some(self.counts[leaf_index as usize])
        } else {
            None
        }
    }

    /// Whether `requested` more claims against the leaf stay within its limit.
    pub fn check(&self, leaf_index: u32, requested: u32, max_count: Option<u32>) -> (r: Result<
        (),
        AllowlistError,
    >)
        ensures
            leaf_index >= self.view().len() ==> r == Err::<(), AllowlistError>(
                AllowlistError::UnknownLeaf,
            ),
            leaf_index < self.view().len() ==> (r is Ok <==> self.view()[leaf_index as int]
                + requested <= claim_limit(max_count)),
            leaf_index < self.view().len() && r is Err ==> r == Err::<(), AllowlistError>(
                AllowlistError::Exhausted,
            ),
    {
        if (leaf_index as usize) >= self.counts.len() {
            return Err(AllowlistError::UnknownLeaf);
        }
        let limit: u64 = match max_count {
            Some(m) => m as u64,
            None => 1,
        };
        if (self.counts[leaf_index as usize] as u64) + (requested as u64) <= limit {
            Ok(())
        } else {
            Err(AllowlistError::Exhausted)
        }
    }

    /// Records `requested` claims against the leaf if that stays within its
    /// limit; otherwise changes nothing.
    pub fn check_and_consume(&mut self, leaf_index: u32, requested: u32, max_count: Option<
        u32,
    >) -> (r: Result<(), AllowlistError>)
        ensures
            leaf_index >= old(self).view().len() ==> r == Err::<(), AllowlistError>(
                AllowlistError::UnknownLeaf,
            ),
            leaf_index < old(self).view().len() ==> (r is Ok <==> old(self).view()[leaf_index as int]
                + requested <= claim_limit(max_count)),
            leaf_index < old(self).view().len() && r is Err ==> r == Err::<(), AllowlistError>(
                AllowlistError::Exhausted,
            ),
            r is Err ==> final(self).view() == old(self).view(),
            r is Ok ==> final(self).view() == old(self).view().update(
                leaf_index as int,
                (old(self).view()[leaf_index as int] + requested) as u32,
            ),
    {
        let r = self.check(leaf_index, requested, max_count);
        if r.is_ok() {
            let i = leaf_index as usize;
            let next = self.counts[i] + requested;
            self.counts.set(i, next);
        }
        r
    }
}

} // verus!
