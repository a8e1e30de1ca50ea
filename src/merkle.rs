//! The merkle snapshot of one distribution epoch: its entries, the leaf and
//! node hashing that ties each entry's proof to the root, and lookup by claimant.

use sha2::Digest;
use std::str::FromStr;
use vstd::prelude::*;
use vstd::string::StrSliceExecFns;

use crate::address::{le_bytes, u64_le_bytes, bytes_of};

verus! {

/// The SHA-256 digest of `data`.
pub uninterp spec fn sha256_of(data: Seq<u8>) -> Seq<u8>;

/// The 32 bytes that the base58 text `s` denotes, if it denotes an address.
pub uninterp spec fn base58_address_of(s: Seq<char>) -> Option<Seq<u8>>;

/// Relies on sha2's `Sha256::digest`: a 32-byte digest of the input alone.
#[verifier::external_body]
pub(crate) fn sha256(data: &Vec<u8>) -> (r: Vec<u8>)
    ensures
        r@ == sha256_of(data@),
        r@.len() == 32,
{
    sha2::Sha256::digest(data.as_slice()).to_vec()
}

/// Relies on solana_pubkey's `Pubkey::from_str`: base58 text of exactly 32 bytes.
#[verifier::external_body]
fn parse_base58_address(s: &str) -> (r: Option<[u8; 32]>)
    ensures
        r.is_some() == base58_address_of(s@).is_some(),
        r matches Some(a) ==> base58_address_of(s@) == Some(a@),
{
    solana_pubkey::Pubkey::from_str(s).ok().map(|a| a.to_bytes())
}

/// An entry of a snapshot as published: the claimant's address in base58,
/// the amount in decimal, and the sibling hashes of its proof.
pub struct RawEntry {
    pub address: String,
    pub amount: String,
    pub proof: Option<Vec<Vec<u8>>>,
}

/// One claimant's share of an epoch.
pub struct TreeNode {
    pub claimant: [u8; 32],
    pub amount: u64,
    pub proof: Option<Vec<Vec<u8>>>,
}

/// Why a snapshot was refused; each names the offending entry.
#[derive(Debug, Clone, Copy, PartialEq, Eq, Structural)]
pub enum TreeError {
    MalformedAddress { index: usize },
    MalformedAmount { index: usize },
    MalformedProof { index: usize },
    RootMismatch { index: usize },
}

/// The value of a decimal digit.
pub open spec fn digit_value(c: char) -> int {
    c as int - '0' as int
}

pub open spec fn is_digit(c: char) -> bool {
    '0' <= c && c <= '9'
}

/// The value of a string of decimal digits.
pub open spec fn decimal_value(s: Seq<char>) -> int
    decreases s.len(),
{
    if s.len() == 0 {
        0
    } else {
        decimal_value(s.drop_last()) * 10 + digit_value(s.last())
    }
}

/// The amount that `s` writes: one or more decimal digits whose value fits in `u64`.
pub open spec fn amount_of(s: Seq<char>) -> Option<u64> {
    if s.len() > 0 && (forall|i: int| 0 <= i < s.len() ==> is_digit(#[trigger] s[i]))
        && decimal_value(s) <= u64::MAX {
        Some(decimal_value(s) as u64)
    } else {
        None
    }
}

proof fn lemma_decimal_prefix_grows(s: Seq<char>, j: int, k: int)
    requires
        0 <= j <= k <= s.len(),
        forall|i: int| 0 <= i < s.len() ==> is_digit(#[trigger] s[i]),
    ensures
        0 <= decimal_value(s.take(j)) <= decimal_value(s.take(k)),
    decreases k,
{
    if k > 0 {
        if j < k {
            lemma_decimal_prefix_grows(s, j, k - 1);
        }
        assert(s.take(k).drop_last() =~= s.take(k - 1));
        lemma_decimal_prefix_grows(s, k - 1, k - 1);
        assert(is_digit(s[k - 1]));
    } else {
        assert(s.take(0).len() == 0);
    }
}

/// Reads an amount written in decimal.
pub fn parse_amount(s: &str) -> (r: Option<u64>)
    ensures
        r == amount_of(s@),
{
    let n = s.unicode_len();
    if n == 0 {
        return None;
    }
    let mut v: u64 = 0;
    let mut i: usize = 0;
    while i < n
        invariant
            n == s@.len(),
            i <= n,
            forall|k: int| 0 <= k < i ==> is_digit(#[trigger] s@[k]),
            v as int == decimal_value(s@.take(i as int)),
        decreases n - i,
    {
        let c = s.get_char(i);
        if !('0' <= c && c <= '9') {
            assert(!is_digit(s@[i as int]));
            return None;
        }
        let d: u64 = (c as u32 - '0' as u32) as u64;
        assert(s@.take(i as int + 1).drop_last() =~= s@.take(i as int));
        if v > (u64::MAX - d) / 10 {
            proof {
                assert(decimal_value(s@.take(i as int + 1)) > u64::MAX);
                if forall|k: int| 0 <= k < s@.len() ==> is_digit(#[trigger] s@[k]) {
                    lemma_decimal_prefix_grows(s@, i as int + 1, s@.len() as int);
                    assert(s@.take(s@.len() as int) =~= s@);
                }
            }
            return None;
        }
        v = v * 10 + d;
        i = i + 1;
    }
    assert(s@.take(n as int) =~= s@);
    Some(v)
}

/// Whether `a` orders no later than `b`, comparing bytes from position `i` on.
pub open spec fn bytes_le_from(a: Seq<u8>, b: Seq<u8>, i: int) -> bool
    decreases a.len() - i,
{
    if i < 0 || i >= a.len() || i >= b.len() {
        a.len() <= b.len()
    } else if a[i] != b[i] {
        a[i] < b[i]
    } else {
        bytes_le_from(a, b, i + 1)
    }
}

/// Lexicographic order of byte strings.
pub open spec fn bytes_le(a: Seq<u8>, b: Seq<u8>) -> bool {
    bytes_le_from(a, b, 0)
}

/// Hash of a leaf: the digest, behind a zero byte, of the claimant and the
/// little-endian amount.
pub open spec fn leaf_hash(claimant: Seq<u8>, amount: u64) -> Seq<u8> {
    sha256_of(seq![0u8] + sha256_of(claimant + le_bytes(amount)))
}

/// Hash of an inner node: the digest, behind a one byte, of its two children in order.
pub open spec fn node_hash(a: Seq<u8>, b: Seq<u8>) -> Seq<u8> {
    if bytes_le(a, b) {
        sha256_of(seq![1u8] + a + b)
    } else {
        sha256_of(seq![1u8] + b + a)
    }
}

/// The root that `proof` leads to from `leaf`, combining with the siblings in order.
pub open spec fn fold_proof(leaf: Seq<u8>, proof: Seq<Seq<u8>>) -> Seq<u8>
    decreases proof.len(),
{
    if proof.len() == 0 {
        leaf
    } else {
        node_hash(fold_proof(leaf, proof.drop_last()), proof.last())
    }
}

/// Whether `proof` ties the leaf of `claimant` and `amount` to `root`.
pub open spec fn proof_verifies(root: Seq<u8>, claimant: Seq<u8>, amount: u64, proof: Seq<Seq<u8>>) -> bool {
    fold_proof(leaf_hash(claimant, amount), proof) == root
}

fn bytes_le_exec(a: &Vec<u8>, b: &Vec<u8>) -> (r: bool)
    ensures
        r == bytes_le(a@, b@),
{
    let mut i: usize = 0;
    while i < a.len() && i < b.len() && a[i] == b[i]
        invariant
            i <= a@.len(),
            i <= b@.len(),
            bytes_le_from(a@, b@, 0) == bytes_le_from(a@, b@, i as int),
        decreases a@.len() - i,
    {
        i = i + 1;
    }
    if i < a.len() && i < b.len() {
        a[i] < b[i]
    } else {
        a.len() <= b.len()
    }
}

fn concat_into(out: &mut Vec<u8>, b: &Vec<u8>)
    ensures
        final(out)@ == old(out)@ + b@,
{
    let mut i: usize = 0;
    while i < b.len()
        invariant
            i <= b@.len(),
            out@ == old(out)@ + b@.take(i as int),
        decreases b@.len() - i,
    {
        out.push(b[i]);
        i = i + 1;
        assert(out@ =~= old(out)@ + b@.take(i as int));
    }
    assert(b@.take(b@.len() as int) =~= b@);
}

/// The leaf hash of `claimant` and `amount`.
pub fn compute_leaf_hash(claimant: &[u8; 32], amount: u64) -> (r: Vec<u8>)
    ensures
        r@ == leaf_hash(claimant@, amount),
{
    let mut data = bytes_of(claimant);
    let amt = u64_le_bytes(amount);
    concat_into(&mut data, &amt);
    let inner = sha256(&data);
    let mut outer: Vec<u8> = vec![0u8];
    concat_into(&mut outer, &inner);
    assert(outer@ =~= seq![0u8] + sha256_of(claimant@ + le_bytes(amount)));
    sha256(&outer)
}

/// The hash of the inner node above `a` and `b`.
pub fn compute_node_hash(a: &Vec<u8>, b: &Vec<u8>) -> (r: Vec<u8>)
    ensures
        r@ == node_hash(a@, b@),
{
    let mut data: Vec<u8> = vec![1u8];
    if bytes_le_exec(a, b) {
        concat_into(&mut data, a);
        concat_into(&mut data, b);
        assert(data@ =~= seq![1u8] + a@ + b@);
    } else {
        concat_into(&mut data, b);
        concat_into(&mut data, a);
        assert(data@ =~= seq![1u8] + b@ + a@);
    }
    sha256(&data)
}

/// The root that `proof` leads to from the leaf of `claimant` and `amount`.
pub fn compute_root(claimant: &[u8; 32], amount: u64, proof: &Vec<Vec<u8>>) -> (r: Vec<u8>)
    ensures
        r@ == fold_proof(leaf_hash(claimant@, amount), proof.deep_view()),
{
    let ghost leaf = leaf_hash(claimant@, amount);
    let ghost p = proof.deep_view();
    let mut cur = compute_leaf_hash(claimant, amount);
    let mut i: usize = 0;
    assert(p.take(0) =~= Seq::<Seq<u8>>::empty());
    while i < proof.len()
        invariant
            p == proof.deep_view(),
            i <= p.len(),
            cur@ == fold_proof(leaf, p.take(i as int)),
        decreases p.len() - i,
    {
        let sib = &proof[i];
        assert(sib@ =~= p[i as int]);
        cur = compute_node_hash(&cur, sib);
        assert(p.take(i as int + 1).drop_last() =~= p.take(i as int));
        assert(p.take(i as int + 1).last() == p[i as int]);
        i = i + 1;
    }
    assert(p.take(p.len() as int) =~= p);
    cur
}

/// Whether `proof` ties the leaf of `claimant` and `amount` to `root`.
pub fn verify_proof(root: &Vec<u8>, claimant: &[u8; 32], amount: u64, proof: &Vec<Vec<u8>>) -> (r: bool)
    ensures
        r == proof_verifies(root@, claimant@, amount, proof.deep_view()),
{
    let computed = compute_root(claimant, amount, proof);
    bytes_equal(&computed, root)
}

/// Whether two byte strings are equal.
pub fn bytes_equal(a: &Vec<u8>, b: &Vec<u8>) -> (r: bool)
    ensures
        r == (a@ == b@),
{
    if a.len() != b.len() {
        return false;
    }
    let mut i: usize = 0;
    while i < a.len()
        invariant
            a@.len() == b@.len(),
            i <= a@.len(),
            forall|k: int| 0 <= k < i ==> a@[k] == b@[k],
        decreases a@.len() - i,
    {
        if a[i] != b[i] {
            return false;
        }
        i = i + 1;
    }
    assert(a@ =~= b@);
    true
}

/// Every hash of a proof is 32 bytes long.
pub open spec fn hashes_well_formed(p: Seq<Seq<u8>>) -> bool {
    forall|k: int| 0 <= k < p.len() ==> (#[trigger] p[k]).len() == 32
}

/// The proof of an entry, as byte strings.
pub open spec fn entry_proof(e: RawEntry) -> Option<Seq<Seq<u8>>> {
    match e.proof {
        Some(p) => Some(p.deep_view()),
        None => None,
    }
}

/// The proof of a node, as byte strings.
pub open spec fn node_proof(n: TreeNode) -> Option<Seq<Seq<u8>>> {
    match n.proof {
        Some(p) => Some(p.deep_view()),
        None => None,
    }
}

/// An entry whose address, amount and proof hashes all read.
pub open spec fn entry_well_formed(e: RawEntry) -> bool {
    &&& base58_address_of(e.address@).is_some()
    &&& amount_of(e.amount@).is_some()
    &&& (entry_proof(e).is_some() ==> hashes_well_formed(entry_proof(e).unwrap()))
}

/// The root that a well-formed entry's proof leads to.
pub open spec fn entry_root(e: RawEntry) -> Seq<u8> {
    fold_proof(
        leaf_hash(base58_address_of(e.address@).unwrap(), amount_of(e.amount@).unwrap()),
        entry_proof(e).unwrap(),
    )
}

/// A snapshot that makes a tree: every entry reads, and every proof leads to one root.
pub open spec fn snapshot_valid(entries: Seq<RawEntry>) -> bool {
    &&& forall|j: int| 0 <= j < entries.len() ==> entry_well_formed(#[trigger] entries[j])
    &&& forall|j: int, k: int|
        0 <= j < entries.len() && 0 <= k < entries.len() && entries[j].proof.is_some()
            && entries[k].proof.is_some() ==> entry_root(#[trigger] entries[j]) == entry_root(
            #[trigger] entries[k],
        )
}

/// `n` holds what entry `e` reads as.
pub open spec fn node_of_entry(n: TreeNode, e: RawEntry) -> bool {
    &&& base58_address_of(e.address@) == Some(n.claimant@)
    &&& amount_of(e.amount@) == Some(n.amount)
    &&& node_proof(n) == entry_proof(e)
}

/// The nodes of a distribution epoch and the root that their proofs lead to.
pub struct MerkleTree {
    pub nodes: Vec<TreeNode>,
    pub root: Option<Vec<u8>>,
}

impl MerkleTree {
    /// Every node's proof has 32-byte hashes and leads to the root; there is a
    /// root exactly when some node carries a proof.
    pub open spec fn well_formed(&self) -> bool {
        &&& self.root.is_some() == (exists|j: int|
            0 <= j < self.nodes@.len() && (#[trigger] self.nodes@[j]).proof.is_some())
        &&& forall|j: int|
            0 <= j < self.nodes@.len() && (#[trigger] self.nodes@[j]).proof.is_some() ==> {
                &&& hashes_well_formed(node_proof(self.nodes@[j]).unwrap())
                &&& proof_verifies(
                    self.root.unwrap()@,
                    self.nodes@[j].claimant@,
                    self.nodes@[j].amount,
                    node_proof(self.nodes@[j]).unwrap(),
                )
            }
    }
}

fn copy_bytes(b: &Vec<u8>) -> (r: Vec<u8>)
    ensures
        r@ == b@,
{
    let mut r: Vec<u8> = Vec::new();
    concat_into(&mut r, b);
    assert(r@ =~= b@);
    r
}

/// A copy of a proof.
pub fn copy_hashes(p: &Vec<Vec<u8>>) -> (r: Vec<Vec<u8>>)
    ensures
        r.deep_view() == p.deep_view(),
{
    let ghost pv = p.deep_view();
    let mut q: Vec<Vec<u8>> = Vec::new();
    let mut i: usize = 0;
    while i < p.len()
        invariant
            pv == p.deep_view(),
            i <= pv.len(),
            q.deep_view() == pv.take(i as int),
            q@.len() == i,
        decreases pv.len() - i,
    {
        let h = &p[i];
        assert(h@ =~= pv[i as int]);
        let c = copy_bytes(h);
        let ghost before = q@;
        let ghost before_dv = q.deep_view();
        q.push(c);
        assert(q@ == before.push(c));
        assert forall|k: int| 0 <= k < i implies #[trigger] q.deep_view()[k] == pv[k] by {
            assert(q@[k] == before[k]);
            assert(before_dv[k] == pv.take(i as int)[k]);
        }
        assert(q.deep_view()[i as int] == pv[i as int]);
        i = i + 1;
        assert(q.deep_view() =~= pv.take(i as int));
    }
    assert(pv.take(pv.len() as int) =~= pv);
    q
}

/// A copy of `p`, if each of its hashes is 32 bytes long.
fn checked_hashes(p: &Vec<Vec<u8>>) -> (r: Option<Vec<Vec<u8>>>)
    ensures
        r.is_some() == hashes_well_formed(p.deep_view()),
        r matches Some(q) ==> q.deep_view() == p.deep_view(),
{
    let ghost pv = p.deep_view();
    let mut q: Vec<Vec<u8>> = Vec::new();
    let mut i: usize = 0;
    while i < p.len()
        invariant
            pv == p.deep_view(),
            i <= pv.len(),
            q.deep_view() == pv.take(i as int),
            q@.len() == i,
            forall|k: int| 0 <= k < i ==> (#[trigger] pv[k]).len() == 32,
        decreases pv.len() - i,
    {
        let h = &p[i];
        assert(h@ =~= pv[i as int]);
        if h.len() != 32 {
            return None;
        }
        let c = copy_bytes(h);
        let ghost before = q@;
        let ghost before_dv = q.deep_view();
        q.push(c);
        assert(q@ == before.push(c));
        assert forall|k: int| 0 <= k < i implies #[trigger] q.deep_view()[k] == pv[k] by {
            assert(q@[k] == before[k]);
            assert(before_dv[k] == pv.take(i as int)[k]);
        }
        assert(q.deep_view()[i as int] == pv[i as int]);
        i = i + 1;
        assert(q.deep_view() =~= pv.take(i as int));
    }
    assert(pv.take(pv.len() as int) =~= pv);
    Some(q)
}

impl MerkleTree {
    /// Builds the tree of a snapshot, refusing an entry that does not read or a
    /// proof that leads elsewhere than the others.
    pub fn build(entries: &Vec<RawEntry>) -> (r: Result<MerkleTree, TreeError>)
        ensures
            r.is_ok() == snapshot_valid(entries@),
            r matches Ok(t) ==> {
                &&& t.well_formed()
                &&& built_from(t, entries@)
            },
            r matches Err(TreeError::MalformedAddress { index }) ==> index < entries@.len()
                && base58_address_of(entries@[index as int].address@).is_none(),
            r matches Err(TreeError::MalformedAmount { index }) ==> index < entries@.len()
                && amount_of(entries@[index as int].amount@).is_none(),
            r matches Err(TreeError::MalformedProof { index }) ==> index < entries@.len()
                && entry_proof(entries@[index as int]).is_some()
                && !hashes_well_formed(entry_proof(entries@[index as int]).unwrap()),
            r matches Err(TreeError::RootMismatch { index }) ==> index < entries@.len()
                && entries@[index as int].proof.is_some() && entry_well_formed(entries@[index as int])
                && exists|k: int| 0 <= k < entries@.len() && (#[trigger] entries@[k]).proof.is_some()
                && entry_well_formed(entries@[k]) && entry_root(entries@[k]) != entry_root(entries@[index as int]),
    {
        let mut nodes: Vec<TreeNode> = Vec::new();
        let mut root: Option<Vec<u8>> = None;
        let mut i: usize = 0;
        while i < entries.len()
            invariant
                i <= entries@.len(),
                nodes@.len() == i,
                forall|j: int| 0 <= j < i ==> entry_well_formed(#[trigger] entries@[j]),
                forall|j: int| 0 <= j < i ==> node_of_entry(#[trigger] nodes@[j], entries@[j]),
                root.is_some() == (exists|j: int| 0 <= j < i && (#[trigger] entries@[j]).proof.is_some()),
                root.is_some() ==> forall|j: int|
                    0 <= j < i && (#[trigger] entries@[j]).proof.is_some() ==> entry_root(entries@[j]) == root.unwrap()@,
            decreases entries@.len() - i,
        {
            let e = &entries[i];
            let claimant = match parse_base58_address(e.address.as_str()) {
                Some(a) => a,
                None => {
                    return Err(TreeError::MalformedAddress { index: i });
                },
            };
            let amount = match parse_amount(e.amount.as_str()) {
                Some(v) => v,
                None => {
                    return Err(TreeError::MalformedAmount { index: i });
                },
            };
            let raw_hashes = &e.proof;
            let hashes = match raw_hashes {
                None => None,
                Some(p) => match checked_hashes(p) {
                    Some(q) => Some(q),
                    None => {
                        return Err(TreeError::MalformedProof { index: i });
                    },
                },
            };
            assert(entry_well_formed(entries@[i as int]));
            match &hashes {
                None => {},
                Some(p) => {
                    let computed = compute_root(&claimant, amount, p);
                    assert(computed@ == entry_root(entries@[i as int]));
                    match &root {
                        None => {
                            root = Some(computed);
                        },
                        Some(r) => {
                            if !bytes_equal(r, &computed) {
                                let ghost w = choose|j: int| 0 <= j < i && (#[trigger] entries@[j]).proof.is_some();
                                assert(entry_root(entries@[w]) != entry_root(entries@[i as int]));
                                return Err(TreeError::RootMismatch { index: i });
                            }
                        },
                    }
                },
            }
            let node = TreeNode { claimant, amount, proof: hashes };
            assert(node_of_entry(node, entries@[i as int]));
            nodes.push(node);
            i = i + 1;
        }
        let t = MerkleTree { nodes, root };
        assert forall|j: int| 0 <= j < t.nodes@.len() && (#[trigger] t.nodes@[j]).proof.is_some() implies {
            &&& hashes_well_formed(node_proof(t.nodes@[j]).unwrap())
            &&& proof_verifies(t.root.unwrap()@, t.nodes@[j].claimant@, t.nodes@[j].amount, node_proof(t.nodes@[j]).unwrap())
        } by {
            assert(node_of_entry(t.nodes@[j], entries@[j]));
            assert(entry_well_formed(entries@[j]));
            assert(entries@[j].proof.is_some());
        }
        assert(t.root.is_some() == (exists|j: int| 0 <= j < t.nodes@.len() && (#[trigger] t.nodes@[j]).proof.is_some())) by {
            if t.root.is_some() {
                let w = choose|j: int| 0 <= j < i && (#[trigger] entries@[j]).proof.is_some();
                assert(node_of_entry(t.nodes@[w], entries@[w]));
                assert(t.nodes@[w].proof.is_some());
            } else {
                assert forall|j: int| 0 <= j < t.nodes@.len() implies !(#[trigger] t.nodes@[j]).proof.is_some() by {
                    assert(node_of_entry(t.nodes@[j], entries@[j]));
                    assert(!entries@[j].proof.is_some());
                }
            }
        }
        Ok(t)
    }

    /// The position of `claimant`'s node: the first one whose claimant it is.
    pub fn lookup(&self, claimant: &[u8; 32]) -> (r: Option<usize>)
        ensures
            r matches Some(i) ==> i < self.nodes@.len() && self.nodes@[i as int].claimant@ == claimant@
                && forall|j: int| 0 <= j < i ==> (#[trigger] self.nodes@[j]).claimant@ != claimant@,
            r is None ==> forall|j: int| 0 <= j < self.nodes@.len() ==> (#[trigger] self.nodes@[j]).claimant@ != claimant@,
    {
        let mut i: usize = 0;
        while i < self.nodes.len()
            invariant
                i <= self.nodes@.len(),
                forall|j: int| 0 <= j < i ==> (#[trigger] self.nodes@[j]).claimant@ != claimant@,
            decreases self.nodes@.len() - i,
        {
            if addresses_equal(&self.nodes[i].claimant, claimant) {
                return Some(i);
            }
            i = i + 1;
        }
        None
    }
}

/// The sum of the amounts of `nodes`.
pub open spec fn amount_sum(nodes: Seq<TreeNode>) -> int
    decreases nodes.len(),
{
    if nodes.len() == 0 {
        0
    } else {
        amount_sum(nodes.drop_last()) + nodes.last().amount
    }
}

impl MerkleTree {
    /// The total amount that the epoch distributes.
    pub fn total_amount(&self) -> (r: u128)
        ensures
            r as int == amount_sum(self.nodes@),
    {
        let mut total: u128 = 0;
        let mut i: usize = 0;
        while i < self.nodes.len()
            invariant
                i <= self.nodes@.len(),
                total as int == amount_sum(self.nodes@.take(i as int)),
                total as int <= i as int * 0xffff_ffff_ffff_ffff,
            decreases self.nodes@.len() - i,
        {
            assert(self.nodes@.take(i as int + 1).drop_last() =~= self.nodes@.take(i as int));
            total = total + self.nodes[i].amount as u128;
            i = i + 1;
        }
        assert(self.nodes@.take(self.nodes@.len() as int) =~= self.nodes@);
        total
    }
}

/// Whether two addresses are equal.
pub fn addresses_equal(a: &[u8; 32], b: &[u8; 32]) -> (r: bool)
    ensures
        r == (a@ == b@),
{
    let mut i: usize = 0;
    while i < 32
        invariant
            a@.len() == 32,
            b@.len() == 32,
            i <= 32,
            forall|k: int| 0 <= k < i ==> a@[k] == b@[k],
        decreases 32 - i,
    {
        if a[i] != b[i] {
            return false;
        }
        i = i + 1;
    }
    assert(a@ =~= b@);
    true
}

/// `t`'s nodes are what `entries` read as, one for one.
pub open spec fn built_from(t: MerkleTree, entries: Seq<RawEntry>) -> bool {
    &&& t.nodes@.len() == entries.len()
    &&& forall|j: int| 0 <= j < entries.len() ==> node_of_entry(#[trigger] t.nodes@[j], entries[j])
}

/// No two entries of a snapshot name the same address.
pub open spec fn entry_addresses_distinct(entries: Seq<RawEntry>) -> bool {
    forall|j: int, k: int|
        0 <= j < entries.len() && 0 <= k < entries.len() && j != k ==> base58_address_of(
            (#[trigger] entries[j]).address@,
        ) != base58_address_of((#[trigger] entries[k]).address@)
}

/// In a tree built from a snapshot whose addresses are distinct, the node that
/// lookup finds for an address stands for the one entry with that address.
pub proof fn lemma_lookup_finds_unique_entry(t: MerkleTree, entries: Seq<RawEntry>, addr: Seq<u8>, i: int)
    requires
        built_from(t, entries),
        entry_addresses_distinct(entries),
        0 <= i < t.nodes@.len(),
        t.nodes@[i].claimant@ == addr,
    ensures
        base58_address_of(entries[i].address@) == Some(addr),
        t.nodes@[i].amount == amount_of(entries[i].amount@).unwrap(),
        forall|j: int| 0 <= j < entries.len() && base58_address_of((#[trigger] entries[j]).address@) == Some(addr) ==> j == i,
{
    assert(node_of_entry(t.nodes@[i], entries[i]));
}

/// In a tree built from a snapshot, an address that lookup does not find is the
/// address of no entry.
pub proof fn lemma_lookup_misses_only_absent(t: MerkleTree, entries: Seq<RawEntry>, addr: Seq<u8>)
    requires
        built_from(t, entries),
        forall|j: int| 0 <= j < t.nodes@.len() ==> (#[trigger] t.nodes@[j]).claimant@ != addr,
    ensures
        forall|j: int| 0 <= j < entries.len() ==> base58_address_of((#[trigger] entries[j]).address@) != Some(addr),
{
    assert forall|j: int| 0 <= j < entries.len() implies base58_address_of((#[trigger] entries[j]).address@) != Some(addr) by {
        assert(node_of_entry(t.nodes@[j], entries[j]));
        assert(t.nodes@[j].claimant@ != addr);
    }
}

/// Every snapshot entry that carries a proof, combined with its address and
/// amount, verifies against the root of the tree built from the snapshot.
pub proof fn lemma_entry_proof_verifies(t: MerkleTree, entries: Seq<RawEntry>, i: int)
    requires
        t.well_formed(),
        built_from(t, entries),
        0 <= i < entries.len(),
        entries[i].proof.is_some(),
    ensures
        t.root.is_some(),
        proof_verifies(
            t.root.unwrap()@,
            base58_address_of(entries[i].address@).unwrap(),
            amount_of(entries[i].amount@).unwrap(),
            entry_proof(entries[i]).unwrap(),
        ),
{
    assert(node_of_entry(t.nodes@[i], entries[i]));
    assert(t.nodes@[i].proof.is_some());
}

} // verus!
