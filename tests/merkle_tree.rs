use std::str::FromStr;

use bam_boost::merkle::{
    compute_leaf_hash, compute_node_hash, parse_amount, verify_proof, MerkleTree, RawEntry,
    TreeError,
};
use sha2::{Digest, Sha256};
use solana_pubkey::Pubkey;

const ADDR_A: &str = "J1toso1uCk3RLmjorhTtrVwY9HJ7X8V9yYac6Y7kGCPn";
const ADDR_B: &str = "Jito4APyf642JPZPx3hGc6WWJ8zPKtRbRs4P815Awbb";
const ADDR_C: &str = "BgKUXdS29YcHCFrPm5M8oLHiTzZaMDjsebggjoaQ6KFL";

fn key(s: &str) -> [u8; 32] {
    Pubkey::from_str(s).unwrap().to_bytes()
}

fn sha(parts: &[&[u8]]) -> Vec<u8> {
    let mut h = Sha256::new();
    for p in parts {
        h.update(p);
    }
    h.finalize().to_vec()
}

fn leaf(addr: &[u8; 32], amount: u64) -> Vec<u8> {
    let inner = sha(&[addr, &amount.to_le_bytes()]);
    sha(&[&[0u8], &inner])
}

fn node(a: &[u8], b: &[u8]) -> Vec<u8> {
    if a <= b {
        sha(&[&[1u8], a, b])
    } else {
        sha(&[&[1u8], b, a])
    }
}

fn entry(address: &str, amount: &str, proof: Option<Vec<Vec<u8>>>) -> RawEntry {
    RawEntry { address: address.to_string(), amount: amount.to_string(), proof }
}

#[test]
fn amount_reads_decimal() {
    assert_eq!(parse_amount("1000"), Some(1000));
    assert_eq!(parse_amount("0"), Some(0));
    assert_eq!(parse_amount("18446744073709551615"), Some(u64::MAX));
}

#[test]
fn amount_refuses_non_numeric_and_overflow() {
    assert_eq!(parse_amount(""), None);
    assert_eq!(parse_amount("12a"), None);
    assert_eq!(parse_amount("-5"), None);
    assert_eq!(parse_amount("18446744073709551616"), None);
    assert_eq!(parse_amount("99999999999999999999999"), None);
}

#[test]
fn leaf_hash_matches_digest_layout() {
    let a = key(ADDR_A);
    assert_eq!(compute_leaf_hash(&a, 1000), leaf(&a, 1000));
    assert_ne!(compute_leaf_hash(&a, 1000), compute_leaf_hash(&a, 1001));
}

#[test]
fn node_hash_orders_children() {
    let x = vec![1u8; 32];
    let y = vec![2u8; 32];
    assert_eq!(compute_node_hash(&x, &y), node(&x, &y));
    assert_eq!(compute_node_hash(&y, &x), compute_node_hash(&x, &y));
}

#[test]
fn verify_proof_accepts_root_and_rejects_other() {
    let a = key(ADDR_A);
    let h1 = vec![7u8; 32];
    let h2 = vec![9u8; 32];
    let root = node(&node(&leaf(&a, 1000), &h1), &h2);
    let proof = vec![h1.clone(), h2.clone()];
    assert!(verify_proof(&root, &a, 1000, &proof));
    assert!(!verify_proof(&root, &a, 999, &proof));
    assert!(!verify_proof(&root, &a, 1000, &vec![h2, h1]));
}

#[test]
fn build_single_entry_tree() {
    let a = key(ADDR_A);
    let h1 = vec![7u8; 32];
    let h2 = vec![9u8; 32];
    let entries = vec![entry(ADDR_A, "1000", Some(vec![h1.clone(), h2.clone()]))];
    let tree = MerkleTree::build(&entries).unwrap();
    assert_eq!(tree.nodes.len(), 1);
    assert_eq!(tree.nodes[0].claimant, a);
    assert_eq!(tree.nodes[0].amount, 1000);
    assert_eq!(tree.nodes[0].proof, Some(vec![h1.clone(), h2.clone()]));
    let expected_root = node(&node(&leaf(&a, 1000), &h1), &h2);
    assert_eq!(tree.root, Some(expected_root));
}

#[test]
fn build_two_leaf_tree_roots_agree() {
    let a = key(ADDR_A);
    let b = key(ADDR_B);
    let la = leaf(&a, 5);
    let lb = leaf(&b, 6);
    let entries = vec![
        entry(ADDR_A, "5", Some(vec![lb.clone()])),
        entry(ADDR_B, "6", Some(vec![la.clone()])),
    ];
    let tree = MerkleTree::build(&entries).unwrap();
    assert_eq!(tree.root, Some(node(&la, &lb)));
    for n in &tree.nodes {
        assert!(verify_proof(tree.root.as_ref().unwrap(), &n.claimant, n.amount, n.proof.as_ref().unwrap()));
    }
}

#[test]
fn build_empty_snapshot() {
    let tree = MerkleTree::build(&vec![]).unwrap();
    assert!(tree.nodes.is_empty());
    assert_eq!(tree.root, None);
}

#[test]
fn build_entry_without_proof_has_no_root() {
    let tree = MerkleTree::build(&vec![entry(ADDR_A, "10", None)]).unwrap();
    assert_eq!(tree.nodes[0].proof, None);
    assert_eq!(tree.root, None);
}

#[test]
fn build_refuses_malformed_address() {
    let entries = vec![entry(ADDR_A, "1", None), entry("not-an-address", "1", None)];
    assert_eq!(MerkleTree::build(&entries).err(), Some(TreeError::MalformedAddress { index: 1 }));
}

#[test]
fn build_refuses_malformed_amount() {
    let entries = vec![entry(ADDR_A, "1.5", None)];
    assert_eq!(MerkleTree::build(&entries).err(), Some(TreeError::MalformedAmount { index: 0 }));
}

#[test]
fn build_refuses_short_proof_hash() {
    let entries = vec![entry(ADDR_A, "1", Some(vec![vec![0u8; 31]]))];
    assert_eq!(MerkleTree::build(&entries).err(), Some(TreeError::MalformedProof { index: 0 }));
}

#[test]
fn build_refuses_disagreeing_roots() {
    let entries = vec![
        entry(ADDR_A, "1", Some(vec![vec![3u8; 32]])),
        entry(ADDR_B, "2", Some(vec![vec![4u8; 32]])),
    ];
    assert_eq!(MerkleTree::build(&entries).err(), Some(TreeError::RootMismatch { index: 1 }));
}

#[test]
fn lookup_finds_entry_or_nothing() {
    let entries = vec![entry(ADDR_A, "1", None), entry(ADDR_B, "2", None)];
    let tree = MerkleTree::build(&entries).unwrap();
    assert_eq!(tree.lookup(&key(ADDR_B)), Some(1));
    assert_eq!(tree.lookup(&key(ADDR_A)), Some(0));
    assert_eq!(tree.lookup(&key(ADDR_C)), None);
}

#[test]
fn total_amount_sums_without_overflow() {
    let entries = vec![
        entry(ADDR_A, "18446744073709551615", None),
        entry(ADDR_B, "18446744073709551615", None),
        entry(ADDR_C, "2", None),
    ];
    let tree = MerkleTree::build(&entries).unwrap();
    assert_eq!(tree.total_amount(), 2 * (u64::MAX as u128) + 2);
    assert_eq!(MerkleTree::build(&vec![]).unwrap().total_amount(), 0);
}
