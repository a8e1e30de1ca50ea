use std::str::FromStr;

use bam_boost::address::{associated_token_address, claim_status_address, distributor_address};
use bam_boost::claim::{
    prepare_claim, read_claim_status, resolve_claim_accounts, resolve_claim_status_address,
    ClaimConfig, ClaimError, PlannedInstruction,
};
use bam_boost::commands::NetworkArg;
use bam_boost::merkle::{MerkleTree, RawEntry};
use sha2::{Digest, Sha256};
use solana_pubkey::Pubkey;

const MINT: &str = "J1toso1uCk3RLmjorhTtrVwY9HJ7X8V9yYac6Y7kGCPn";
const PROGRAM: &str = "BgKUXdS29YcHCFrPm5M8oLHiTzZaMDjsebggjoaQ6KFL";
const CLAIMANT_A: &str = "Jito4APyf642JPZPx3hGc6WWJ8zPKtRbRs4P815Awbb";
const CLAIMANT_B: &str = "5eosrve6LktMZgVNszYzebgmmC7BjLK8NoWyRQtcmGTF";
const TOKEN_PROGRAM: &str = "TokenkegQfeZyiNwAJbNbGKPFXCWuBvf9Ss623VQ5DA";

fn key(s: &str) -> [u8; 32] {
    Pubkey::from_str(s).unwrap().to_bytes()
}

fn config() -> ClaimConfig {
    ClaimConfig { program_id: key(PROGRAM), mint: key(MINT), token_program: key(TOKEN_PROGRAM) }
}

fn tree_of_a(proof: Option<Vec<Vec<u8>>>) -> MerkleTree {
    let entries = vec![RawEntry { address: CLAIMANT_A.to_string(), amount: "1000".to_string(), proof }];
    MerkleTree::build(&entries).unwrap()
}

fn h1() -> Vec<u8> {
    vec![0x11u8; 32]
}

fn h2() -> Vec<u8> {
    vec![0x22u8; 32]
}

#[test]
fn network_names() {
    assert_eq!(NetworkArg::Mainnet.name(), "mainnet");
    assert_eq!(NetworkArg::Testnet.name(), "testnet");
}

#[test]
fn claim_requires_signer() {
    assert_eq!(resolve_claim_accounts(&config(), None, 5).err(), Some(ClaimError::Config));
}

#[test]
fn claim_accounts_are_derived() {
    let cfg = config();
    let a = key(CLAIMANT_A);
    let acc = resolve_claim_accounts(&cfg, Some(a), 5).unwrap();
    let d = distributor_address(&cfg.mint, 5, &cfg.program_id).unwrap();
    assert_eq!(acc.claimant, a);
    assert_eq!(acc.distributor, d);
    assert_eq!(acc.claim_status, claim_status_address(&a, &d, &cfg.program_id).unwrap());
    assert_eq!(acc.distributor_token, associated_token_address(&d, &cfg.mint, &cfg.token_program).unwrap());
    assert_eq!(acc.claimant_token, associated_token_address(&a, &cfg.mint, &cfg.token_program).unwrap());
    assert_eq!(resolve_claim_status_address(&cfg, &a, 5), Ok(acc.claim_status));
}

#[test]
fn claim_builds_amount_and_proof() {
    let cfg = config();
    let acc = resolve_claim_accounts(&cfg, Some(key(CLAIMANT_A)), 5).unwrap();
    let tree = tree_of_a(Some(vec![h1(), h2()]));
    let ixs = prepare_claim(&cfg, &acc, &tree, false).unwrap();
    assert_eq!(ixs.len(), 2);
    match &ixs[0] {
        PlannedInstruction::CreateTokenAccount { payer, owner, mint, token_program } => {
            assert_eq!(*payer, acc.claimant);
            assert_eq!(*owner, acc.claimant);
            assert_eq!(*mint, cfg.mint);
            assert_eq!(*token_program, cfg.token_program);
        }
        _ => panic!("account creation must come first"),
    }
    match &ixs[1] {
        PlannedInstruction::Claim { distributor, claim_status, from, to, claimant, token_program, amount, proof } => {
            assert_eq!(*distributor, distributor_address(&cfg.mint, 5, &cfg.program_id).unwrap());
            assert_eq!(*claim_status, acc.claim_status);
            assert_eq!(*from, acc.distributor_token);
            assert_eq!(*to, acc.claimant_token);
            assert_eq!(*claimant, acc.claimant);
            assert_eq!(*token_program, cfg.token_program);
            assert_eq!(*amount, 1000);
            assert_eq!(*proof, vec![h1(), h2()]);
        }
        _ => panic!("claim must come second"),
    }
}

#[test]
fn claimant_absent_is_not_found() {
    let cfg = config();
    let acc = resolve_claim_accounts(&cfg, Some(key(CLAIMANT_B)), 5).unwrap();
    let tree = tree_of_a(Some(vec![h1(), h2()]));
    assert_eq!(prepare_claim(&cfg, &acc, &tree, false).err(), Some(ClaimError::ClaimantNotFound));
    assert_eq!(prepare_claim(&cfg, &acc, &tree, true).err(), Some(ClaimError::ClaimantNotFound));
}

#[test]
fn claim_status_present_is_already_claimed() {
    let cfg = config();
    let acc = resolve_claim_accounts(&cfg, Some(key(CLAIMANT_A)), 5).unwrap();
    let tree = tree_of_a(Some(vec![h1(), h2()]));
    assert_eq!(prepare_claim(&cfg, &acc, &tree, true).err(), Some(ClaimError::AlreadyClaimed));
}

#[test]
fn claim_twice_second_already_claimed() {
    let cfg = config();
    let acc = resolve_claim_accounts(&cfg, Some(key(CLAIMANT_A)), 7).unwrap();
    let tree = tree_of_a(Some(vec![h1()]));
    assert!(prepare_claim(&cfg, &acc, &tree, false).is_ok());
    assert_eq!(prepare_claim(&cfg, &acc, &tree, true).err(), Some(ClaimError::AlreadyClaimed));
}

#[test]
fn entry_without_proof_is_proof_missing() {
    let cfg = config();
    let acc = resolve_claim_accounts(&cfg, Some(key(CLAIMANT_A)), 5).unwrap();
    let tree = tree_of_a(None);
    assert_eq!(prepare_claim(&cfg, &acc, &tree, false).err(), Some(ClaimError::ProofMissing));
}

fn discriminator() -> Vec<u8> {
    Sha256::digest(b"account:ClaimStatus")[..8].to_vec()
}

#[test]
fn status_absent_is_not_found() {
    assert_eq!(read_claim_status(None), Err(ClaimError::NotFound));
}

#[test]
fn status_corrupt_is_decode_error() {
    assert_eq!(read_claim_status(Some(vec![1, 2, 3])), Err(ClaimError::Decode));
    assert_eq!(read_claim_status(Some(vec![0u8; 40])), Err(ClaimError::Decode));
}

#[test]
fn status_record_is_read() {
    let mut data = discriminator();
    data.extend_from_slice(&[5u8; 40]);
    assert_eq!(read_claim_status(Some(data.clone())), Ok(data));
}
