//! The decisions of a claim and of a claim-status query: which accounts take
//! part, whether the claimant may claim, and which instructions to send.

use vstd::prelude::*;

use crate::address::{
    associated_token_address, associated_token_seeds, claim_status_address, claim_status_seeds,
    distributor_address, distributor_seeds, program_address_of, ASSOCIATED_TOKEN_PROGRAM_ID,
};
use crate::address::str_bytes;
use crate::merkle::{copy_hashes, node_proof, sha256, sha256_of, MerkleTree, TreeError};
use vstd::string::StringSliceAdditionalSpecFns;

verus! {

/// Why a claim or a status query stopped.
#[derive(Debug, Clone, Copy, PartialEq, Eq, Structural)]
pub enum ClaimError {
    /// A required input, the signer, was not given.
    Config,
    /// An address derivation found no address.
    Derivation,
    /// The snapshot could not be fetched.
    Fetch,
    /// The snapshot was not JSON of the expected shape.
    Parse,
    /// The snapshot's entries did not make a tree.
    MalformedTree(TreeError),
    /// The claimant has no entry in the epoch's snapshot.
    ClaimantNotFound,
    /// The claimant's entry carries no proof.
    ProofMissing,
    /// The claim-status account exists: the epoch was already claimed.
    AlreadyClaimed,
    /// The ledger refused or did not confirm the transaction.
    Transaction,
    /// No claim-status record exists at the derived address.
    NotFound,
    /// The stored record does not have the claim-status layout.
    Decode,
}

/// Where a claim reads and writes: the distributor program, the mint of the
/// rewards, and the token program that holds them.
#[derive(Debug, Clone, Copy)]
pub struct ClaimConfig {
    pub program_id: [u8; 32],
    pub mint: [u8; 32],
    pub token_program: [u8; 32],
}

/// The accounts of one claimant's claim for one epoch.
#[derive(Debug, Clone, Copy)]
pub struct ClaimAccounts {
    pub claimant: [u8; 32],
    pub distributor: [u8; 32],
    pub distributor_token: [u8; 32],
    pub claim_status: [u8; 32],
    pub claimant_token: [u8; 32],
}

/// The derived address for `seeds` under `program`, where there is one.
pub open spec fn derived(seeds: Seq<Seq<u8>>, program: Seq<u8>) -> Seq<u8> {
    program_address_of(seeds, program).unwrap()
}

/// Whether every derivation of a claim by `claimant` in `epoch` finds an address.
pub open spec fn claim_accounts_exist(config: ClaimConfig, claimant: Seq<u8>, epoch: u64) -> bool {
    let d = derived(distributor_seeds(config.mint@, epoch), config.program_id@);
    &&& program_address_of(distributor_seeds(config.mint@, epoch), config.program_id@).is_some()
    &&& program_address_of(associated_token_seeds(d, config.mint@, config.token_program@), ASSOCIATED_TOKEN_PROGRAM_ID@).is_some()
    &&& program_address_of(claim_status_seeds(claimant, d), config.program_id@).is_some()
    &&& program_address_of(associated_token_seeds(claimant, config.mint@, config.token_program@), ASSOCIATED_TOKEN_PROGRAM_ID@).is_some()
}

/// `a` holds the accounts of a claim by `claimant` in `epoch`.
pub open spec fn claim_accounts_are(a: ClaimAccounts, config: ClaimConfig, claimant: Seq<u8>, epoch: u64) -> bool {
    let d = derived(distributor_seeds(config.mint@, epoch), config.program_id@);
    &&& a.claimant@ == claimant
    &&& a.distributor@ == d
    &&& a.distributor_token@ == derived(associated_token_seeds(d, config.mint@, config.token_program@), ASSOCIATED_TOKEN_PROGRAM_ID@)
    &&& a.claim_status@ == derived(claim_status_seeds(claimant, d), config.program_id@)
    &&& a.claimant_token@ == derived(associated_token_seeds(claimant, config.mint@, config.token_program@), ASSOCIATED_TOKEN_PROGRAM_ID@)
}

/// Resolves the accounts of a claim in `epoch` by `signer`: the distributor of
/// the mint for the epoch, its token account, the signer's claim-status record
/// and the signer's token account.
pub fn resolve_claim_accounts(config: &ClaimConfig, signer: Option<[u8; 32]>, epoch: u64) -> (r: Result<ClaimAccounts, ClaimError>)
    ensures
        signer is None ==> r == Err::<ClaimAccounts, ClaimError>(ClaimError::Config),
        signer matches Some(s) ==> {
            &&& r.is_ok() == claim_accounts_exist(*config, s@, epoch)
            &&& r matches Ok(a) ==> claim_accounts_are(a, *config, s@, epoch)
            &&& r is Err ==> r == Err::<ClaimAccounts, ClaimError>(ClaimError::Derivation)
        },
{
    let claimant = match signer {
        Some(s) => s,
        None => {
            return Err(ClaimError::Config);
        },
    };
    let distributor = match distributor_address(&config.mint, epoch, &config.program_id) {
        Some(d) => d,
        None => {
            return Err(ClaimError::Derivation);
        },
    };
    let distributor_token = match associated_token_address(&distributor, &config.mint, &config.token_program) {
        Some(a) => a,
        None => {
            return Err(ClaimError::Derivation);
        },
    };
    let claim_status = match claim_status_address(&claimant, &distributor, &config.program_id) {
        Some(a) => a,
        None => {
            return Err(ClaimError::Derivation);
        },
    };
    let claimant_token = match associated_token_address(&claimant, &config.mint, &config.token_program) {
        Some(a) => a,
        None => {
            return Err(ClaimError::Derivation);
        },
    };
    Ok(ClaimAccounts { claimant, distributor, distributor_token, claim_status, claimant_token })
}

/// Resolves the claim-status record of `claimant` for `epoch`.
pub fn resolve_claim_status_address(config: &ClaimConfig, claimant: &[u8; 32], epoch: u64) -> (r: Result<[u8; 32], ClaimError>)
    ensures
        r.is_ok() == (program_address_of(distributor_seeds(config.mint@, epoch), config.program_id@).is_some()
            && program_address_of(
                claim_status_seeds(claimant@, derived(distributor_seeds(config.mint@, epoch), config.program_id@)),
                config.program_id@,
            ).is_some()),
        r matches Ok(a) ==> a@ == derived(
            claim_status_seeds(claimant@, derived(distributor_seeds(config.mint@, epoch), config.program_id@)),
            config.program_id@,
        ),
        r is Err ==> r == Err::<[u8; 32], ClaimError>(ClaimError::Derivation),
{
    let distributor = match distributor_address(&config.mint, epoch, &config.program_id) {
        Some(d) => d,
        None => {
            return Err(ClaimError::Derivation);
        },
    };
    match claim_status_address(claimant, &distributor, &config.program_id) {
        Some(a) => Ok(a),
        None => Err(ClaimError::Derivation),
    }
}

/// An instruction of a claim transaction.
pub enum PlannedInstruction {
    /// Create `owner`'s token account for `mint`, paid by `payer`, unless it exists.
    CreateTokenAccount { payer: [u8; 32], owner: [u8; 32], mint: [u8; 32], token_program: [u8; 32] },
    /// Pay `amount` from the distributor's token account `from` to the claimant's
    /// `to`, against the merkle `proof`, recording the claim at `claim_status`.
    Claim {
        distributor: [u8; 32],
        claim_status: [u8; 32],
        from: [u8; 32],
        to: [u8; 32],
        claimant: [u8; 32],
        token_program: [u8; 32],
        amount: u64,
        proof: Vec<Vec<u8>>,
    },
}

/// `i` is the first node of `t` whose claimant is `c`.
pub open spec fn first_node_of(t: MerkleTree, c: Seq<u8>, i: int) -> bool {
    &&& 0 <= i < t.nodes@.len()
    &&& t.nodes@[i].claimant@ == c
    &&& forall|j: int| 0 <= j < i ==> (#[trigger] t.nodes@[j]).claimant@ != c
}

/// Whether claimant `c` may claim from `t`, given whether its claim-status record
/// exists, and with which node: not found, then proof missing, then already claimed.
pub open spec fn claim_decision(t: MerkleTree, c: Seq<u8>, status_exists: bool) -> Result<int, ClaimError> {
    if exists|i: int| first_node_of(t, c, i) {
        let i = choose|i: int| first_node_of(t, c, i);
        if t.nodes@[i].proof is None {
            Err(ClaimError::ProofMissing)
        } else if status_exists {
            Err(ClaimError::AlreadyClaimed)
        } else {
            Ok(i)
        }
    } else {
        Err(ClaimError::ClaimantNotFound)
    }
}

/// `ixs` creates the claimant's token account and then claims `amount` with `hashes`.
pub open spec fn claim_instructions_are(
    ixs: Seq<PlannedInstruction>,
    config: ClaimConfig,
    a: ClaimAccounts,
    amount: u64,
    hashes: Seq<Seq<u8>>,
) -> bool {
    &&& ixs.len() == 2
    &&& ixs[0] matches PlannedInstruction::CreateTokenAccount { payer, owner, mint, token_program }
        && payer@ == a.claimant@ && owner@ == a.claimant@ && mint@ == config.mint@
        && token_program@ == config.token_program@
    &&& ixs[1] matches PlannedInstruction::Claim { distributor, claim_status, from, to, claimant, token_program, amount: amt, proof: p }
        && distributor@ == a.distributor@ && claim_status@ == a.claim_status@
        && from@ == a.distributor_token@ && to@ == a.claimant_token@ && claimant@ == a.claimant@
        && token_program@ == config.token_program@ && amt == amount && p.deep_view() == hashes
}

proof fn lemma_first_node_unique(t: MerkleTree, c: Seq<u8>, i: int, k: int)
    requires
        first_node_of(t, c, i),
        first_node_of(t, c, k),
    ensures
        i == k,
{
    if i < k {
        assert(t.nodes@[i].claimant@ != c);
    } else if k < i {
        assert(t.nodes@[k].claimant@ != c);
    }
}

/// Decides a claim of `accounts.claimant` from `tree`, given whether the
/// claim-status record already exists: the claimant's node must be found and
/// carry a proof, and the record must not exist; then the two instructions of
/// the claim, account creation first.
pub fn prepare_claim(config: &ClaimConfig, accounts: &ClaimAccounts, tree: &MerkleTree, status_exists: bool) -> (r: Result<Vec<PlannedInstruction>, ClaimError>)
    ensures
        match claim_decision(*tree, accounts.claimant@, status_exists) {
            Ok(i) => r matches Ok(ixs) && claim_instructions_are(
                ixs@,
                *config,
                *accounts,
                tree.nodes@[i].amount,
                node_proof(tree.nodes@[i]).unwrap(),
            ),
            Err(e) => r == Err::<Vec<PlannedInstruction>, ClaimError>(e),
        },
{
    let i = match tree.lookup(&accounts.claimant) {
        Some(i) => i,
        None => {
            return Err(ClaimError::ClaimantNotFound);
        },
    };
    proof {
        assert(first_node_of(*tree, accounts.claimant@, i as int));
        let k = choose|k: int| first_node_of(*tree, accounts.claimant@, k);
        lemma_first_node_unique(*tree, accounts.claimant@, i as int, k);
    }
    let node = &tree.nodes[i];
    let stored = &node.proof;
    let hashes = match stored {
        Some(p) => copy_hashes(p),
        None => {
            return Err(ClaimError::ProofMissing);
        },
    };
    if status_exists {
        return Err(ClaimError::AlreadyClaimed);
    }
    let mut ixs: Vec<PlannedInstruction> = Vec::new();
    ixs.push(PlannedInstruction::CreateTokenAccount {
        payer: accounts.claimant,
        owner: accounts.claimant,
        mint: config.mint,
        token_program: config.token_program,
    });
    ixs.push(PlannedInstruction::Claim {
        distributor: accounts.distributor,
        claim_status: accounts.claim_status,
        from: accounts.distributor_token,
        to: accounts.claimant_token,
        claimant: accounts.claimant,
        token_program: config.token_program,
        amount: node.amount,
        proof: hashes,
    });
    Ok(ixs)
}

/// A claim is made once: where a claim with no claim-status record goes ahead,
/// the same claim once the record exists stops with `AlreadyClaimed`, and
/// `prepare_claim` then yields no instruction.
pub proof fn lemma_claim_idempotent(t: MerkleTree, c: Seq<u8>)
    requires
        claim_decision(t, c, false) is Ok,
    ensures
        claim_decision(t, c, true) == Err::<int, ClaimError>(ClaimError::AlreadyClaimed),
{
}

/// The leading bytes that mark a stored claim-status record.
pub open spec fn claim_status_discriminator() -> Seq<u8> {
    sha256_of("account:ClaimStatus".spec_bytes()).take(8)
}

/// Reads a fetched claim-status account: `NotFound` where there is none,
/// `Decode` where its bytes do not start with the record's discriminator,
/// else the record.
pub fn read_claim_status(account: Option<Vec<u8>>) -> (r: Result<Vec<u8>, ClaimError>)
    ensures
        account is None ==> r == Err::<Vec<u8>, ClaimError>(ClaimError::NotFound),
        account matches Some(d) ==> {
            if d@.len() >= 8 && d@.take(8) == claim_status_discriminator() {
                r matches Ok(v) && v@ == d@
            } else {
                r == Err::<Vec<u8>, ClaimError>(ClaimError::Decode)
            }
        },
{
    let data = match account {
        Some(d) => d,
        None => {
            return Err(ClaimError::NotFound);
        },
    };
    let name = str_bytes("account:ClaimStatus");
    let digest = sha256(&name);
    if data.len() < 8 {
        return Err(ClaimError::Decode);
    }
    let mut i: usize = 0;
    while i < 8
        invariant
            i <= 8,
            account is Some && account.unwrap()@ == data@,
            data@.len() >= 8,
            digest@.len() == 32,
            digest@ == sha256_of("account:ClaimStatus".spec_bytes()),
            forall|k: int| 0 <= k < i ==> data@[k] == digest@[k],
        decreases 8 - i,
    {
        if data[i] != digest[i] {
            assert(data@.take(8)[i as int] != claim_status_discriminator()[i as int]);
            return Err(ClaimError::Decode);
        }
        i = i + 1;
    }
    assert(data@.take(8) =~= claim_status_discriminator());
    Ok(data)
}

} // verus!
