//! The commands the client offers.

use vstd::prelude::*;

verus! {

/// Network whose snapshots a claim reads.
#[derive(Debug, Clone, Copy, PartialEq, Eq, Structural)]
pub enum NetworkArg {
    Mainnet,
    Testnet,
}

/// The path segment under which a network's snapshots are published.
pub open spec fn network_name(n: NetworkArg) -> Seq<char> {
    match n {
        NetworkArg::Mainnet => "mainnet"@,
        NetworkArg::Testnet => "testnet"@,
    }
}

impl NetworkArg {
    /// The path segment under which this network's snapshots are published.
    pub fn name(&self) -> (r: &'static str)
        ensures
            r@ == network_name(*self),
    {
        match self {
            NetworkArg::Mainnet => "mainnet",
            NetworkArg::Testnet => "testnet",
        }
    }
}

/// Actions on a merkle distributor.
#[derive(Debug, Clone, Copy, PartialEq, Eq, Structural)]
pub enum MerkleDistributorActions {
    Claim { network: NetworkArg, epoch: u64 },
}

/// Actions on claim-status records.
#[derive(Debug, Clone, Copy)]
pub enum ClaimStatusActions {
    Get { epoch: u64, claimant: [u8; 32] },
}

/// The command groups of the client.
#[allow(inconsistent_fields)]
#[derive(Debug, Clone, Copy)]
pub enum BamBoostCommands {
    MerkleDistributor { action: MerkleDistributorActions },
    ClaimStatus { action: ClaimStatusActions },
}

} // verus!
