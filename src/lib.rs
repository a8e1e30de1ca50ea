//! Claiming subsidy rewards from a merkle distributor: address derivation,
//! the merkle snapshot model, and the decisions of the claim workflow.

pub mod address;
pub mod claim;
pub mod commands;
pub mod merkle;
