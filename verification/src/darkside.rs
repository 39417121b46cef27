//! The chain that integration tests stage on a darkside lightwalletd.
use crate::error::SlipstreamError;
use vstd::prelude::*;

verus! {

/// The height at which Sapling activates on the staged chain.
pub const SAPLING_ACTIVATION: i32 = 663_150;

/// The consensus branch of the staged chain.
pub const BRANCH_ID: &'static str = "2bb40e60";

/// The name of the staged chain.
pub const CHAIN_NAME: &'static str = "main";

/// What a reset stages.
#[derive(Debug)]
pub struct MetaState {
    pub sapling_activation: i32,
    pub branch_id: String,
    pub chain_name: String,
    pub start_sapling_commitment_tree_size: u32,
    pub start_orchard_commitment_tree_size: u32,
}

/// A reset to an empty chain whose trees have the given sizes.
pub fn reset_with_tree_sizes(
    start_sapling_commitment_tree_size: u32,
    start_orchard_commitment_tree_size: u32,
) -> (r: MetaState)
    ensures
        r.sapling_activation == 663_150,
        r.branch_id@ == "2bb40e60"@,
        r.chain_name@ == "main"@,
        r.start_sapling_commitment_tree_size == start_sapling_commitment_tree_size,
        r.start_orchard_commitment_tree_size == start_orchard_commitment_tree_size,
{
    MetaState {
        sapling_activation: SAPLING_ACTIVATION,
        branch_id: BRANCH_ID.to_owned(),
        chain_name: CHAIN_NAME.to_owned(),
        start_sapling_commitment_tree_size,
        start_orchard_commitment_tree_size,
    }
}

/// A reset to an empty chain with empty trees.
pub fn reset() -> (r: MetaState)
    ensures
        r.sapling_activation == 663_150,
        r.branch_id@ == "2bb40e60"@,
        r.chain_name@ == "main"@,
        r.start_sapling_commitment_tree_size == 0,
        r.start_orchard_commitment_tree_size == 0,
{
    reset_with_tree_sizes(0, 0)
}

/// A failure of the control plane in a context.
pub fn darkside_err(context: &str, e: &str) -> (r: SlipstreamError)
    ensures
        r matches SlipstreamError::Transport(m) && m@ == "darkside "@ + context@ + ": "@ + e@,
{
    let mut m: String = "darkside ".to_owned();
    m.push_str(context);
    m.push_str(": ");
    m.push_str(e);
    SlipstreamError::Transport(m)
}

} // verus!
