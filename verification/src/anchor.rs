//! The anchor of a wallet that is created or restored: the chain facts that it needs
//! before its first pass.
use crate::network::{NetworkUpgrade, SlipstreamNetwork};
use vstd::prelude::*;

verus! {

/// How far below the tip a new wallet's tree state is taken, so that a reorg of the tip
/// cannot hide funds from it.
pub const ANCHOR_MAX_REORG_BLOCKS: u64 = 100;

/// What the wallet is.
#[derive(Debug, Clone, Copy, PartialEq, Eq, Structural)]
pub enum AnchorIntent {
    /// Restored from a birthday on; the host's latest bundled checkpoint stands in for the
    /// tip where there is no server.
    Restore { birthday: u64, fallback_checkpoint: u64 },
    /// New, without a history.
    New,
}

/// The state of the note commitment trees after a block, as a server sends it.
#[derive(Debug)]
pub struct TreeState {
    pub network: String,
    pub height: u64,
    pub hash: String,
    pub time: u32,
    pub sapling_tree: String,
    pub orchard_tree: String,
    pub ironwood_tree: String,
}

/// The anchor. A restored wallet gets the height up to which it recovers, and never a tree
/// state; a new one gets a tree state and its height, or neither, and then keeps its
/// bundled checkpoint.
#[derive(Debug)]
pub struct Anchor {
    pub height: u64,
    pub treestate: Option<TreeState>,
}

/// The height of the anchor where there is no server.
pub open spec fn offline_height(intent: AnchorIntent) -> u64 {
    match intent {
        AnchorIntent::Restore { birthday, fallback_checkpoint } => {
            let next = if birthday < u64::MAX {
                (birthday + 1) as u64
            } else {
                u64::MAX
            };
            if fallback_checkpoint >= next {
                fallback_checkpoint
            } else {
                next
            }
        },
        AnchorIntent::New => 0,
    }
}

/// The anchor where there is no server, and where Tor was asked for and does not come
/// up: nothing is dialed directly then.
pub fn offline_anchor(intent: AnchorIntent) -> (r: Anchor)
    ensures
        r == (Anchor { height: offline_height(intent), treestate: None }),
{
    match intent {
        AnchorIntent::Restore { birthday, fallback_checkpoint } => {
            let next: u64 = birthday.saturating_add(1);
            let height: u64 = if fallback_checkpoint >= next {
                fallback_checkpoint
            } else {
                next
            };
            Anchor { height, treestate: None }
        },
        AnchorIntent::New => Anchor { height: 0, treestate: None },
    }
}

/// The height of the tree state that a new wallet asks for: so far below the tip that a
/// reorg does not matter, but not before Sapling.
pub open spec fn tree_height_spec(network: SlipstreamNetwork, tip: u64) -> u64 {
    let below = if tip >= ANCHOR_MAX_REORG_BLOCKS {
        (tip - ANCHOR_MAX_REORG_BLOCKS) as u64
    } else {
        0
    };
    let sapling = match network.height_of(NetworkUpgrade::Sapling) {
        Some(h) => h as u64,
        None => 0,
    };
    if below >= sapling {
        below
    } else {
        sapling
    }
}

/// The height of the tree state that a new wallet asks for.
pub fn anchor_tree_height(network: &SlipstreamNetwork, tip: u64) -> (r: u64)
    ensures
        r == tree_height_spec(*network, tip),
{
    let sapling: u64 = match network.activation_height(NetworkUpgrade::Sapling) {
        Some(h) => h as u64,
        None => 0,
    };
    let below: u64 = tip.saturating_sub(ANCHOR_MAX_REORG_BLOCKS);
    if below >= sapling {
        below
    } else {
        sapling
    }
}

/// The anchor of a wallet, from what the server answered: its tip, and for a new wallet
/// the tree state at [`anchor_tree_height`]. Either is missing where the server could not
/// be reached. A tree state's own height counts.
pub fn restore_anchor(intent: AnchorIntent, tip: Option<u64>, treestate: Option<TreeState>) -> (r:
    Anchor)
    ensures
        r == match intent {
            AnchorIntent::Restore { birthday, fallback_checkpoint } => Anchor {
                height: match tip {
                    Some(t) => t,
                    None => offline_height(intent),
                },
                treestate: None,
            },
            AnchorIntent::New => if tip is Some && treestate is Some {
                Anchor { height: treestate->Some_0.height, treestate }
            } else {
                Anchor { height: 0, treestate: None }
            },
        },
{
    match intent {
        AnchorIntent::Restore { birthday, fallback_checkpoint } => match tip {
            Some(t) => Anchor { height: t, treestate: None },
            None => offline_anchor(intent),
        },
        AnchorIntent::New => {
            if tip.is_none() {
                return offline_anchor(intent);
            }
            match treestate {
                Some(ts) => Anchor { height: ts.height, treestate: Some(ts) },
                None => offline_anchor(intent),
            }
        },
    }
}

/// Without a server a restored wallet still has something to recover: it recovers up to a
/// height above its birthday, as far as there is one.
pub proof fn law_offline_restore_is_not_empty(birthday: u64, fallback_checkpoint: u64)
    requires
        birthday < u64::MAX,
    ensures
        offline_height(AnchorIntent::Restore { birthday, fallback_checkpoint }) > birthday,
        offline_height(AnchorIntent::Restore { birthday, fallback_checkpoint })
            >= fallback_checkpoint,
{
}

/// A new wallet's tree state is as far below the tip as a reorg reaches, unless that
/// would be before Sapling, and never before Sapling.
pub proof fn law_new_anchor_is_reorg_safe(network: SlipstreamNetwork, tip: u64, sapling: u32)
    requires
        network.height_of(NetworkUpgrade::Sapling) == Some(sapling),
    ensures
        tree_height_spec(network, tip) >= sapling,
        tip >= sapling + ANCHOR_MAX_REORG_BLOCKS ==> tree_height_spec(network, tip)
            + ANCHOR_MAX_REORG_BLOCKS == tip,
{
}

/// Without a server a restored wallet recovers up to the later one of its checkpoint and the
/// block after its birthday, and a new one has no height.
pub proof fn law_offline_height_is_the_later_one(birthday: u64, fallback_checkpoint: u64)
    ensures
        ({
            let h = offline_height(AnchorIntent::Restore { birthday, fallback_checkpoint });
            &&& h == fallback_checkpoint || h == birthday + 1 || h == u64::MAX
            &&& h >= fallback_checkpoint
            &&& h > birthday || h == u64::MAX
            &&& h > fallback_checkpoint ==> h <= birthday + 1
        }),
        offline_height(AnchorIntent::New) == 0,
{
}

/// A new wallet's tree state is the later one of Sapling's first block and the block a hundred
/// below the tip; without Sapling it is the latter, and zero near the start of the chain.
pub proof fn law_tree_height_is_the_later_one(network: SlipstreamNetwork, tip: u64)
    ensures
        ({
            let h = tree_height_spec(network, tip);
            let sapling = match network.height_of(NetworkUpgrade::Sapling) {
                Some(s) => s as int,
                None => 0,
            };
            &&& h >= sapling
            &&& h >= tip - 100
            &&& h == sapling || h == tip - 100 || h == 0
        }),
{
}

} // verus!
