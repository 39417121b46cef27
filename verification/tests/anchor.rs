//! Anchors of new and restored wallets.
use zodl_slipstream::anchor::{
    anchor_tree_height, offline_anchor, restore_anchor, AnchorIntent, TreeState,
    ANCHOR_MAX_REORG_BLOCKS,
};
use zodl_slipstream::network::SlipstreamNetwork;
use zodl_slipstream::CustomActivations;

#[test]
fn offline_restore_falls_back_to_checkpoint_floor() {
    let anchor = restore_anchor(
        AnchorIntent::Restore {
            birthday: 2_000_000,
            fallback_checkpoint: 1_500_000,
        },
        None,
        None,
    );
    assert_eq!(
        anchor.height, 2_000_001,
        "birthday newer than the bundled checkpoints ⇒ birthday+1 floor"
    );
    assert!(
        anchor.treestate.is_none(),
        "restore intent never carries a treestate"
    );

    let anchor = restore_anchor(
        AnchorIntent::Restore {
            birthday: 1_000_000,
            fallback_checkpoint: 1_500_000,
        },
        None,
        None,
    );
    assert_eq!(
        anchor.height, 1_500_000,
        "old birthday ⇒ the checkpoint estimate of now"
    );
}

#[test]
fn offline_new_wallet_yields_no_anchor() {
    let anchor = restore_anchor(AnchorIntent::New, None, None);
    assert_eq!(anchor.height, 0);
    assert!(anchor.treestate.is_none());
    let anchor = restore_anchor(AnchorIntent::New, Some(3_000_000), None);
    assert_eq!(anchor.height, 0);
    assert!(anchor.treestate.is_none());
}

fn tree(height: u64) -> TreeState {
    TreeState {
        network: "main".into(),
        height,
        hash: String::new(),
        time: 0,
        sapling_tree: String::new(),
        orchard_tree: String::new(),
        ironwood_tree: String::new(),
    }
}

#[test]
fn online_anchors_follow_the_server() {
    let restore = AnchorIntent::Restore {
        birthday: 1,
        fallback_checkpoint: 9,
    };
    let anchor = restore_anchor(restore, Some(3_000_000), Some(tree(5)));
    assert_eq!(anchor.height, 3_000_000);
    assert!(anchor.treestate.is_none());
    let anchor = restore_anchor(AnchorIntent::New, Some(3_000_000), Some(tree(2_999_899)));
    assert_eq!(anchor.height, 2_999_899, "the tree state's own height wins");
    assert!(anchor.treestate.is_some());
}

#[test]
fn new_anchor_is_reorg_safe_and_not_before_sapling() {
    let main = SlipstreamNetwork::mainnet();
    assert_eq!(
        anchor_tree_height(&main, 3_000_000),
        3_000_000 - ANCHOR_MAX_REORG_BLOCKS
    );
    assert_eq!(anchor_tree_height(&main, 419_250), 419_200);
    assert_eq!(anchor_tree_height(&main, 0), 419_200);
    let bare = SlipstreamNetwork::Custom {
        constants: main.network_type(),
        heights: CustomActivations::default(),
    };
    assert_eq!(anchor_tree_height(&bare, 50), 0);
}

#[test]
fn offline_restore_saturates() {
    let a = offline_anchor(AnchorIntent::Restore {
        birthday: u64::MAX,
        fallback_checkpoint: 0,
    });
    assert_eq!(a.height, u64::MAX);
}
