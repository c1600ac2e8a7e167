use world_tree::hash::Field;
use world_tree::merkle::verify_proof;
use world_tree::service::WorldTree;
use world_tree::tree::ProofError;
use world_tree::updater::{ObservedBatch, WriteCall};

#[test]
fn proofs_are_served_once_synced() {
    let mut wt = WorldTree::new(2, 3, 50, 100);
    assert_eq!(wt.inclusion_proof(Field::zero(), None).unwrap_err(), ProofError::NotSynced);
    assert_eq!(wt.next_range(60), Some((50, 60)));

    let mut scratch = WorldTree::new(2, 3, 0, 0);
    let r1 = scratch.tree_data.append(&vec![(2, Field::from_u64(9))]);
    let batch = ObservedBatch {
        pre_root: Some(wt.tree_data.current_root()),
        post_root: r1,
        call: WriteCall::Register { start_index: 2, commitments: vec![Field::from_u64(9)] },
    };
    assert_eq!(wt.apply_range(60, &vec![batch]), Ok(()));
    assert_eq!(wt.next_range(60), None);
    let p = wt.inclusion_proof(Field::from_u64(9), None).expect("proof after sync");
    assert!(verify_proof(Field::from_u64(9), &p, r1));
}

#[test]
fn sync_step_on_world_tree() {
    let mut wt = WorldTree::new(2, 2, 5, 10);
    assert_eq!(wt.sync_step(4, &vec![]), Ok(()));
    assert!(wt.tree_updater.synced);
    assert!(wt.inclusion_proof(Field::zero(), None).is_ok());
}
