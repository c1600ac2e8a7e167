use world_tree::decode::{deletion_updates, insertion_updates, unpack_indices};
use world_tree::hash::Field;
use world_tree::merkle::{compute_root, generate_proof, hash_level, verify_proof, Branch};
use world_tree::scanner::BlockScanner;
use world_tree::tree::{ProofError, TreeData};
use world_tree::updater::{ObservedBatch, TreeUpdater, UpdateError, WriteCall};

fn f(v: u64) -> Field {
    Field::from_u64(v)
}

fn root_after(depth: usize, updates: &Vec<(u32, Field)>) -> Field {
    let mut t = TreeData::new(depth, 4);
    t.append(updates)
}

#[test]
fn empty_pair_root_is_known_poseidon_value() {
    let t = TreeData::new(1, 2);
    let expected = Field {
        l0: 0xa839_ee84_46b6_4864,
        l1: 0xdc31_24d5_5ffe_d523,
        l2: 0x3cea_c3f2_7b81_e481,
        l3: 0x2098_f5fb_9e23_9eab,
    };
    assert_eq!(t.current_root(), expected);
}

#[test]
fn hash_level_hashes_pairs() {
    let lv = hash_level(&vec![f(0), f(0), f(1), f(0)]);
    assert_eq!(lv.len(), 2);
    assert_eq!(lv[0], TreeData::new(1, 1).current_root());
    assert_ne!(lv[0], lv[1]);
}

#[test]
fn unpack_indices_reads_big_endian_words() {
    assert_eq!(unpack_indices(&[0, 0, 0, 1]), vec![1]);
    assert_eq!(unpack_indices(&[1, 2, 3, 4, 0, 0, 1, 0]), vec![0x0102_0304, 256]);
}

#[test]
fn unpack_indices_skips_padding() {
    assert_eq!(unpack_indices(&[0xff, 0xff, 0xff, 0xff, 0, 0, 0, 7]), vec![7]);
    assert_eq!(unpack_indices(&[0xff; 12]), Vec::<u32>::new());
}

#[test]
fn unpack_indices_ignores_trailing_bytes() {
    assert_eq!(unpack_indices(&[0, 0, 0, 5, 9, 9]), vec![5]);
    assert_eq!(unpack_indices(&[]), Vec::<u32>::new());
}

#[test]
fn insertion_updates_skip_zero_commitments() {
    let ups = insertion_updates(5, &vec![f(1), Field::zero(), f(3)]);
    assert_eq!(ups, vec![(5, f(1)), (7, f(3))]);
}

#[test]
fn deletion_updates_zero_each_index() {
    assert_eq!(deletion_updates(&vec![4, 2]), vec![(4, Field::zero()), (2, Field::zero())]);
}

#[test]
fn generated_proof_verifies_and_wrong_leaf_does_not() {
    let leaves = vec![f(1), f(2), f(3), f(0)];
    let root = compute_root(&leaves, 2);
    let p = generate_proof(&leaves, 2, 1);
    assert_eq!(p.len(), 2);
    assert_eq!(p[0], Branch::Right(f(1)));
    assert!(verify_proof(f(2), &p, root));
    assert!(!verify_proof(f(3), &p, root));
}

#[test]
fn insert_then_prove() {
    let mut tree = TreeData::new(3, 4);
    let r0 = tree.current_root();
    let r1 = root_after(3, &vec![(0, f(1)), (1, f(2)), (2, f(3))]);
    let mut updater = TreeUpdater::new(10, 100);
    let batch = ObservedBatch {
        pre_root: Some(r0),
        post_root: r1,
        call: WriteCall::Register { start_index: 0, commitments: vec![f(1), f(2), f(3)] },
    };
    assert_eq!(updater.apply_range(&mut tree, 20, &vec![batch]), Ok(()));
    assert_eq!(tree.current_root(), r1);
    assert_eq!(updater.block_scanner.cursor, 21);
    let p = tree.inclusion_proof(f(2), Some(r1)).expect("proof at R1");
    assert_eq!(p[0], Branch::Right(f(1)));
    assert!(verify_proof(f(2), &p, r1));
}

#[test]
fn delete_then_miss() {
    let mut tree = TreeData::new(3, 4);
    let r1 = root_after(3, &vec![(0, f(1)), (1, f(2)), (2, f(3))]);
    let r2 = root_after(3, &vec![(0, f(1)), (2, f(3))]);
    let mut updater = TreeUpdater::new(0, 10);
    let batches = vec![
        ObservedBatch {
            pre_root: None,
            post_root: r1,
            call: WriteCall::Register { start_index: 0, commitments: vec![f(1), f(2), f(3)] },
        },
        ObservedBatch {
            pre_root: Some(r1),
            post_root: r2,
            call: WriteCall::Delete { packed_indices: vec![0, 0, 0, 1] },
        },
    ];
    assert_eq!(updater.apply_range(&mut tree, 5, &batches), Ok(()));
    assert_eq!(tree.current_root(), r2);
    assert!(tree.inclusion_proof(f(2), Some(r2)).is_none());
    let p = tree.inclusion_proof(f(2), Some(r1)).expect("R1 still retained");
    assert!(verify_proof(f(2), &p, r1));
}

#[test]
fn history_eviction() {
    let mut tree = TreeData::new(2, 1);
    let r1 = tree.append(&vec![(0, f(1))]);
    let r2 = tree.append(&vec![(1, f(2))]);
    assert_eq!(tree.proof_query(true, f(1), Some(r1)).unwrap_err(), ProofError::RootNotRetained);
    let p = tree.proof_query(true, f(1), Some(r2)).expect("proof at R2");
    assert!(verify_proof(f(1), &p, r2));
    assert_eq!(tree.retained_roots(), vec![r2]);
}

#[test]
fn query_before_sync_is_refused() {
    let tree = TreeData::new(2, 2);
    assert_eq!(tree.proof_query(false, f(0), None).unwrap_err(), ProofError::NotSynced);
    assert_eq!(tree.proof_query(true, f(9), None).unwrap_err(), ProofError::LeafNotFound);
}

#[test]
fn root_mismatch_halts() {
    let mut tree = TreeData::new(3, 4);
    let before = tree.current_root();
    let mut updater = TreeUpdater::new(7, 10);
    let batch = ObservedBatch {
        pre_root: None,
        post_root: f(12345),
        call: WriteCall::Register { start_index: 0, commitments: vec![f(1)] },
    };
    assert_eq!(updater.apply_range(&mut tree, 9, &vec![batch]), Err(UpdateError::RootMismatch));
    assert_eq!(updater.block_scanner.cursor, 7);
    assert!(!updater.synced);
    assert_eq!(tree.current_root(), before);
}

#[test]
fn pre_root_mismatch_halts() {
    let mut tree = TreeData::new(2, 4);
    let mut updater = TreeUpdater::new(0, 10);
    let batch = ObservedBatch {
        pre_root: Some(f(1)),
        post_root: f(2),
        call: WriteCall::Delete { packed_indices: vec![0, 0, 0, 0] },
    };
    assert_eq!(updater.apply_range(&mut tree, 3, &vec![batch]), Err(UpdateError::RootMismatch));
    assert_eq!(updater.block_scanner.cursor, 0);
}

#[test]
fn undecodable_batches_are_errors() {
    let mut tree = TreeData::new(2, 4);
    let mut updater = TreeUpdater::new(0, 10);
    let unknown = ObservedBatch { pre_root: None, post_root: f(0), call: WriteCall::Unrecognised };
    assert_eq!(updater.apply_range(&mut tree, 3, &vec![unknown]), Err(UpdateError::Decoding));
    let out_of_range = ObservedBatch {
        pre_root: None,
        post_root: f(0),
        call: WriteCall::Delete { packed_indices: vec![0, 0, 0, 4] },
    };
    assert_eq!(updater.apply_range(&mut tree, 3, &vec![out_of_range]), Err(UpdateError::Decoding));
    assert_eq!(updater.block_scanner.cursor, 0);
}

#[test]
fn all_padding_batch_changes_nothing() {
    let mut tree = TreeData::new(2, 4);
    let r0 = tree.current_root();
    let mut updater = TreeUpdater::new(0, 10);
    let batch = ObservedBatch {
        pre_root: Some(r0),
        post_root: r0,
        call: WriteCall::Delete { packed_indices: vec![0xff; 8] },
    };
    assert_eq!(updater.apply_range(&mut tree, 3, &vec![batch]), Ok(()));
    assert_eq!(tree.current_root(), r0);
}

#[test]
fn scan_ranges_follow_the_cursor() {
    let mut updater = TreeUpdater::new(100, 10);
    assert_eq!(updater.next_range(99), None);
    assert_eq!(updater.next_range(105), Some((100, 105)));
    assert_eq!(updater.next_range(500), Some((100, 110)));
    let mut tree = TreeData::new(1, 2);
    assert_eq!(updater.apply_range(&mut tree, 110, &vec![]), Ok(()));
    assert_eq!(updater.block_scanner.cursor, 111);
    assert!(updater.synced);
    assert_eq!(updater.next_range(110), None);
}

#[test]
fn scanner_advances_past_a_scanned_range() {
    let mut s = BlockScanner::new(5, 0);
    assert_eq!(s.next_range(5), Some((5, 5)));
    s.advance(5);
    assert_eq!(s.cursor, 6);
    assert_eq!(s.next_range(5), None);
    assert_eq!(s.next_range(9), Some((6, 6)));
}

#[test]
fn failed_batch_keeps_earlier_batches_and_cursor() {
    let mut tree = TreeData::new(2, 4);
    let r1 = root_after(2, &vec![(0, f(4))]);
    let mut updater = TreeUpdater::new(3, 10);
    let batches = vec![
        ObservedBatch {
            pre_root: None,
            post_root: r1,
            call: WriteCall::Register { start_index: 0, commitments: vec![f(4)] },
        },
        ObservedBatch {
            pre_root: Some(f(77)),
            post_root: f(78),
            call: WriteCall::Register { start_index: 1, commitments: vec![f(5)] },
        },
    ];
    assert_eq!(updater.apply_range(&mut tree, 8, &batches), Err(UpdateError::RootMismatch));
    assert_eq!(tree.current_root(), r1);
    assert_eq!(updater.block_scanner.cursor, 3);
}

#[test]
fn older_root_stays_retained_after_deletion() {
    let mut tree = TreeData::new(3, 2);
    let r0 = tree.current_root();
    let r1 = tree.append(&vec![(0, f(1)), (1, f(2)), (2, f(3))]);
    let r2 = tree.delete(&vec![1]);
    assert_ne!(r1, r2);
    assert_eq!(tree.retained_roots(), vec![r1, r2]);
    assert_ne!(r0, r1);
    let p = tree.proof_query(true, f(2), Some(r1)).expect("R1 retained");
    assert!(verify_proof(f(2), &p, r1));
    assert_eq!(tree.proof_query(true, f(2), Some(r2)).unwrap_err(), ProofError::LeafNotFound);
}

#[test]
fn sync_step_at_head_marks_synced() {
    let mut tree = TreeData::new(2, 2);
    let mut updater = TreeUpdater::new(10, 5);
    assert_eq!(updater.sync_step(&mut tree, 9, &vec![]), Ok(()));
    assert!(updater.synced);
    assert_eq!(updater.block_scanner.cursor, 10);
}

#[test]
fn sync_step_applies_next_range() {
    let mut tree = TreeData::new(2, 2);
    let r1 = root_after(2, &vec![(3, f(8))]);
    let mut updater = TreeUpdater::new(10, 5);
    let batch = ObservedBatch {
        pre_root: None,
        post_root: r1,
        call: WriteCall::Register { start_index: 3, commitments: vec![f(8)] },
    };
    assert_eq!(updater.sync_step(&mut tree, 100, &vec![batch]), Ok(()));
    assert_eq!(updater.block_scanner.cursor, 16);
    assert_eq!(tree.current_root(), r1);
}

#[test]
fn sync_step_refuses_the_last_block_number() {
    let mut tree = TreeData::new(1, 2);
    let mut updater = TreeUpdater::new(u64::MAX - 1, 5);
    assert_eq!(
        updater.sync_step(&mut tree, u64::MAX, &vec![]),
        Err(UpdateError::BlockRangeExhausted)
    );
    assert_eq!(updater.block_scanner.cursor, u64::MAX - 1);
}
