//! The tree together with its updater: what the sync task drives and what
//! the proof queries read.

use vstd::prelude::*;
use crate::hash::Field;
use crate::merkle::{pow2, proof_of, fold_proof, sibling, Branch};
use crate::tree::{TreeData, ProofError, find_last};
use crate::updater::{TreeUpdater, ObservedBatch, UpdateError, range_applied};
use crate::scanner::range_end;

verus! {

/// A tree with a history of changes, and the scan state that keeps it at the
/// chain head.
pub struct WorldTree {
    /// All the leaves of the tree and their roots.
    pub tree_data: TreeData,
    /// The scan position and the synced flag.
    pub tree_updater: TreeUpdater,
}

impl WorldTree {
    pub open spec fn wf(&self) -> bool {
        self.tree_data.wf()
    }

    /// An empty tree of the given depth, scanned from `creation_block` on in
    /// ranges of `window_size` further blocks.
    pub fn new(depth: usize, tree_history_size: usize, creation_block: u64, window_size: u64) -> (r:
        WorldTree)
        requires
            pow2(depth as nat) <= usize::MAX,
        ensures
            r.wf(),
            r.tree_data.depth == depth,
            r.tree_data.history_size == tree_history_size,
            r.tree_data.snapshots() == seq![
                Seq::new(pow2(depth as nat), |i: int| Field::zero_spec()),
            ],
            r.tree_updater.block_scanner.cursor == creation_block,
            r.tree_updater.block_scanner.window_size == window_size,
            !r.tree_updater.synced,
    {
        WorldTree {
            tree_data: TreeData::new(depth, tree_history_size),
            tree_updater: TreeUpdater::new(creation_block, window_size),
        }
    }

    /// The block range to scan next, given the chain head.
    pub fn next_range(&self, head: u64) -> (r: Option<(u64, u64)>)
        ensures
            r is None <==> self.tree_updater.block_scanner.cursor > head,
            r is Some ==> r == Some((
                self.tree_updater.block_scanner.cursor,
                range_end(
                    self.tree_updater.block_scanner.cursor,
                    self.tree_updater.block_scanner.window_size,
                    head,
                ),
            )),
    {
        self.tree_updater.next_range(head)
    }

    /// Applies the batches observed up to block `to`; see
    /// `TreeUpdater::apply_range`.
    pub fn apply_range(&mut self, to: u64, batches: &Vec<ObservedBatch>) -> (r: Result<
        (),
        UpdateError,
    >)
        requires
            old(self).wf(),
            old(self).tree_updater.block_scanner.cursor <= to < u64::MAX,
        ensures
            final(self).wf(),
            range_applied(
                old(self).tree_updater,
                old(self).tree_data,
                final(self).tree_updater,
                final(self).tree_data,
                to,
                batches@,
                r,
            ),
    {
        self.tree_updater.apply_range(&mut self.tree_data, to, batches)
    }

    /// One sync against the chain head; see `TreeUpdater::sync_step`.
    pub fn sync_step(&mut self, head: u64, batches: &Vec<ObservedBatch>) -> (r: Result<
        (),
        UpdateError,
    >)
        requires
            old(self).wf(),
        ensures
            final(self).wf(),
            old(self).tree_updater.block_scanner.cursor > head ==> r is Ok && final(self).tree_data
                == old(self).tree_data && final(self).tree_updater.block_scanner == old(
                self,
            ).tree_updater.block_scanner && final(self).tree_updater.synced,
            old(self).tree_updater.block_scanner.cursor <= head && range_end(
                old(self).tree_updater.block_scanner.cursor,
                old(self).tree_updater.block_scanner.window_size,
                head,
            ) == u64::MAX ==> r == Err::<(), UpdateError>(UpdateError::BlockRangeExhausted)
                && *final(self) == *old(self),
            old(self).tree_updater.block_scanner.cursor <= head && range_end(
                old(self).tree_updater.block_scanner.cursor,
                old(self).tree_updater.block_scanner.window_size,
                head,
            ) < u64::MAX ==> range_applied(
                old(self).tree_updater,
                old(self).tree_data,
                final(self).tree_updater,
                final(self).tree_data,
                range_end(
                    old(self).tree_updater.block_scanner.cursor,
                    old(self).tree_updater.block_scanner.window_size,
                    head,
                ),
                batches@,
                r,
            ),
    {
        self.tree_updater.sync_step(&mut self.tree_data, head, batches)
    }

    /// A proof query, refused until the updater has completed a sync.
    pub fn inclusion_proof(&self, identity: Field, root: Option<Field>) -> (r: Result<
        Vec<Branch>,
        ProofError,
    >)
        requires
            self.wf(),
        ensures
            !self.tree_updater.synced ==> r == Err::<Vec<Branch>, ProofError>(
                ProofError::NotSynced,
            ),
            self.tree_updater.synced && self.tree_data.snapshot_index(root) == -1 ==> r == Err::<
                Vec<Branch>,
                ProofError,
            >(ProofError::RootNotRetained),
            self.tree_updater.synced && self.tree_data.snapshot_index(root) != -1 && find_last(
                self.tree_data.snapshot_at(self.tree_data.snapshot_index(root)),
                identity,
            ) == -1 ==> r == Err::<Vec<Branch>, ProofError>(ProofError::LeafNotFound),
            self.tree_updater.synced && self.tree_data.snapshot_index(root) != -1 && find_last(
                self.tree_data.snapshot_at(self.tree_data.snapshot_index(root)),
                identity,
            ) != -1 ==> r is Ok,
            r is Ok ==> fold_proof(identity, r->Ok_0@) == self.tree_data.target_root(root),
            r is Ok ==> identity.in_field_spec() && forall|i: int|
                0 <= i < r->Ok_0.len() ==> #[trigger] sibling(r->Ok_0[i]).in_field_spec(),
            r is Ok ==> r->Ok_0@ == proof_of(
                self.tree_data.snapshot_at(self.tree_data.snapshot_index(root)),
                find_last(
                    self.tree_data.snapshot_at(self.tree_data.snapshot_index(root)),
                    identity,
                ) as nat,
                self.tree_data.depth as nat,
            ),
    {
        self.tree_data.proof_query(self.tree_updater.synced, identity, root)
    }
}

} // verus!
