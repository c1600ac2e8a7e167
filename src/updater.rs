//! Keeping the tree at the chain head: the block ranges to scan, and applying
//! the write calls observed in a range as batches, with their roots checked.

use vstd::prelude::*;
use crate::hash::Field;
use crate::merkle::{pow2, root_of};
use crate::decode::{
    unpack_indices, insertion_updates, deletion_updates, unpacked_indices,
    insertion_updates_spec, deletion_updates_spec,
};
use crate::tree::{TreeData, apply_updates, updates_valid, last_n, window, lemma_last_n_push};
use crate::scanner::{BlockScanner, range_end};

verus! {

/// A recognised write call of the identity manager, decoded from calldata.
pub enum WriteCall {
    /// `registerIdentities`: commitments placed from `start_index` on.
    Register { start_index: u32, commitments: Vec<Field> },
    /// `deleteIdentities` (either form): packed 32-bit big-endian indices.
    Delete { packed_indices: Vec<u8> },
    /// A call that emitted a tree change but is neither of the above.
    Unrecognised,
}

/// One tree change seen on chain: the roots it names and the call behind it.
pub struct ObservedBatch {
    pub pre_root: Option<Field>,
    pub post_root: Field,
    pub call: WriteCall,
}

#[derive(PartialEq, Eq, Structural, Clone, Copy, Debug)]
pub enum UpdateError {
    /// The calldata does not describe a batch this tree can take.
    Decoding,
    /// A root named on chain differs from the one computed here.
    RootMismatch,
    /// The range to scan would end at the largest block number, past which
    /// the cursor cannot move.
    BlockRangeExhausted,
}

/// What applying the batches observed up to block `to` leaves behind, from
/// updater `s0` and tree `t0` to updater `s1` and tree `t1` with result `r`.
pub open spec fn range_applied(
    s0: TreeUpdater,
    t0: TreeData,
    s1: TreeUpdater,
    t1: TreeData,
    to: u64,
    bs: Seq<ObservedBatch>,
    r: Result<(), UpdateError>,
) -> bool {
    &&& t1.wf()
    &&& t1.depth == t0.depth
    &&& t1.history_size == t0.history_size
    &&& s1.block_scanner.window_size == s0.block_scanner.window_size
    &&& match replay(t0.live@, bs, t0.depth as nat) {
        Ok(l) => r is Ok && t1.live@ == l,
        Err(e) => r == Err::<(), UpdateError>(e),
    }
    &&& s1.block_scanner.cursor >= s0.block_scanner.cursor
    &&& r is Ok ==> s1.block_scanner.cursor == to + 1 && s1.synced
    &&& r is Err ==> s1.block_scanner.cursor == s0.block_scanner.cursor && s1.synced == s0.synced
    &&& r is Ok && bs.len() > 0 ==> t1.current_root_spec() == bs.last().post_root
    &&& r is Ok ==> t1.roots() == last_n(t0.roots() + post_roots(bs), window(t0.history_size))
    &&& r is Err ==> exists|k: int|
        0 <= k < bs.len() && replay(t0.live@, #[trigger] bs.take(k), t0.depth as nat) == Ok::<
            Seq<Field>,
            UpdateError,
        >(t1.live@) && replay(t0.live@, bs.take(k + 1), t0.depth as nat) == Err::<
            Seq<Field>,
            UpdateError,
        >(r->Err_0)
    &&& bs.len() == 0 ==> t1.snapshots() == t0.snapshots()
}

/// The leaf updates of a batch, or `None` where the call cannot be applied to
/// a tree of the given depth.
pub open spec fn batch_updates(b: ObservedBatch, depth: nat) -> Option<Seq<(u32, Field)>> {
    match b.call {
        WriteCall::Register { start_index, commitments } => {
            if start_index + commitments@.len() <= u32::MAX + 1 && updates_valid(
                insertion_updates_spec(start_index as int, commitments@),
                pow2(depth),
            ) {
                Some(insertion_updates_spec(start_index as int, commitments@))
            } else {
                None
            }
        },
        WriteCall::Delete { packed_indices } => {
            let ups = deletion_updates_spec(unpacked_indices(packed_indices@));
            if updates_valid(ups, pow2(depth)) {
                Some(ups)
            } else {
                None
            }
        },
        WriteCall::Unrecognised => None,
    }
}

/// One batch applied to `leaves`: decoded, its pre-root checked against the
/// current root, applied, and the new root checked against its post-root.
pub open spec fn replay_step(leaves: Seq<Field>, b: ObservedBatch, depth: nat) -> Result<
    Seq<Field>,
    UpdateError,
> {
    match batch_updates(b, depth) {
        None => Err(UpdateError::Decoding),
        Some(ups) => {
            if b.pre_root is Some && b.pre_root->0 != root_of(leaves, depth) {
                Err(UpdateError::RootMismatch)
            } else if root_of(apply_updates(leaves, ups), depth) != b.post_root {
                Err(UpdateError::RootMismatch)
            } else {
                Ok(apply_updates(leaves, ups))
            }
        },
    }
}

/// The batches applied in chain order, stopping at the first that fails.
pub open spec fn replay(leaves: Seq<Field>, bs: Seq<ObservedBatch>, depth: nat) -> Result<
    Seq<Field>,
    UpdateError,
>
    decreases bs.len(),
{
    if bs.len() == 0 {
        Ok(leaves)
    } else {
        match replay(leaves, bs.drop_last(), depth) {
            Err(e) => Err(e),
            Ok(l) => replay_step(l, bs.last(), depth),
        }
    }
}

/// The post-roots of the batches, in order.
pub open spec fn post_roots(bs: Seq<ObservedBatch>) -> Seq<Field> {
    Seq::new(bs.len(), |i: int| bs[i].post_root)
}

/// Checks that every update names a leaf below `n` and holds a field element.
fn check_updates(ups: &Vec<(u32, Field)>, n: usize) -> (r: bool)
    ensures
        r == updates_valid(ups@, n as nat),
{
    let mut i: usize = 0;
    while i < ups.len()
        invariant
            i <= ups.len(),
            forall|j: int| 0 <= j < i ==> (#[trigger] ups@[j]).0 < n && ups@[j].1.in_field_spec(),
        decreases ups.len() - i,
    {
        let u = ups[i];
        if !((u.0 as usize) < n && u.1.in_field()) {
            assert(!((ups@[i as int]).0 < n && ups@[i as int].1.in_field_spec()));
            return false;
        }
        i = i + 1;
    }
    true
}

/// The decoded leaf updates of a batch for a tree of `n == 2^depth` leaves.
fn decode_batch(b: &ObservedBatch, n: usize, depth: Ghost<nat>) -> (r: Option<Vec<(u32, Field)>>)
    requires
        n == pow2(depth@),
    ensures
        match r {
            None => batch_updates(*b, depth@) is None,
            Some(ups) => batch_updates(*b, depth@) == Some(ups@),
        },
{
    match &b.call {
        WriteCall::Register { start_index, commitments } => {
            if commitments.len() as u64 > u32::MAX as u64 + 1 - *start_index as u64 {
                return None;
            }
            let ups = insertion_updates(*start_index, commitments);
            if check_updates(&ups, n) {
                Some(ups)
            } else {
                None
            }
        },
        WriteCall::Delete { packed_indices } => {
            let idx = unpack_indices(packed_indices.as_slice());
            let ups = deletion_updates(&idx);
            if check_updates(&ups, n) {
                Some(ups)
            } else {
                None
            }
        },
        WriteCall::Unrecognised => None,
    }
}

/// The scanner of the tree's sync, and whether it has reached the head once.
pub struct TreeUpdater {
    pub block_scanner: BlockScanner,
    /// Set after the first sync that completed.
    pub synced: bool,
}

impl TreeUpdater {
    pub fn new(creation_block: u64, window_size: u64) -> (r: TreeUpdater)
        ensures
            r.block_scanner.cursor == creation_block,
            r.block_scanner.window_size == window_size,
            !r.synced,
    {
        TreeUpdater { block_scanner: BlockScanner::new(creation_block, window_size), synced: false }
    }

    /// The block range to scan next; see `BlockScanner::next_range`.
    pub fn next_range(&self, head: u64) -> (r: Option<(u64, u64)>)
        ensures
            r is None <==> self.block_scanner.cursor > head,
            r is Some ==> r == Some((
                self.block_scanner.cursor,
                range_end(self.block_scanner.cursor, self.block_scanner.window_size, head),
            )),
    {
        self.block_scanner.next_range(head)
    }

    /// Applies, in chain order, the batches observed up to block `to`, and
    /// moves the cursor past `to`. On the first batch that cannot be decoded
    /// or whose roots disagree with the tree, stops with that error and
    /// leaves the cursor where it was; the batches before it stay applied,
    /// and the failing one is not.
    pub fn apply_range(
        &mut self,
        tree: &mut TreeData,
        to: u64,
        batches: &Vec<ObservedBatch>,
    ) -> (r: Result<(), UpdateError>)
        requires
            old(tree).wf(),
            old(self).block_scanner.cursor <= to < u64::MAX,
        ensures
            final(tree).wf(),
            final(tree).depth == old(tree).depth,
            final(tree).history_size == old(tree).history_size,
            final(self).block_scanner.window_size == old(self).block_scanner.window_size,
            match replay(old(tree).live@, batches@, old(tree).depth as nat) {
                Ok(l) => r is Ok && final(tree).live@ == l,
                Err(e) => r == Err::<(), UpdateError>(e),
            },
            final(self).block_scanner.cursor >= old(self).block_scanner.cursor,
            r is Ok ==> final(self).block_scanner.cursor == to + 1 && final(self).synced,
            r is Err ==> final(self).block_scanner.cursor == old(self).block_scanner.cursor && final(self).synced == old(
                self,
            ).synced,
            r is Ok && batches.len() > 0 ==> final(tree).current_root_spec()
                == batches@.last().post_root,
            r is Ok ==> final(tree).roots() == last_n(
                old(tree).roots() + post_roots(batches@),
                window(old(tree).history_size),
            ),
            r is Err ==> exists|k: int|
                0 <= k < batches.len() && replay(
                    old(tree).live@,
                    #[trigger] batches@.take(k),
                    old(tree).depth as nat,
                ) == Ok::<Seq<Field>, UpdateError>(final(tree).live@) && replay(
                    old(tree).live@,
                    batches@.take(k + 1),
                    old(tree).depth as nat,
                ) == Err::<Seq<Field>, UpdateError>(r->Err_0),
            batches.len() == 0 ==> final(tree).snapshots() == old(tree).snapshots(),
    {
        let n = tree.live.len();
        let ghost depth = tree.depth as nat;
        let mut i: usize = 0;
        proof {
            assert(batches@.take(0) =~= Seq::<ObservedBatch>::empty());
            tree.lemma_roots_in_window();
            assert(old(tree).roots() + post_roots(batches@.take(0)) =~= old(tree).roots());
        }
        while i < batches.len()
            invariant
                i <= batches.len(),
                tree.wf(),
                tree.depth == old(tree).depth,
                tree.history_size == old(tree).history_size,
                n == tree.live.len(),
                n == pow2(depth),
                depth == tree.depth,
                replay(old(tree).live@, batches@.take(i as int), depth) == Ok::<
                    Seq<Field>,
                    UpdateError,
                >(tree.live@),
                tree.current_root_spec() == root_of(tree.live@, depth),
                i > 0 ==> tree.current_root_spec() == batches@[i - 1].post_root,
                i == 0 ==> tree.snapshots() == old(tree).snapshots(),
                tree.roots() == last_n(
                    old(tree).roots() + post_roots(batches@.take(i as int)),
                    window(old(tree).history_size),
                ),
            decreases batches.len() - i,
        {
            let b = &batches[i];
            proof {
                assert(batches@.take(i + 1).drop_last() =~= batches@.take(i as int));
                assert(batches@.take(i + 1).last() == batches@[i as int]);
            }
            let ups = match decode_batch(b, n, Ghost(depth)) {
                None => {
                    proof {
                        lemma_replay_err(old(tree).live@, batches@, depth, (i + 1) as nat);
                        assert(replay(old(tree).live@, batches@.take(i as int), depth) == Ok::<
                            Seq<Field>,
                            UpdateError,
                        >(tree.live@));
                    }
                    return Err(UpdateError::Decoding);
                },
                Some(ups) => ups,
            };
            let current = tree.current_root();
            let pre_ok = match b.pre_root {
                None => true,
                Some(p) => p == current,
            };
            if !pre_ok {
                proof {
                    lemma_replay_err(old(tree).live@, batches@, depth, (i + 1) as nat);
                }
                return Err(UpdateError::RootMismatch);
            }
            let post = tree.root_after(&ups);
            if post != b.post_root {
                proof {
                    lemma_replay_err(old(tree).live@, batches@, depth, (i + 1) as nat);
                }
                return Err(UpdateError::RootMismatch);
            }
            let ghost before = *tree;
            proof {
                before.lemma_roots_in_window();
                let all = old(tree).roots() + post_roots(batches@.take(i as int));
                assert(post_roots(batches@.take(i + 1)) =~= post_roots(batches@.take(i as int)).push(
                    b.post_root,
                ));
                assert(old(tree).roots() + post_roots(batches@.take(i + 1)) =~= all.push(b.post_root));
                lemma_last_n_push(all, b.post_root, window(old(tree).history_size));
            }
            tree.append(&ups);
            proof {
                let len = tree.deltas@.len() as int;
                assert(tree.snapshot_at(len).len() == pow2(depth));
            }
            i = i + 1;
        }
        proof {
            assert(batches@.take(i as int) =~= batches@);
        }
        self.block_scanner.advance(to);
        self.synced = true;
        Ok(())
    }

    /// Records that the scan has nothing left below the head: when the
    /// cursor is past `head`, the updater counts as synced.
    pub fn reached_head(&mut self, head: u64)
        ensures
            final(self).block_scanner == old(self).block_scanner,
            final(self).synced == (old(self).synced || old(self).block_scanner.cursor > head),
    {
        if self.block_scanner.cursor > head {
            self.synced = true;
        }
    }

    /// One sync against the chain head, given the batches observed in
    /// `next_range(head)`. When the cursor is past the head nothing changes
    /// but the updater counts as synced; when the range would end at the
    /// largest block number nothing changes and the result is
    /// `BlockRangeExhausted`; otherwise the range is applied as by
    /// `apply_range`.
    pub fn sync_step(&mut self, tree: &mut TreeData, head: u64, batches: &Vec<ObservedBatch>) -> (r:
        Result<(), UpdateError>)
        requires
            old(tree).wf(),
        ensures
            old(self).block_scanner.cursor > head ==> r is Ok && *final(tree) == *old(tree)
                && final(self).block_scanner == old(self).block_scanner && final(self).synced,
            old(self).block_scanner.cursor <= head && range_end(
                old(self).block_scanner.cursor,
                old(self).block_scanner.window_size,
                head,
            ) == u64::MAX ==> r == Err::<(), UpdateError>(UpdateError::BlockRangeExhausted)
                && *final(tree) == *old(tree) && *final(self) == *old(self),
            old(self).block_scanner.cursor <= head && range_end(
                old(self).block_scanner.cursor,
                old(self).block_scanner.window_size,
                head,
            ) < u64::MAX ==> range_applied(
                *old(self),
                *old(tree),
                *final(self),
                *final(tree),
                range_end(old(self).block_scanner.cursor, old(self).block_scanner.window_size, head),
                batches@,
                r,
            ),
    {
        match self.next_range(head) {
            None => {
                self.reached_head(head);
                Ok(())
            },
            Some((_, to)) => {
                if to == u64::MAX {
                    Err(UpdateError::BlockRangeExhausted)
                } else {
                    self.apply_range(tree, to, batches)
                }
            },
        }
    }
}

proof fn lemma_replay_err(leaves: Seq<Field>, bs: Seq<ObservedBatch>, depth: nat, k: nat)
    requires
        k <= bs.len(),
        replay(leaves, bs.take(k as int), depth) is Err,
    ensures
        replay(leaves, bs, depth) == replay(leaves, bs.take(k as int), depth),
    decreases bs.len() - k,
{
    if k < bs.len() {
        assert(bs.take(k + 1int).drop_last() =~= bs.take(k as int));
        lemma_replay_err(leaves, bs, depth, k + 1);
    } else {
        assert(bs.take(k as int) =~= bs);
    }
}

} // verus!
