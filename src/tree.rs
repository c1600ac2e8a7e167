//! The tree with a bounded history of batches: the oldest retained tree, the
//! deltas that lead from it to the live tree, and proofs against any retained
//! root.

use vstd::prelude::*;
use crate::hash::Field;
use crate::merkle::{
    Branch, sibling, pow2, root_of, proof_of, all_in_field, fold_proof, compute_root, generate_proof,
    lemma_proof_of_verifies, lemma_pow2_pos,
};
use crate::decode::{deletion_updates, deletion_updates_spec};

verus! {

/// One applied batch: the roots before and after it and its leaf updates.
pub struct TreeDelta {
    pub pre_root: Field,
    pub post_root: Field,
    pub updates: Vec<(u32, Field)>,
}

/// The leaves after setting each `(index, value)` in turn; an index past the
/// end is passed over.
pub open spec fn apply_updates(leaves: Seq<Field>, ups: Seq<(u32, Field)>) -> Seq<Field>
    decreases ups.len(),
{
    if ups.len() == 0 {
        leaves
    } else {
        let l = apply_updates(leaves, ups.drop_last());
        let u = ups.last();
        if (u.0 as int) < l.len() {
            l.update(u.0 as int, u.1)
        } else {
            l
        }
    }
}

/// How many roots a tree with history size `h` retains: at least the live one.
pub open spec fn window(h: usize) -> nat {
    if h == 0 {
        1
    } else {
        h as nat
    }
}

/// The last `n` items of `s` (all of them when there are fewer).
pub open spec fn last_n<T>(s: Seq<T>, n: nat) -> Seq<T> {
    if s.len() <= n {
        s
    } else {
        s.subrange(s.len() - n, s.len() as int)
    }
}

pub proof fn lemma_last_n_push<T>(s: Seq<T>, x: T, n: nat)
    requires
        n >= 1,
    ensures
        last_n(s.push(x), n) == if last_n(s, n).len() + 1 <= n {
            last_n(s, n).push(x)
        } else {
            last_n(s, n).push(x).drop_first()
        },
{
    if s.len() + 1 <= n {
    } else if s.len() <= n {
        assert(last_n(s.push(x), n) =~= s.push(x).drop_first());
    } else {
        assert(last_n(s.push(x), n) =~= last_n(s, n).push(x).drop_first());
    }
}

/// Every update names a leaf below `n` and sets it to a field element.
pub open spec fn updates_valid(ups: Seq<(u32, Field)>, n: nat) -> bool {
    forall|i: int| 0 <= i < ups.len() ==> (#[trigger] ups[i]).0 < n && ups[i].1.in_field_spec()
}

/// The leaves after the first `i` deltas have been applied to `base`.
pub open spec fn snapshot(base: Seq<Field>, ds: Seq<TreeDelta>, i: nat) -> Seq<Field>
    decreases i,
{
    if i == 0 {
        base
    } else {
        apply_updates(snapshot(base, ds, (i - 1) as nat), ds[i - 1].updates@)
    }
}

/// The position of the last occurrence of `x` in `s`, or -1.
pub open spec fn find_last(s: Seq<Field>, x: Field) -> int
    decreases s.len(),
{
    if s.len() == 0 {
        -1
    } else if s.last() == x {
        s.len() - 1
    } else {
        find_last(s.drop_last(), x)
    }
}

pub proof fn lemma_find_last_range(s: Seq<Field>, x: Field)
    ensures
        -1 <= find_last(s, x) < s.len(),
        find_last(s, x) >= 0 ==> s[find_last(s, x)] == x,
        find_last(s, x) == -1 ==> !s.contains(x),
    decreases s.len(),
{
    if s.len() > 0 && s.last() != x {
        lemma_find_last_range(s.drop_last(), x);
        if find_last(s, x) == -1 {
            assert forall|i: int| 0 <= i < s.len() implies s[i] != x by {
                if i < s.len() - 1 {
                    assert(s.drop_last()[i] == s[i]);
                }
            }
        }
    }
}

proof fn lemma_apply_len(leaves: Seq<Field>, ups: Seq<(u32, Field)>)
    ensures
        apply_updates(leaves, ups).len() == leaves.len(),
        all_in_field(leaves) && updates_valid(ups, leaves.len()) ==> all_in_field(
            apply_updates(leaves, ups),
        ),
    decreases ups.len(),
{
    if ups.len() > 0 {
        lemma_apply_len(leaves, ups.drop_last());
        if updates_valid(ups, leaves.len()) {
            assert(updates_valid(ups.drop_last(), leaves.len())) by {
                assert forall|i: int| 0 <= i < ups.drop_last().len() implies (
                #[trigger] ups.drop_last()[i]).0 < leaves.len()
                    && ups.drop_last()[i].1.in_field_spec() by {
                    assert(ups.drop_last()[i] == ups[i]);
                }
            }
            assert(ups[ups.len() - 1] == ups.last());
        }
    }
}

proof fn lemma_snapshot_push(base: Seq<Field>, ds: Seq<TreeDelta>, d: TreeDelta, k: nat)
    requires
        k <= ds.len(),
    ensures
        snapshot(base, ds.push(d), k) == snapshot(base, ds, k),
    decreases k,
{
    if k > 0 {
        lemma_snapshot_push(base, ds, d, (k - 1) as nat);
        assert(ds.push(d)[k - 1] == ds[k - 1]);
    }
}

proof fn lemma_snapshot_squash(base: Seq<Field>, ds: Seq<TreeDelta>, k: nat)
    requires
        k + 1 <= ds.len(),
    ensures
        snapshot(apply_updates(base, ds[0].updates@), ds.subrange(1, ds.len() as int), k)
            == snapshot(base, ds, k + 1),
    decreases k,
{
    let ds1 = ds.subrange(1, ds.len() as int);
    let b1 = apply_updates(base, ds[0].updates@);
    if k == 0 {
        assert(snapshot(base, ds, 0) == base);
        assert(snapshot(base, ds, 1) == apply_updates(snapshot(base, ds, 0), ds[0].updates@));
    } else {
        lemma_snapshot_squash(base, ds, (k - 1) as nat);
        assert(ds1[k - 1] == ds[k as int]);
        assert(snapshot(b1, ds1, k) == apply_updates(snapshot(b1, ds1, (k - 1) as nat), ds1[k - 1].updates@));
        assert(snapshot(base, ds, k + 1) == apply_updates(snapshot(base, ds, k), ds[k as int].updates@));
    }
}

/// Sets each `(index, value)` of `ups` in turn.
fn apply_to(leaves: &mut Vec<Field>, ups: &Vec<(u32, Field)>)
    requires
        updates_valid(ups@, old(leaves)@.len()),
    ensures
        final(leaves)@ == apply_updates(old(leaves)@, ups@),
{
    let mut i: usize = 0;
    proof {
        assert(ups@.take(0) =~= Seq::<(u32, Field)>::empty());
    }
    while i < ups.len()
        invariant
            i <= ups.len(),
            updates_valid(ups@, old(leaves)@.len()),
            leaves@ == apply_updates(old(leaves)@, ups@.take(i as int)),
        decreases ups.len() - i,
    {
        proof {
            lemma_apply_len(old(leaves)@, ups@.take(i as int));
            assert(ups@.take(i + 1).drop_last() =~= ups@.take(i as int));
            assert(ups@.take(i + 1).last() == ups[i as int]);
        }
        let u = ups[i];
        leaves.set(u.0 as usize, u.1);
        i = i + 1;
    }
    proof {
        assert(ups@.take(i as int) =~= ups@);
    }
}



/// An element-wise copy: vstd relates a clone of a tuple to its source only
/// by `cloned`, which does not give equality.
fn copy_updates(v: &Vec<(u32, Field)>) -> (r: Vec<(u32, Field)>)
    ensures
        r@ == v@,
{
    let mut r: Vec<(u32, Field)> = Vec::new();
    let mut i: usize = 0;
    while i < v.len()
        invariant
            i <= v.len(),
            r@ == v@.take(i as int),
        decreases v.len() - i,
    {
        r.push(v[i]);
        i = i + 1;
        assert(r@ =~= v@.take(i as int));
    }
    assert(v@.take(i as int) =~= v@);
    r
}

/// The position of the last occurrence of `x`.
fn last_index_of(s: &Vec<Field>, x: Field) -> (r: Option<usize>)
    ensures
        match r {
            None => find_last(s@, x) == -1,
            Some(i) => i == find_last(s@, x),
        },
{
    let mut i: usize = s.len();
    assert(s@.take(i as int) =~= s@);
    while i > 0
        invariant
            i <= s.len(),
            find_last(s@, x) == find_last(s@.take(i as int), x),
        decreases i,
    {
        assert(s@.take(i as int).drop_last() =~= s@.take(i - 1));
        if s[i - 1] == x {
            return Some(i - 1);
        }
        i = i - 1;
    }
    None
}

/// Why a proof query found no proof.
#[derive(PartialEq, Eq, Structural, Clone, Copy, Debug)]
pub enum ProofError {
    /// The tree has not reached the chain head yet.
    NotSynced,
    /// No retained tree has the requested root.
    RootNotRetained,
    /// The identity is not a leaf of the requested tree.
    LeafNotFound,
}

/// The live Merkle tree together with the batches that led to it from the
/// oldest retained tree.
pub struct TreeData {
    /// Depth of the tree: it has `2^depth` leaves.
    pub depth: usize,
    /// The number of roots retained, the live one included (at least the
    /// live one is).
    pub history_size: usize,
    /// Leaves of the oldest retained tree.
    pub base: Vec<Field>,
    /// Root of the oldest retained tree.
    pub base_root: Field,
    /// Retained batches, oldest first.
    pub deltas: Vec<TreeDelta>,
    /// Leaves of the live tree.
    pub live: Vec<Field>,
}

impl TreeData {
    /// The root after the first `i` retained batches.
    pub open spec fn root_at(&self, i: int) -> Field {
        if i == 0 {
            self.base_root
        } else {
            self.deltas@[i - 1].post_root
        }
    }

    pub open spec fn snapshot_at(&self, i: int) -> Seq<Field> {
        snapshot(self.base@, self.deltas@, i as nat)
    }

    /// Every retained tree, oldest first; the last is the live one.
    pub open spec fn snapshots(&self) -> Seq<Seq<Field>> {
        Seq::new((self.deltas@.len() + 1) as nat, |i: int| self.snapshot_at(i))
    }

    /// The roots of the retained trees, oldest first.
    pub open spec fn roots(&self) -> Seq<Field> {
        Seq::new((self.deltas@.len() + 1) as nat, |i: int| self.root_at(i))
    }

    /// A well-formed tree retains no more roots than its window, and a new
    /// batch evicts the oldest exactly when the window is full.
    pub proof fn lemma_roots_in_window(&self)
        requires
            self.wf(),
        ensures
            self.roots().len() <= window(self.history_size),
            (self.deltas@.len() + 1 < self.history_size) == (self.roots().len() + 1 <= window(
                self.history_size,
            )),
    {
    }

    pub open spec fn current_root_spec(&self) -> Field {
        self.root_at(self.deltas@.len() as int)
    }

    pub open spec fn wf(&self) -> bool {
        &&& self.base@.len() == pow2(self.depth as nat)
        &&& self.deltas@.len() == 0 || self.deltas@.len() < self.history_size
        &&& forall|i: int|
            0 <= i <= self.deltas@.len() ==> {
                &&& (#[trigger] self.snapshot_at(i)).len() == pow2(self.depth as nat)
                &&& all_in_field(self.snapshot_at(i))
                &&& root_of(self.snapshot_at(i), self.depth as nat) == self.root_at(i)
            }
        &&& forall|i: int|
            0 <= i < self.deltas@.len() ==> {
                &&& (#[trigger] self.deltas@[i]).pre_root == self.root_at(i)
                &&& updates_valid(self.deltas@[i].updates@, pow2(self.depth as nat))
            }
        &&& self.live@ == self.snapshot_at(self.deltas@.len() as int)
    }

    /// An empty tree of `2^depth` zero leaves that retains up to
    /// `history_size` roots.
    pub fn new(depth: usize, history_size: usize) -> (r: TreeData)
        requires
            pow2(depth as nat) <= usize::MAX,
        ensures
            r.wf(),
            r.depth == depth,
            r.history_size == history_size,
            r.snapshots() == seq![Seq::new(pow2(depth as nat), |i: int| Field::zero_spec())],
    {
        let mut n: usize = 1;
        let mut k: usize = 0;
        while k < depth
            invariant
                k <= depth,
                n == pow2(k as nat),
                pow2(depth as nat) <= usize::MAX,
            decreases depth - k,
        {
            proof {
                lemma_pow2_mono(k as nat + 1, depth as nat);
            }
            n = n * 2;
            k = k + 1;
        }
        let mut base: Vec<Field> = Vec::new();
        let mut i: usize = 0;
        while i < n
            invariant
                i <= n,
                base.len() == i,
                forall|j: int| 0 <= j < i ==> base[j] == Field::zero_spec(),
            decreases n - i,
        {
            base.push(Field::zero());
            i = i + 1;
        }
        proof {
            assert(all_in_field(base@));
        }
        let root = compute_root(&base, depth);
        let live = base.clone();
        proof {
            assert(live@ =~= base@);
        }
        let r = TreeData {
            depth,
            history_size,
            base,
            base_root: root,
            deltas: Vec::new(),
            live,
        };
        proof {
            assert(r.base@ =~= Seq::new(pow2(depth as nat), |i: int| Field::zero_spec()));
            assert(r.snapshot_at(0) == r.base@);
            assert(r.snapshots() =~= seq![Seq::new(pow2(depth as nat), |i: int| Field::zero_spec())]);
        }
        r
    }

    pub fn current_root(&self) -> (r: Field)
        requires
            self.wf(),
        ensures
            r == self.current_root_spec(),
    {
        if self.deltas.len() == 0 {
            self.base_root
        } else {
            self.deltas[self.deltas.len() - 1].post_root
        }
    }

    /// Applies a batch of leaf updates to the live tree and records it; when
    /// more than `history_size` roots would then be retained, the oldest batch
    /// is folded into the oldest tree. Returns the new root.
    pub fn append(&mut self, updates: &Vec<(u32, Field)>) -> (r: Field)
        requires
            old(self).wf(),
            updates_valid(updates@, pow2(old(self).depth as nat)),
        ensures
            final(self).wf(),
            final(self).depth == old(self).depth,
            final(self).history_size == old(self).history_size,
            final(self).live@ == apply_updates(old(self).live@, updates@),
            r == root_of(apply_updates(old(self).live@, updates@), old(self).depth as nat),
            r == final(self).current_root_spec(),
            final(self).snapshots() == if old(self).deltas@.len() + 1 < old(self).history_size {
                old(self).snapshots().push(apply_updates(old(self).live@, updates@))
            } else {
                old(self).snapshots().push(apply_updates(old(self).live@, updates@)).drop_first()
            },
            final(self).roots() == if old(self).deltas@.len() + 1 < old(self).history_size {
                old(self).roots().push(r)
            } else {
                old(self).roots().push(r).drop_first()
            },
    {
        let ghost old_self = *self;
        let pre = self.current_root();
        proof {
            let n = old_self.deltas@.len() as int;
            assert(old_self.snapshot_at(n).len() == pow2(self.depth as nat));
            assert(all_in_field(old_self.snapshot_at(n)));
            lemma_apply_len(self.live@, updates@);
        }
        apply_to(&mut self.live, updates);
        let post = compute_root(&self.live, self.depth);
        let d = TreeDelta { pre_root: pre, post_root: post, updates: copy_updates(updates) };
        self.deltas.push(d);
        proof {
            let ds0 = old_self.deltas@;
            let n = ds0.len() as int;
            assert forall|k: int| 0 <= k <= n implies #[trigger] self.snapshot_at(k)
                == old_self.snapshot_at(k) by {
                lemma_snapshot_push(self.base@, ds0, d, k as nat);
            }
            assert(self.deltas@ == ds0.push(d));
            assert(self.deltas@[n] == d);
            assert(self.snapshot_at(n + 1) == apply_updates(self.snapshot_at(n), d.updates@));
            assert(self.snapshot_at(n + 1) == apply_updates(old_self.live@, updates@));
            assert forall|i: int| 0 <= i <= self.deltas@.len() implies {
                &&& (#[trigger] self.snapshot_at(i)).len() == pow2(self.depth as nat)
                &&& all_in_field(self.snapshot_at(i))
                &&& root_of(self.snapshot_at(i), self.depth as nat) == self.root_at(i)
            } by {
                if i <= n {
                    assert(self.root_at(i) == old_self.root_at(i));
                }
            }
            assert forall|i: int| 0 <= i < self.deltas@.len() implies {
                &&& (#[trigger] self.deltas@[i]).pre_root == self.root_at(i)
                &&& updates_valid(self.deltas@[i].updates@, pow2(self.depth as nat))
            } by {
                if i < n {
                    assert(self.root_at(i) == old_self.root_at(i));
                    assert(self.deltas@[i] == old_self.deltas@[i]);
                }
            }
            assert(self.snapshots() =~= old_self.snapshots().push(
                apply_updates(old_self.live@, updates@),
            ));
            assert(self.roots() =~= old_self.roots().push(post));
            assert(self.live@ == self.snapshot_at(self.deltas@.len() as int));
            assert(self.base@ == old_self.base@);
        }
        if self.deltas.len() >= self.history_size {
            let ghost mid = *self;
            let oldest = self.deltas.remove(0);
            proof {
                assert(mid.deltas@[0] == oldest);
                assert(updates_valid(oldest.updates@, pow2(self.depth as nat)));
            }
            apply_to(&mut self.base, &oldest.updates);
            self.base_root = oldest.post_root;
            proof {
                let ds = mid.deltas@;
                assert(self.deltas@ =~= ds.subrange(1, ds.len() as int));
                assert forall|k: int| 0 <= k < ds.len() implies #[trigger] self.snapshot_at(k)
                    == mid.snapshot_at(k + 1) by {
                    lemma_snapshot_squash(mid.base@, ds, k as nat);
                }
                assert forall|k: int| 0 <= k < ds.len() implies #[trigger] self.root_at(k)
                    == mid.root_at(k + 1) by {
                }
                assert forall|i: int| 0 <= i <= self.deltas@.len() implies {
                    &&& (#[trigger] self.snapshot_at(i)).len() == pow2(self.depth as nat)
                    &&& all_in_field(self.snapshot_at(i))
                    &&& root_of(self.snapshot_at(i), self.depth as nat) == self.root_at(i)
                } by {
                    assert(self.snapshot_at(i) == mid.snapshot_at(i + 1));
                    assert(self.root_at(i) == mid.root_at(i + 1));
                }
                assert forall|i: int| 0 <= i < self.deltas@.len() implies {
                    &&& (#[trigger] self.deltas@[i]).pre_root == self.root_at(i)
                    &&& updates_valid(self.deltas@[i].updates@, pow2(self.depth as nat))
                } by {
                    assert(self.deltas@[i] == ds[i + 1]);
                    assert(self.root_at(i) == mid.root_at(i + 1));
                }
                assert(self.snapshots() =~= mid.snapshots().drop_first()) by {
                    assert forall|i: int| 0 <= i < self.snapshots().len() implies
                        self.snapshots()[i] == mid.snapshots().drop_first()[i] by {
                        assert(self.snapshot_at(i) == mid.snapshot_at(i + 1));
                    }
                }
                assert(self.roots() =~= mid.roots().drop_first()) by {
                    assert forall|i: int| 0 <= i < self.roots().len() implies self.roots()[i]
                        == mid.roots().drop_first()[i] by {
                        assert(self.root_at(i) == mid.root_at(i + 1));
                    }
                }
                assert(self.live@ == self.snapshot_at(self.deltas@.len() as int));
                assert(self.snapshot_at(0) == self.base@);
                assert(self.snapshot_at(0).len() == pow2(self.depth as nat));
                assert(self.wf());
            }
        }
        post
    }
    /// The root a query is made against: the given one, or the live root.
    pub open spec fn target_root(&self, root: Option<Field>) -> Field {
        match root {
            None => self.current_root_spec(),
            Some(r) => r,
        }
    }

    /// Which retained tree a query is made against: the latest whose root is
    /// the target, or -1.
    pub open spec fn snapshot_index(&self, root: Option<Field>) -> int {
        find_last(self.roots(), self.target_root(root))
    }

    /// The root the live tree would have after `updates`; the tree is left
    /// as it is.
    pub fn root_after(&self, updates: &Vec<(u32, Field)>) -> (r: Field)
        requires
            self.wf(),
            updates_valid(updates@, pow2(self.depth as nat)),
        ensures
            r == root_of(apply_updates(self.live@, updates@), self.depth as nat),
    {
        let mut scratch = self.live.clone();
        proof {
            assert(scratch@ =~= self.live@);
        }
        proof {
            let n = self.deltas@.len() as int;
            assert(self.snapshot_at(n).len() == pow2(self.depth as nat));
            assert(all_in_field(self.snapshot_at(n)));
            lemma_apply_len(self.live@, updates@);
        }
        apply_to(&mut scratch, updates);
        compute_root(&scratch, self.depth)
    }

    /// Like `append`, with every index set to the zero leaf.
    pub fn delete(&mut self, indices: &Vec<u32>) -> (r: Field)
        requires
            old(self).wf(),
            forall|i: int| 0 <= i < indices.len() ==> indices[i] < pow2(old(self).depth as nat),
        ensures
            final(self).wf(),
            final(self).depth == old(self).depth,
            final(self).history_size == old(self).history_size,
            r == root_of(
                apply_updates(old(self).live@, deletion_updates_spec(indices@)),
                old(self).depth as nat,
            ),
            r == final(self).current_root_spec(),
            final(self).snapshots() == if old(self).deltas@.len() + 1 < old(self).history_size {
                old(self).snapshots().push(
                    apply_updates(old(self).live@, deletion_updates_spec(indices@)),
                )
            } else {
                old(self).snapshots().push(
                    apply_updates(old(self).live@, deletion_updates_spec(indices@)),
                ).drop_first()
            },
            final(self).roots() == if old(self).deltas@.len() + 1 < old(self).history_size {
                old(self).roots().push(r)
            } else {
                old(self).roots().push(r).drop_first()
            },
    {
        let ups = deletion_updates(indices);
        proof {
            assert(updates_valid(ups@, pow2(self.depth as nat)));
        }
        self.append(&ups)
    }

    /// The roots of the retained trees, oldest first.
    pub fn retained_roots(&self) -> (r: Vec<Field>)
        requires
            self.wf(),
        ensures
            r@ == self.roots(),
    {
        let mut r: Vec<Field> = Vec::new();
        r.push(self.base_root);
        let mut i: usize = 0;
        proof {
            assert(r@ =~= self.roots().take(1));
        }
        while i < self.deltas.len()
            invariant
                i <= self.deltas.len(),
                r@ == self.roots().take(i + 1),
            decreases self.deltas.len() - i,
        {
            r.push(self.deltas[i].post_root);
            i = i + 1;
            assert(r@ =~= self.roots().take(i + 1));
        }
        assert(self.roots().take(i + 1) =~= self.roots());
        r
    }

    /// The leaves of the retained tree after the first `i` batches.
    pub fn snapshot_leaves(&self, i: usize) -> (r: Vec<Field>)
        requires
            self.wf(),
            i <= self.deltas.len(),
        ensures
            r@ == self.snapshot_at(i as int),
    {
        let mut cur = self.base.clone();
        proof {
            assert(cur@ =~= self.base@);
        }
        let mut k: usize = 0;
        while k < i
            invariant
                self.wf(),
                k <= i <= self.deltas.len(),
                cur@ == self.snapshot_at(k as int),
            decreases i - k,
        {
            proof {
                assert(self.snapshot_at(k as int).len() == pow2(self.depth as nat));
                assert(updates_valid(self.deltas@[k as int].updates@, pow2(self.depth as nat)));
            }
            apply_to(&mut cur, &self.deltas[k].updates);
            k = k + 1;
        }
        cur
    }

    /// The proof for `identity` in the retained tree whose root is `root`
    /// (the live root when `None`): its last occurrence among the leaves.
    /// `None` when no retained tree has that root or the identity is not a
    /// leaf of it.
    pub fn inclusion_proof(&self, identity: Field, root: Option<Field>) -> (r: Option<
        Vec<Branch>,
    >)
        requires
            self.wf(),
        ensures
            ({
                let s = self.snapshot_index(root);
                let leaves = self.snapshot_at(s);
                let idx = find_last(leaves, identity);
                match r {
                    None => s == -1 || idx == -1,
                    Some(p) => s >= 0 && idx >= 0 && p@ == proof_of(
                        leaves,
                        idx as nat,
                        self.depth as nat,
                    ),
                }
            }),
            r is Some ==> fold_proof(identity, r->0@) == self.target_root(root),
            r is Some ==> identity.in_field_spec() && forall|i: int|
                0 <= i < r->0.len() ==> #[trigger] sibling(r->0[i]).in_field_spec(),
    {
        let target = match root {
            None => self.current_root(),
            Some(x) => x,
        };
        let roots = self.retained_roots();
        let s = match last_index_of(&roots, target) {
            None => {
                return None;
            },
            Some(s) => s,
        };
        proof {
            lemma_find_last_range(self.roots(), target);
        }
        let leaves = self.snapshot_leaves(s);
        let idx = match last_index_of(&leaves, identity) {
            None => {
                return None;
            },
            Some(idx) => idx,
        };
        proof {
            lemma_find_last_range(leaves@, identity);
            assert(all_in_field(self.snapshot_at(s as int)));
            assert(leaves@[idx as int].in_field_spec());
            lemma_proof_of_verifies(leaves@, idx as nat, self.depth as nat);
        }
        Some(generate_proof(&leaves, self.depth, idx))
    }
}

impl TreeData {
    /// A proof query as served: refused before the first completed sync,
    /// otherwise the proof of `inclusion_proof` or the reason there is none.
    pub fn proof_query(&self, synced: bool, identity: Field, root: Option<Field>) -> (r: Result<
        Vec<Branch>,
        ProofError,
    >)
        requires
            self.wf(),
        ensures
            !synced ==> r == Err::<Vec<Branch>, ProofError>(ProofError::NotSynced),
            synced && self.snapshot_index(root) == -1 ==> r == Err::<Vec<Branch>, ProofError>(
                ProofError::RootNotRetained,
            ),
            synced && self.snapshot_index(root) != -1 && find_last(
                self.snapshot_at(self.snapshot_index(root)),
                identity,
            ) == -1 ==> r == Err::<Vec<Branch>, ProofError>(ProofError::LeafNotFound),
            synced && self.snapshot_index(root) != -1 && find_last(
                self.snapshot_at(self.snapshot_index(root)),
                identity,
            ) != -1 ==> r is Ok,
            r is Ok ==> synced && r->Ok_0@ == proof_of(
                self.snapshot_at(self.snapshot_index(root)),
                find_last(self.snapshot_at(self.snapshot_index(root)), identity) as nat,
                self.depth as nat,
            ),
            r is Ok ==> fold_proof(identity, r->Ok_0@) == self.target_root(root),
            r is Ok ==> identity.in_field_spec() && forall|i: int|
                0 <= i < r->Ok_0.len() ==> #[trigger] sibling(r->Ok_0[i]).in_field_spec(),
    {
        if !synced {
            return Err(ProofError::NotSynced);
        }
        let target = match root {
            None => self.current_root(),
            Some(x) => x,
        };
        let roots = self.retained_roots();
        if last_index_of(&roots, target).is_none() {
            return Err(ProofError::RootNotRetained);
        }
        match self.inclusion_proof(identity, root) {
            None => Err(ProofError::LeafNotFound),
            Some(p) => Ok(p),
        }
    }
}

/// For every retained tree and every leaf position, the proof generated for
/// that position leads from the leaf held there to the tree's root.
pub proof fn lemma_retained_proofs_verify(t: TreeData, i: int, idx: nat)
    requires
        t.wf(),
        0 <= i < t.roots().len(),
        idx < pow2(t.depth as nat),
    ensures
        fold_proof(t.snapshots()[i][idx as int], proof_of(t.snapshots()[i], idx, t.depth as nat))
            == t.roots()[i],
{
    assert(t.snapshot_at(i).len() == pow2(t.depth as nat));
    lemma_proof_of_verifies(t.snapshot_at(i), idx, t.depth as nat);
}


pub proof fn lemma_pow2_mono(a: nat, b: nat)
    requires
        a <= b,
    ensures
        pow2(a) <= pow2(b),
    decreases b,
{
    if a < b {
        lemma_pow2_mono(a, (b - 1) as nat);
        lemma_pow2_pos((b - 1) as nat);
    }
}

} // verus!
