//! A dense binary Merkle tree over `2^depth` leaves: its levels, its root,
//! inclusion proofs and their verification.

use vstd::prelude::*;
use crate::hash::{Field, poseidon_node, hash_pair};

verus! {

/// One step of an inclusion proof: the sibling's hash, tagged with the side on
/// which the path node stands.
#[derive(PartialEq, Eq, Structural, Clone, Copy, Debug)]
pub enum Branch {
    /// The path node is the left child; the sibling is on the right.
    Left(Field),
    /// The path node is the right child; the sibling is on the left.
    Right(Field),
}

pub open spec fn pow2(d: nat) -> nat
    decreases d,
{
    if d == 0 {
        1
    } else {
        2 * pow2((d - 1) as nat)
    }
}

/// The level above `s`: each pair of siblings hashed into their parent.
pub open spec fn next_level(s: Seq<Field>) -> Seq<Field> {
    Seq::new(s.len() / 2, |i: int| poseidon_node(s[2 * i], s[2 * i + 1]))
}

/// The nodes `k` levels above the leaves.
pub open spec fn level(leaves: Seq<Field>, k: nat) -> Seq<Field>
    decreases k,
{
    if k == 0 {
        leaves
    } else {
        next_level(level(leaves, (k - 1) as nat))
    }
}

pub open spec fn root_of(leaves: Seq<Field>, depth: nat) -> Field {
    level(leaves, depth)[0]
}

/// The position, `k` levels up, of the node above leaf `idx`.
pub open spec fn path_index(idx: nat, k: nat) -> nat
    decreases k,
{
    if k == 0 {
        idx
    } else {
        path_index(idx, (k - 1) as nat) / 2
    }
}

pub open spec fn branch_at(leaves: Seq<Field>, idx: nat, k: nat) -> Branch {
    let j = path_index(idx, k);
    let lv = level(leaves, k);
    if j % 2 == 0 {
        Branch::Left(lv[j + 1int])
    } else {
        Branch::Right(lv[j - 1int])
    }
}

/// The inclusion proof of leaf `idx`: one sibling per level, leaf first.
pub open spec fn proof_of(leaves: Seq<Field>, idx: nat, depth: nat) -> Seq<Branch> {
    Seq::new(depth, |k: int| branch_at(leaves, idx, k as nat))
}

pub open spec fn sibling(b: Branch) -> Field {
    match b {
        Branch::Left(s) => s,
        Branch::Right(s) => s,
    }
}

pub open spec fn all_in_field(s: Seq<Field>) -> bool {
    forall|i: int| 0 <= i < s.len() ==> #[trigger] s[i].in_field_spec()
}

pub open spec fn step(node: Field, b: Branch) -> Field {
    match b {
        Branch::Left(s) => poseidon_node(node, s),
        Branch::Right(s) => poseidon_node(s, node),
    }
}

/// The root that a proof leads to from a leaf.
pub open spec fn fold_proof(leaf: Field, p: Seq<Branch>) -> Field
    decreases p.len(),
{
    if p.len() == 0 {
        leaf
    } else {
        step(fold_proof(leaf, p.drop_last()), p.last())
    }
}

pub proof fn lemma_pow2_pos(d: nat)
    ensures
        pow2(d) >= 1,
    decreases d,
{
    if d > 0 {
        lemma_pow2_pos((d - 1) as nat);
    }
}

pub proof fn lemma_level_len(leaves: Seq<Field>, depth: nat, k: nat)
    requires
        leaves.len() == pow2(depth),
        k <= depth,
    ensures
        level(leaves, k).len() == pow2((depth - k) as nat),
    decreases k,
{
    if k > 0 {
        lemma_level_len(leaves, depth, (k - 1) as nat);
    }
}

pub proof fn lemma_path_index_bound(idx: nat, depth: nat, k: nat)
    requires
        idx < pow2(depth),
        k <= depth,
    ensures
        path_index(idx, k) < pow2((depth - k) as nat),
    decreases k,
{
    if k > 0 {
        lemma_path_index_bound(idx, depth, (k - 1) as nat);
    }
}

proof fn lemma_fold_prefix(leaves: Seq<Field>, idx: nat, depth: nat, k: nat)
    requires
        leaves.len() == pow2(depth),
        idx < pow2(depth),
        k <= depth,
    ensures
        fold_proof(leaves[idx as int], proof_of(leaves, idx, depth).take(k as int))
            == level(leaves, k)[path_index(idx, k) as int],
    decreases k,
{
    let p = proof_of(leaves, idx, depth);
    if k == 0 {
        assert(p.take(0).len() == 0);
    } else {
        let k1 = (k - 1) as nat;
        lemma_fold_prefix(leaves, idx, depth, k1);
        assert(p.take(k as int).drop_last() =~= p.take(k1 as int));
        lemma_level_len(leaves, depth, k1);
        lemma_level_len(leaves, depth, k);
        lemma_path_index_bound(idx, depth, k1);
        lemma_pow2_pos((depth - k) as nat);
        let j = path_index(idx, k1);
        let lv = level(leaves, k1);
        assert(lv.len() == 2 * pow2((depth - k) as nat));
        if j % 2 == 0 {
            assert(2 * (j / 2) == j);
        } else {
            assert(2 * (j / 2) + 1 == j);
        }
    }
}

/// A proof generated for a leaf leads from that leaf to the root.
pub proof fn lemma_proof_of_verifies(leaves: Seq<Field>, idx: nat, depth: nat)
    requires
        leaves.len() == pow2(depth),
        idx < pow2(depth),
    ensures
        fold_proof(leaves[idx as int], proof_of(leaves, idx, depth)) == root_of(leaves, depth),
{
    lemma_fold_prefix(leaves, idx, depth, depth);
    assert(proof_of(leaves, idx, depth).take(depth as int) =~= proof_of(leaves, idx, depth));
    lemma_path_index_bound(idx, depth, depth);
}

/// Hashes each pair of siblings into their parent.
pub fn hash_level(s: &Vec<Field>) -> (r: Vec<Field>)
    requires
        all_in_field(s@),
    ensures
        r@ == next_level(s@),
        all_in_field(r@),
{
    let n: usize = s.len() / 2;
    let mut r: Vec<Field> = Vec::new();
    let mut i: usize = 0;
    while i < n
        invariant
            n == s.len() / 2,
            all_in_field(s@),
            i <= n,
            r.len() == i,
            all_in_field(r@),
            forall|j: int| 0 <= j < i ==> r[j] == poseidon_node(s[2 * j], s[2 * j + 1]),
        decreases n - i,
    {
        let h = hash_pair(&s[2 * i], &s[2 * i + 1]);
        r.push(h);
        i = i + 1;
    }
    assert(r@ =~= next_level(s@));
    r
}

/// The root of a tree of the given depth.
pub fn compute_root(leaves: &Vec<Field>, depth: usize) -> (r: Field)
    requires
        leaves.len() == pow2(depth as nat),
        all_in_field(leaves@),
    ensures
        r == root_of(leaves@, depth as nat),
        r.in_field_spec(),
{
    let mut cur: Vec<Field> = leaves.clone();
    let mut k: usize = 0;
    proof {
        assert(cur@ =~= leaves@);
    }
    while k < depth
        invariant
            k <= depth,
            leaves.len() == pow2(depth as nat),
            cur@ == level(leaves@, k as nat),
            all_in_field(cur@),
        decreases depth - k,
    {
        cur = hash_level(&cur);
        k = k + 1;
    }
    proof {
        lemma_level_len(leaves@, depth as nat, depth as nat);
    }
    cur[0]
}

/// The inclusion proof of leaf `idx`.
pub fn generate_proof(leaves: &Vec<Field>, depth: usize, idx: usize) -> (r: Vec<Branch>)
    requires
        leaves.len() == pow2(depth as nat),
        all_in_field(leaves@),
        idx < leaves.len(),
    ensures
        r@ == proof_of(leaves@, idx as nat, depth as nat),
        forall|i: int| 0 <= i < r.len() ==> #[trigger] sibling(r[i]).in_field_spec(),
{
    let mut cur: Vec<Field> = leaves.clone();
    let mut r: Vec<Branch> = Vec::new();
    let mut j: usize = idx;
    let mut k: usize = 0;
    proof {
        assert(cur@ =~= leaves@);
    }
    while k < depth
        invariant
            k <= depth,
            leaves.len() == pow2(depth as nat),
            idx < leaves.len(),
            cur@ == level(leaves@, k as nat),
            all_in_field(cur@),
            j == path_index(idx as nat, k as nat),
            r.len() == k,
            forall|m: int| 0 <= m < k ==> r[m] == branch_at(leaves@, idx as nat, m as nat),
            forall|m: int| 0 <= m < k ==> #[trigger] sibling(r[m]).in_field_spec(),
        decreases depth - k,
    {
        proof {
            lemma_level_len(leaves@, depth as nat, k as nat);
            lemma_path_index_bound(idx as nat, depth as nat, k as nat);
            lemma_pow2_pos((depth - k - 1) as nat);
            assert(cur.len() == 2 * pow2((depth - k - 1) as nat));
        }
        let b = if j % 2 == 0 {
            Branch::Left(cur[j + 1])
        } else {
            Branch::Right(cur[j - 1])
        };
        r.push(b);
        cur = hash_level(&cur);
        j = j / 2;
        k = k + 1;
    }
    assert(r@ =~= proof_of(leaves@, idx as nat, depth as nat));
    r
}

/// Whether `proof` leads from `leaf` to `root`; a proof holding a value
/// outside the field leads nowhere.
pub fn verify_proof(leaf: Field, proof: &Vec<Branch>, root: Field) -> (r: bool)
    ensures
        r == (leaf.in_field_spec() && (forall|i: int|
            0 <= i < proof.len() ==> #[trigger] sibling(proof[i]).in_field_spec())
            && fold_proof(leaf, proof@) == root),
{
    if !leaf.in_field() {
        return false;
    }
    let mut h: Field = leaf;
    let mut i: usize = 0;
    while i < proof.len()
        invariant
            i <= proof.len(),
            h.in_field_spec(),
            h == fold_proof(leaf, proof@.take(i as int)),
            forall|m: int| 0 <= m < i ==> #[trigger] sibling(proof[m]).in_field_spec(),
        decreases proof.len() - i,
    {
        assert(proof@.take(i + 1).drop_last() =~= proof@.take(i as int));
        let b = proof[i];
        let s = match b {
            Branch::Left(s) => s,
            Branch::Right(s) => s,
        };
        if !s.in_field() {
            assert(sibling(proof[i as int]) == s);
            return false;
        }
        h = match b {
            Branch::Left(s) => hash_pair(&h, &s),
            Branch::Right(s) => hash_pair(&s, &h),
        };
        i = i + 1;
    }
    assert(proof@.take(i as int) =~= proof@);
    h == root
}

} // verus!
