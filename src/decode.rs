//! Leaf updates carried by the two recognised write calls: identity
//! registrations and packed deletion indices.

use vstd::prelude::*;
use crate::hash::Field;

verus! {

/// The index that pads a packed deletion list; it names no leaf.
pub const PADDING_INDEX: u32 = 0xFFFF_FFFF;

/// The big-endian 32-bit word at word position `w`.
pub open spec fn be_word(b: Seq<u8>, w: int) -> int {
    b[4 * w] * 0x100_0000 + b[4 * w + 1] * 0x1_0000 + b[4 * w + 2] * 0x100 + b[4 * w + 3]
}

/// The indices held in the first `n` words of `b`, padding left out.
pub open spec fn unpack_words(b: Seq<u8>, n: nat) -> Seq<u32>
    decreases n,
{
    if n == 0 {
        Seq::empty()
    } else {
        let prev = unpack_words(b, (n - 1) as nat);
        let w = be_word(b, n - 1);
        if w == PADDING_INDEX as int {
            prev
        } else {
            prev.push(w as u32)
        }
    }
}

/// The deletion indices packed in `b`: whole 4-byte words only, padding left out.
pub open spec fn unpacked_indices(b: Seq<u8>) -> Seq<u32> {
    unpack_words(b, b.len() / 4)
}

/// The leaf updates of `n` first commitments registered from `start`: zero
/// commitments are left out.
pub open spec fn insertion_prefix(start: int, c: Seq<Field>, n: nat) -> Seq<(u32, Field)>
    decreases n,
{
    if n == 0 {
        Seq::empty()
    } else {
        let prev = insertion_prefix(start, c, (n - 1) as nat);
        if c[n - 1] == Field::zero_spec() {
            prev
        } else {
            prev.push(((start + n - 1) as u32, c[n - 1]))
        }
    }
}

pub open spec fn insertion_updates_spec(start: int, c: Seq<Field>) -> Seq<(u32, Field)> {
    insertion_prefix(start, c, c.len())
}

/// The leaf updates of a deletion: each index set to the zero leaf.
pub open spec fn deletion_updates_spec(indices: Seq<u32>) -> Seq<(u32, Field)> {
    Seq::new(indices.len(), |i: int| (indices[i], Field::zero_spec()))
}

/// Reads consecutive big-endian 32-bit indices, skipping the padding index.
/// Trailing bytes that do not fill a word are ignored.
pub fn unpack_indices(packed: &[u8]) -> (r: Vec<u32>)
    ensures
        r@ == unpacked_indices(packed@),
{
    let n: usize = packed.len() / 4;
    let mut r: Vec<u32> = Vec::new();
    let mut w: usize = 0;
    while w < n
        invariant
            n == packed.len() / 4,
            w <= n,
            r@ == unpack_words(packed@, w as nat),
        decreases n - w,
    {
        let v: u32 = (packed[4 * w] as u32) * 0x100_0000 + (packed[4 * w + 1] as u32) * 0x1_0000
            + (packed[4 * w + 2] as u32) * 0x100 + (packed[4 * w + 3] as u32);
        if v != PADDING_INDEX {
            r.push(v);
        }
        w = w + 1;
    }
    r
}

/// The leaf updates of a registration: `(start + i, c[i])` for each non-zero
/// commitment `c[i]`.
pub fn insertion_updates(start: u32, commitments: &Vec<Field>) -> (r: Vec<(u32, Field)>)
    requires
        start + commitments.len() <= u32::MAX + 1,
    ensures
        r@ == insertion_updates_spec(start as int, commitments@),
{
    let mut r: Vec<(u32, Field)> = Vec::new();
    let mut i: usize = 0;
    while i < commitments.len()
        invariant
            start + commitments.len() <= u32::MAX + 1,
            i <= commitments.len(),
            r@ == insertion_prefix(start as int, commitments@, i as nat),
        decreases commitments.len() - i,
    {
        let c = commitments[i];
        if !c.is_zero() {
            r.push((start + i as u32, c));
        }
        i = i + 1;
    }
    r
}

/// The leaf updates of a deletion: every index set to the zero leaf.
pub fn deletion_updates(indices: &Vec<u32>) -> (r: Vec<(u32, Field)>)
    ensures
        r@ == deletion_updates_spec(indices@),
{
    let mut r: Vec<(u32, Field)> = Vec::new();
    let mut i: usize = 0;
    while i < indices.len()
        invariant
            i <= indices.len(),
            r.len() == i,
            forall|j: int| 0 <= j < i ==> r[j] == (indices[j], Field::zero_spec()),
        decreases indices.len() - i,
    {
        r.push((indices[i], Field::zero()));
        i = i + 1;
    }
    assert(r@ =~= deletion_updates_spec(indices@));
    r
}

} // verus!
