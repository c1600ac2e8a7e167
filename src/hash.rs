//! The 256-bit hash values held in the tree, and the two-to-one node hash.

use vstd::prelude::*;
use ruint::aliases::U256;
use semaphore_rs_poseidon::poseidon::hash2;

verus! {

/// A 256-bit field element, as four little-endian 64-bit limbs.
#[derive(PartialEq, Eq, Structural, Clone, Copy, Debug)]
pub struct Field {
    pub l0: u64,
    pub l1: u64,
    pub l2: u64,
    pub l3: u64,
}

impl Field {
    /// The canonical empty leaf.
    pub fn zero() -> (r: Field)
        ensures
            r == Field::zero_spec(),
    {
        Field { l0: 0, l1: 0, l2: 0, l3: 0 }
    }

    pub open spec fn zero_spec() -> Field {
        Field { l0: 0, l1: 0, l2: 0, l3: 0 }
    }

    /// A hash whose value fits in 64 bits.
    pub fn from_u64(v: u64) -> (r: Field)
        ensures
            r == (Field { l0: v, l1: 0, l2: 0, l3: 0 }),
    {
        Field { l0: v, l1: 0, l2: 0, l3: 0 }
    }

    /// Whether the value is below the field modulus
    /// `0x30644e72e131a029b85045b68181585d2833e84879b9709143e1f593f0000001`,
    /// compared limb by limb from the most significant one.
    pub open spec fn in_field_spec(&self) -> bool {
        ||| self.l3 < MOD_L3
        ||| self.l3 == MOD_L3 && self.l2 < MOD_L2
        ||| self.l3 == MOD_L3 && self.l2 == MOD_L2 && self.l1 < MOD_L1
        ||| self.l3 == MOD_L3 && self.l2 == MOD_L2 && self.l1 == MOD_L1 && self.l0 < MOD_L0
    }

    pub fn in_field(&self) -> (r: bool)
        ensures
            r == self.in_field_spec(),
    {
        if self.l3 != MOD_L3 {
            self.l3 < MOD_L3
        } else if self.l2 != MOD_L2 {
            self.l2 < MOD_L2
        } else if self.l1 != MOD_L1 {
            self.l1 < MOD_L1
        } else {
            self.l0 < MOD_L0
        }
    }

    pub fn is_zero(&self) -> (r: bool)
        ensures
            r == (*self == Field::zero_spec()),
    {
        self.l0 == 0 && self.l1 == 0 && self.l2 == 0 && self.l3 == 0
    }
}

pub const MOD_L3: u64 = 0x3064_4e72_e131_a029;
pub const MOD_L2: u64 = 0xb850_45b6_8181_585d;
pub const MOD_L1: u64 = 0x2833_e848_79b9_7091;
pub const MOD_L0: u64 = 0x43e1_f593_f000_0001;

/// The Poseidon hash of two children, left then right.
pub uninterp spec fn poseidon_node(left: Field, right: Field) -> Field;

/// Relies on `semaphore_rs_poseidon::poseidon::hash2`, the node hash of the
/// identity tree: its result depends on the two arguments alone and is a
/// field element; it panics unless both arguments are field elements.
#[verifier::external_body]
pub fn hash_pair(left: &Field, right: &Field) -> (r: Field)
    requires
        left.in_field_spec(),
        right.in_field_spec(),
    ensures
        r == poseidon_node(*left, *right),
        r.in_field_spec(),
{
    let l = U256::from_limbs([left.l0, left.l1, left.l2, left.l3]);
    let r = U256::from_limbs([right.l0, right.l1, right.l2, right.l3]);
    let h = hash2(l, r);
    let limbs = h.as_limbs();
    Field { l0: limbs[0], l1: limbs[1], l2: limbs[2], l3: limbs[3] }
}

} // verus!
