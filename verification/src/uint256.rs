//! An unsigned 256-bit integer held as four 64-bit limbs, least significant
//! first, together with the checked arithmetic the ledger needs.

use vstd::prelude::*;

verus! {

/// One more than the largest value a `Uint256` can hold.
pub open spec fn u256_bound() -> nat {
    0x10000000000000000000000000000000000000000000000000000000000000000nat
}

/// An unsigned 256-bit integer: four 64-bit limbs, least significant first.
#[derive(Clone, Copy, PartialEq, Eq, Structural, Debug)]
pub struct Uint256 {
    pub l0: u64,
    pub l1: u64,
    pub l2: u64,
    pub l3: u64,
}

impl Uint256 {
    /// The mathematical value of the four limbs.
    pub open spec fn as_nat(self) -> nat {
        (self.l0 + self.l1 * 0x10000000000000000 + self.l2 * 0x100000000000000000000000000000000
            + self.l3 * 0x1000000000000000000000000000000000000000000000000) as nat
    }

    /// Every representable value lies below `u256_bound()`.
    pub proof fn lemma_bound(self)
        ensures
            self.as_nat() < u256_bound(),
    {
    }

    /// The limb decomposition is unique: two values with the same
    /// mathematical value are equal.
    pub proof fn lemma_as_nat_injective(a: Uint256, b: Uint256)
        requires
            a.as_nat() == b.as_nat(),
        ensures
            a == b,
    {
        a.lemma_halves();
        b.lemma_halves();
    }

    pub fn from_u64(x: u64) -> (r: Uint256)
        ensures
            r.as_nat() == x,
    {
        Uint256 { l0: x, l1: 0, l2: 0, l3: 0 }
    }

    pub fn zero() -> (r: Uint256)
        ensures
            r.as_nat() == 0,
    {
        Uint256 { l0: 0, l1: 0, l2: 0, l3: 0 }
    }

    pub fn is_zero(&self) -> (r: bool)
        ensures
            r <==> self.as_nat() == 0,
    {
        self.l0 == 0 && self.l1 == 0 && self.l2 == 0 && self.l3 == 0
    }

    /// The upper 128 bits as one machine word.
    fn upper_half(&self) -> (r: u128)
        ensures
            r == self.l3 * 0x10000000000000000 + self.l2,
    {
        (self.l3 as u128) * 0x10000000000000000 + (self.l2 as u128)
    }

    /// The lower 128 bits as one machine word.
    fn lower_half(&self) -> (r: u128)
        ensures
            r == self.l1 * 0x10000000000000000 + self.l0,
    {
        (self.l1 as u128) * 0x10000000000000000 + (self.l0 as u128)
    }

    /// A value is its upper half shifted by 128 bits plus its lower half.
    proof fn lemma_halves(self)
        ensures
            self.as_nat() == (self.l3 * 0x10000000000000000 + self.l2)
                * 0x100000000000000000000000000000000
                + (self.l1 * 0x10000000000000000 + self.l0),
    {
    }

    pub fn lt(&self, other: &Uint256) -> (r: bool)
        ensures
            r <==> self.as_nat() < other.as_nat(),
    {
        proof {
            self.lemma_halves();
            other.lemma_halves();
        }
        let a_hi = self.upper_half();
        let b_hi = other.upper_half();
        if a_hi != b_hi {
            a_hi < b_hi
        } else {
            self.lower_half() < other.lower_half()
        }
    }

    pub fn le(&self, other: &Uint256) -> (r: bool)
        ensures
            r <==> self.as_nat() <= other.as_nat(),
    {
        !other.lt(self)
    }
}

/// Relies on `alloy_primitives::U256::checked_add` (ruint's `Uint::checked_add`):
/// it returns `Some` of the exact sum unless the sum exceeds the 256-bit range,
/// in which case it returns `None`. `from_limbs` and `into_limbs` exchange
/// little-endian 64-bit limbs.
#[verifier::external_body]
pub(crate) fn checked_add(a: &Uint256, b: &Uint256) -> (r: Option<Uint256>)
    ensures
        a.as_nat() + b.as_nat() < u256_bound() ==> (r is Some
            && r->0.as_nat() == a.as_nat() + b.as_nat()),
        a.as_nat() + b.as_nat() >= u256_bound() ==> r is None,
{
    let x = alloy_primitives::U256::from_limbs([a.l0, a.l1, a.l2, a.l3]);
    let y = alloy_primitives::U256::from_limbs([b.l0, b.l1, b.l2, b.l3]);
    match x.checked_add(y) {
        Some(z) => {
            let l = z.into_limbs();
            Some(Uint256 { l0: l[0], l1: l[1], l2: l[2], l3: l[3] })
        }
        None => None,
    }
}

/// Relies on `alloy_primitives::U256::checked_sub` (ruint's `Uint::checked_sub`):
/// it returns `Some` of the exact difference when the subtrahend does not exceed
/// the minuend, and `None` otherwise. `from_limbs` and `into_limbs` exchange
/// little-endian 64-bit limbs.
#[verifier::external_body]
pub(crate) fn checked_sub(a: &Uint256, b: &Uint256) -> (r: Option<Uint256>)
    ensures
        b.as_nat() <= a.as_nat() ==> (r is Some
            && r->0.as_nat() == a.as_nat() - b.as_nat()),
        b.as_nat() > a.as_nat() ==> r is None,
{
    let x = alloy_primitives::U256::from_limbs([a.l0, a.l1, a.l2, a.l3]);
    let y = alloy_primitives::U256::from_limbs([b.l0, b.l1, b.l2, b.l3]);
    match x.checked_sub(y) {
        Some(z) => {
            let l = z.into_limbs();
            Some(Uint256 { l0: l[0], l1: l[1], l2: l[2], l3: l[3] })
        }
        None => None,
    }
}

/// Relies on `alloy_primitives::U256::checked_mul` (ruint's `Uint::checked_mul`):
/// it returns `Some` of the exact product unless the product exceeds the 256-bit
/// range, in which case it returns `None`. `from_limbs` and `into_limbs`
/// exchange little-endian 64-bit limbs.
#[verifier::external_body]
pub(crate) fn checked_mul(a: &Uint256, b: &Uint256) -> (r: Option<Uint256>)
    ensures
        a.as_nat() * b.as_nat() < u256_bound() ==> (r is Some
            && r->0.as_nat() == a.as_nat() * b.as_nat()),
        a.as_nat() * b.as_nat() >= u256_bound() ==> r is None,
{
    let x = alloy_primitives::U256::from_limbs([a.l0, a.l1, a.l2, a.l3]);
    let y = alloy_primitives::U256::from_limbs([b.l0, b.l1, b.l2, b.l3]);
    match x.checked_mul(y) {
        Some(z) => {
            let l = z.into_limbs();
            Some(Uint256 { l0: l[0], l1: l[1], l2: l[2], l3: l[3] })
        }
        None => None,
    }
}

/// Relies on `alloy_primitives::U256::checked_div` (ruint's `Uint::checked_div`):
/// it returns `None` exactly when the divisor is zero, and otherwise `Some` of
/// the quotient rounded towards zero, which on unsigned values is the floor.
/// `from_limbs` and `into_limbs` exchange little-endian 64-bit limbs.
#[verifier::external_body]
pub(crate) fn checked_div(a: &Uint256, b: &Uint256) -> (r: Option<Uint256>)
    ensures
        b.as_nat() > 0 ==> (r is Some && r->0.as_nat() == a.as_nat() / b.as_nat()),
        b.as_nat() == 0 ==> r is None,
{
    let x = alloy_primitives::U256::from_limbs([a.l0, a.l1, a.l2, a.l3]);
    let y = alloy_primitives::U256::from_limbs([b.l0, b.l1, b.l2, b.l3]);
    match x.checked_div(y) {
        Some(z) => {
            let l = z.into_limbs();
            Some(Uint256 { l0: l[0], l1: l[1], l2: l[2], l3: l[3] })
        }
        None => None,
    }
}

} // verus!
