//! Amounts of motes: unsigned integers of 512 bits.

use vstd::prelude::*;

verus! {

/// Two to the 64th.
pub const HALF_LIMB: u128 = 0x1_0000_0000_0000_0000;

/// Two to the 128th: what one unit of a limb is worth in the limb below it.
pub open spec fn limb_base() -> nat {
    0x1_0000_0000_0000_0000_0000_0000_0000_0000nat
}

/// The number of values that 512 bits can hold.
pub open spec fn u512_range() -> nat {
    limb_base() * limb_base() * limb_base() * limb_base()
}

/// An unsigned integer of 512 bits, in four limbs, the lowest first.
#[derive(Clone, Copy, Debug, PartialEq, Eq, Structural)]
pub struct U512 {
    /// Bits 0 to 127.
    pub l0: u128,
    /// Bits 128 to 255.
    pub l1: u128,
    /// Bits 256 to 383.
    pub l2: u128,
    /// Bits 384 to 511.
    pub l3: u128,
}

impl View for U512 {
    type V = nat;

    /// The number that the limbs stand for.
    open spec fn view(&self) -> nat {
        self.l0 as nat + limb_base() * (self.l1 as nat + limb_base() * (self.l2 as nat
            + limb_base() * self.l3 as nat))
    }
}

/// Multiplies one limb by `m` and adds `carry`: the low limb of the result and what is carried on.
fn limb_times(limb: u128, m: u64, carry: u64) -> (r: (u128, u64))
    ensures
        limb * m + carry == r.0 + limb_base() * r.1,
{
    let high: u128 = limb / HALF_LIMB;
    let low: u128 = limb % HALF_LIMB;
    let m2: u128 = m as u128;
    assert(high <= 0xffff_ffff_ffff_ffff && low <= 0xffff_ffff_ffff_ffff);
    assert(0 <= low * m2 <= 0xffff_ffff_ffff_ffff * 0xffff_ffff_ffff_ffff) by (nonlinear_arith)
        requires
            0 <= low <= 0xffff_ffff_ffff_ffff,
            0 <= m2 <= 0xffff_ffff_ffff_ffff,
    ;
    assert(0 <= high * m2 <= 0xffff_ffff_ffff_ffff * 0xffff_ffff_ffff_ffff) by (nonlinear_arith)
        requires
            0 <= high <= 0xffff_ffff_ffff_ffff,
            0 <= m2 <= 0xffff_ffff_ffff_ffff,
    ;
    let p: u128 = low * m2 + carry as u128;
    let q: u128 = high * m2 + p / HALF_LIMB;
    let out: u128 = (q % HALF_LIMB) * HALF_LIMB + p % HALF_LIMB;
    let next: u64 = (q / HALF_LIMB) as u64;
    assert(limb * m == (high * m2) * HALF_LIMB + low * m2) by (nonlinear_arith)
        requires
            limb == high * HALF_LIMB + low,
            m2 == m,
    ;
    (out, next)
}

impl U512 {
    /// Zero.
    pub fn zero() -> (r: U512)
        ensures
            r@ == 0,
    {
        U512 { l0: 0, l1: 0, l2: 0, l3: 0 }
    }

    /// The amount that equals `n`.
    pub fn from_u64(n: u64) -> (r: U512)
        ensures
            r@ == n,
    {
        U512 { l0: n as u128, l1: 0, l2: 0, l3: 0 }
    }

    /// The amount that equals `n`.
    pub fn from_u128(n: u128) -> (r: U512)
        ensures
            r@ == n,
    {
        U512 { l0: n, l1: 0, l2: 0, l3: 0 }
    }

    /// The amount as a `u64`, or nothing where it does not fit.
    pub fn to_u64(&self) -> (r: Option<u64>)
        ensures
            r == (if self@ <= u64::MAX {
                Some(self@ as u64)
            } else {
                None
            }),
    {
        if self.l1 == 0 && self.l2 == 0 && self.l3 == 0 && self.l0 < HALF_LIMB {
            Some(self.l0 as u64)
        } else {
            None
        }
    }

    /// Whether this amount is at least `other`.
    pub fn at_least(&self, other: &U512) -> (r: bool)
        ensures
            r == (self@ >= other@),
    {
        if self.l3 != other.l3 {
            self.l3 > other.l3
        } else if self.l2 != other.l2 {
            self.l2 > other.l2
        } else if self.l1 != other.l1 {
            self.l1 > other.l1
        } else {
            self.l0 >= other.l0
        }
    }

    /// The product of the amount and `m`.
    pub fn times(self, m: u64) -> (r: U512)
        requires
            self@ * m < u512_range(),
        ensures
            r@ == self@ * m,
    {
        let (l0, c0) = limb_times(self.l0, m, 0);
        let (l1, c1) = limb_times(self.l1, m, c0);
        let (l2, c2) = limb_times(self.l2, m, c1);
        let (l3, c3) = limb_times(self.l3, m, c2);
        proof {
            let b = limb_base() as int;
            let (x0, x1, x2, x3) = (self.l0 as int, self.l1 as int, self.l2 as int, self.l3 as int);
            assert((x0 + b * (x1 + b * (x2 + b * x3))) * m == x0 * m + b * (x1 * m + b * (x2 * m + b
                * (x3 * m)))) by (nonlinear_arith);
        }
        U512 { l0, l1, l2, l3 }
    }
}

/// Equal amounts have equal limbs: an amount is held in one way only.
pub proof fn lemma_amount_unique(a: U512, b: U512)
    requires
        a@ == b@,
    ensures
        a == b,
{
}

/// The limbs are the digits of the amount to the base of two to the 128th.
pub proof fn lemma_limbs(a: U512)
    ensures
        ({
            let b = 0x1_0000_0000_0000_0000_0000_0000_0000_0000nat;
            a@ == a.l0 as nat + b * a.l1 as nat + b * b * a.l2 as nat + b * b * b * a.l3 as nat
        }),
{
    let b = 0x1_0000_0000_0000_0000_0000_0000_0000_0000nat;
    let (x0, x1, x2, x3) = (a.l0 as nat, a.l1 as nat, a.l2 as nat, a.l3 as nat);
    assert(x0 + b * (x1 + b * (x2 + b * x3)) == x0 + b * x1 + b * b * x2 + b * b * b * x3)
        by (nonlinear_arith);
}

} // verus!
