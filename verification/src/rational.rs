//! Non-negative fractions of 64-bit integers, kept in lowest terms.
//!
//! The arithmetic itself is done by `num_rational::Ratio<u64>`. Every operation is checked: it
//! gives nothing where the computation would leave the range of a `u64`.

use num::{CheckedAdd, CheckedDiv, CheckedMul, CheckedSub};
use num_rational::Ratio;
use vstd::arithmetic::div_mod::{
    lemma_div_multiples_vanish, lemma_fundamental_div_mod, lemma_mod_multiples_basic,
    lemma_truncate_middle,
};
use vstd::prelude::*;

verus! {

/// The greatest common divisor of `a` and `b`, by Euclid's recursion.
pub open spec fn gcd(a: nat, b: nat) -> nat
    decreases b,
{
    if b == 0 {
        a
    } else {
        gcd(b, a % b)
    }
}

/// A non-negative fraction.
#[derive(Clone, Copy, Debug, PartialEq, Eq, Structural)]
pub struct Rational {
    /// The part above the line.
    pub numer: u64,
    /// The part below the line.
    pub denom: u64,
}

/// The fraction `n / d` in lowest terms, or nothing where one of the two terms exceeds a `u64`.
pub open spec fn lowest(n: nat, d: nat) -> Option<Rational> {
    let g = gcd(n, d);
    if n / g <= u64::MAX && d / g <= u64::MAX {
        Some(Rational { numer: (n / g) as u64, denom: (d / g) as u64 })
    } else {
        None
    }
}

/// The least common multiple of the two denominators.
pub open spec fn common_denom(a: Rational, b: Rational) -> nat {
    (a.denom as nat / gcd(a.denom as nat, b.denom as nat)) * b.denom as nat
}

/// The numerator of `a` over the denominator `l`, which is a multiple of the denominator of `a`.
pub open spec fn numer_over(a: Rational, l: nat) -> nat {
    (l / a.denom as nat) * a.numer as nat
}

/// Whether `a` and `b` can both be written over their common denominator in a `u64`.
pub open spec fn common_terms_fit(a: Rational, b: Rational) -> bool {
    let l = common_denom(a, b);
    &&& l <= u64::MAX
    &&& numer_over(a, l) <= u64::MAX
    &&& numer_over(b, l) <= u64::MAX
}

/// `a + b`, computed over the common denominator.
pub open spec fn sum(a: Rational, b: Rational) -> Option<Rational> {
    let l = common_denom(a, b);
    let n = numer_over(a, l) + numer_over(b, l);
    if common_terms_fit(a, b) && n <= u64::MAX {
        lowest(n, l)
    } else {
        None
    }
}

/// `a - b`, computed over the common denominator; nothing where `b` is the larger.
pub open spec fn difference(a: Rational, b: Rational) -> Option<Rational> {
    let l = common_denom(a, b);
    let n = numer_over(a, l) - numer_over(b, l);
    if common_terms_fit(a, b) && n >= 0 {
        lowest(n as nat, l)
    } else {
        None
    }
}

/// `a * b`.
pub open spec fn product(a: Rational, b: Rational) -> Option<Rational> {
    lowest(a.numer as nat * b.numer as nat, a.denom as nat * b.denom as nat)
}

/// `a / k`; nothing where `k` is zero.
pub open spec fn quotient(a: Rational, k: u64) -> Option<Rational> {
    if k == 0 {
        None
    } else {
        lowest(a.numer as nat, a.denom as nat * k as nat)
    }
}

/// The integer `k` as a fraction.
pub open spec fn integer(k: u64) -> Rational {
    Rational { numer: k, denom: 1 }
}

/// `num_rational::Ratio::new` on `u64`: reduces the fraction to lowest terms. It panics where the
/// denominator is zero, which `requires` leaves out.
#[verifier::external_body]
fn ratio_new(n: u64, d: u64) -> (r: (u64, u64))
    requires
        d != 0,
    ensures
        lowest(n as nat, d as nat) == Some(Rational { numer: r.0, denom: r.1 }),
{
    Ratio::new(n, d).into()
}

/// `CheckedAdd::checked_add` on `num_rational::Ratio<u64>`: brings both operands over their least
/// common denominator, adds, and reduces. It gives nothing exactly where the common denominator, a
/// numerator over it or the sum of the two exceeds a `u64`.
#[verifier::external_body]
fn ratio_checked_add(a: Rational, b: Rational) -> (r: Option<(u64, u64)>)
    requires
        a.wf(),
        b.wf(),
    ensures
        sum(a, b) == (match r {
            Some(t) => Some(Rational { numer: t.0, denom: t.1 }),
            None => None,
        }),
{
    let left = Ratio::new_raw(a.numer, a.denom);
    left.checked_add(&Ratio::new_raw(b.numer, b.denom)).map(|r| r.into())
}

/// `CheckedSub::checked_sub` on `num_rational::Ratio<u64>`: as the addition, with the difference of
/// the numerators, which must not be negative.
#[verifier::external_body]
fn ratio_checked_sub(a: Rational, b: Rational) -> (r: Option<(u64, u64)>)
    requires
        a.wf(),
        b.wf(),
    ensures
        difference(a, b) == (match r {
            Some(t) => Some(Rational { numer: t.0, denom: t.1 }),
            None => None,
        }),
{
    let left = Ratio::new_raw(a.numer, a.denom);
    left.checked_sub(&Ratio::new_raw(b.numer, b.denom)).map(|r| r.into())
}

/// `CheckedMul::checked_mul` on `num_rational::Ratio<u64>`: cancels crosswise before it multiplies,
/// so that for operands in lowest terms it gives nothing exactly where the product in lowest terms
/// exceeds a `u64`.
#[verifier::external_body]
fn ratio_checked_mul(a: Rational, b: Rational) -> (r: Option<(u64, u64)>)
    requires
        a.wf(),
        b.wf(),
    ensures
        product(a, b) == (match r {
            Some(t) => Some(Rational { numer: t.0, denom: t.1 }),
            None => None,
        }),
{
    let left = Ratio::new_raw(a.numer, a.denom);
    left.checked_mul(&Ratio::new_raw(b.numer, b.denom)).map(|r| r.into())
}

/// `CheckedDiv::checked_div` on `num_rational::Ratio<u64>` with an integer divisor: cancels before
/// it multiplies, so that for a dividend in lowest terms it gives nothing exactly where the divisor
/// is zero or the quotient in lowest terms exceeds a `u64`.
#[verifier::external_body]
fn ratio_checked_div(a: Rational, k: u64) -> (r: Option<(u64, u64)>)
    requires
        a.wf(),
    ensures
        quotient(a, k) == (match r {
            Some(t) => Some(Rational { numer: t.0, denom: t.1 }),
            None => None,
        }),
{
    let left = Ratio::new_raw(a.numer, a.denom);
    left.checked_div(&Ratio::from_integer(k)).map(|r| r.into())
}

impl Rational {
    /// The fraction is in lowest terms and its denominator is not zero.
    pub open spec fn wf(self) -> bool {
        &&& self.denom > 0
        &&& gcd(self.numer as nat, self.denom as nat) == 1
    }

    /// The number that the fraction stands for.
    pub open spec fn value(self) -> real {
        self.numer as real / self.denom as real
    }

    /// The fraction `numer / denom` in lowest terms.
    pub fn new(numer: u64, denom: u64) -> (r: Rational)
        requires
            denom != 0,
        ensures
            lowest(numer as nat, denom as nat) == Some(r),
            r.wf(),
    {
        let t: (u64, u64) = ratio_new(numer, denom);
        proof {
            lemma_lowest(numer as nat, denom as nat);
        }
        Rational { numer: t.0, denom: t.1 }
    }

    /// The integer `k` as a fraction.
    pub fn from_integer(k: u64) -> (r: Rational)
        ensures
            r == integer(k),
            r.wf(),
    {
        proof {
            lemma_integer(k);
        }
        Rational { numer: k, denom: 1 }
    }

    /// Checked addition.
    pub fn checked_add(self, other: Rational) -> (r: Option<Rational>)
        requires
            self.wf(),
            other.wf(),
        ensures
            r == sum(self, other),
            r matches Some(s) ==> s.wf(),
    {
        proof {
            lemma_common_denom(self, other);
            let l = common_denom(self, other);
            lemma_lowest(numer_over(self, l) + numer_over(other, l), l);
        }
        match ratio_checked_add(self, other) {
            Some(t) => Some(Rational { numer: t.0, denom: t.1 }),
            None => None,
        }
    }

    /// Checked subtraction.
    pub fn checked_sub(self, other: Rational) -> (r: Option<Rational>)
        requires
            self.wf(),
            other.wf(),
        ensures
            r == difference(self, other),
            r matches Some(s) ==> s.wf(),
    {
        proof {
            lemma_common_denom(self, other);
            let l = common_denom(self, other);
            let n = numer_over(self, l) - numer_over(other, l);
            if n >= 0 {
                lemma_lowest(n as nat, l);
            }
        }
        match ratio_checked_sub(self, other) {
            Some(t) => Some(Rational { numer: t.0, denom: t.1 }),
            None => None,
        }
    }

    /// Checked multiplication.
    pub fn checked_mul(self, other: Rational) -> (r: Option<Rational>)
        requires
            self.wf(),
            other.wf(),
        ensures
            r == product(self, other),
            r matches Some(s) ==> s.wf(),
    {
        proof {
            let d = self.denom as nat * other.denom as nat;
            assert(d > 0) by (nonlinear_arith)
                requires
                    d == self.denom as nat * other.denom as nat,
                    self.denom > 0,
                    other.denom > 0,
            ;
            lemma_lowest(self.numer as nat * other.numer as nat, d);
        }
        match ratio_checked_mul(self, other) {
            Some(t) => Some(Rational { numer: t.0, denom: t.1 }),
            None => None,
        }
    }

    /// Checked division by an integer.
    pub fn checked_div(self, k: u64) -> (r: Option<Rational>)
        requires
            self.wf(),
        ensures
            r == quotient(self, k),
            r matches Some(s) ==> s.wf(),
    {
        proof {
            if k > 0 {
                let d = self.denom as nat * k as nat;
                assert(d > 0) by (nonlinear_arith)
                    requires
                        d == self.denom as nat * k as nat,
                        self.denom > 0,
                        k > 0,
                ;
                lemma_lowest(self.numer as nat, d);
            }
        }
        match ratio_checked_div(self, k) {
            Some(t) => Some(Rational { numer: t.0, denom: t.1 }),
            None => None,
        }
    }
}

/// The greatest common divisor divides both numbers.
pub proof fn lemma_gcd_divides(a: nat, b: nat)
    requires
        a > 0 || b > 0,
    ensures
        gcd(a, b) > 0,
        a % gcd(a, b) == 0,
        b % gcd(a, b) == 0,
    decreases b,
{
    let g = gcd(a, b);
    if b == 0 {
        lemma_mod_multiples_basic(1, a as int);
        lemma_mod_multiples_basic(0, a as int);
    } else {
        let r = a % b;
        lemma_gcd_divides(b, r);
        lemma_fundamental_div_mod(a as int, b as int);
        lemma_fundamental_div_mod(b as int, g as int);
        lemma_fundamental_div_mod(r as int, g as int);
        let q = a / b;
        let x = b / g;
        let y = r / g;
        assert(a == (x * q + y) * g) by (nonlinear_arith)
            requires
                a == b * q + r,
                b == g * x,
                r == g * y,
        ;
        lemma_mod_multiples_basic((x * q + y) as int, g as int);
    }
}

/// Every common divisor of two numbers divides their greatest common divisor.
pub proof fn lemma_gcd_is_greatest(a: nat, b: nat, k: nat)
    requires
        k > 0,
        a % k == 0,
        b % k == 0,
    ensures
        gcd(a, b) % k == 0,
    decreases b,
{
    if b > 0 {
        let r = a % b;
        lemma_fundamental_div_mod(a as int, b as int);
        lemma_fundamental_div_mod(a as int, k as int);
        lemma_fundamental_div_mod(b as int, k as int);
        let q = a / b;
        let x = a / k;
        let y = b / k;
        assert(r == (x - y * q) * k) by (nonlinear_arith)
            requires
                a == b * q + r,
                a == k * x,
                b == k * y,
        ;
        lemma_mod_multiples_basic(x - y * q, k as int);
        lemma_gcd_is_greatest(b, r, k);
    }
}

/// Scaling both numbers scales their greatest common divisor.
proof fn lemma_gcd_scaled(k: nat, a: nat, b: nat)
    requires
        k > 0,
    ensures
        gcd(k * a, k * b) == k * gcd(a, b),
    decreases b,
{
    if b == 0 {
        assert(k * b == 0) by (nonlinear_arith)
            requires
                b == 0,
        ;
    } else {
        assert(k * b > 0) by (nonlinear_arith)
            requires
                b > 0,
                k > 0,
        ;
        lemma_truncate_middle(a as int, k as int, b as int);
        lemma_gcd_scaled(k, b, a % b);
    }
}

/// Reducing a fraction keeps its value and leaves it in lowest terms.
pub proof fn lemma_lowest(n: nat, d: nat)
    requires
        d > 0,
    ensures
        gcd(n, d) > 0,
        n <= u64::MAX && d <= u64::MAX ==> lowest(n, d) is Some,
        lowest(n, d) matches Some(r) ==> r.wf() && r.value() == n as real / d as real,
{
    let g = gcd(n, d);
    lemma_gcd_divides(n, d);
    lemma_fundamental_div_mod(n as int, g as int);
    lemma_fundamental_div_mod(d as int, g as int);
    let x = n / g;
    let y = d / g;
    assert(n == g * x && d == g * y);
    assert(y > 0 && x <= n && y <= d) by (nonlinear_arith)
        requires
            d > 0,
            g > 0,
            n == g * x,
            d == g * y,
            x >= 0,
            y >= 0,
    ;
    lemma_gcd_scaled(g, x, y);
    assert(gcd(x, y) == 1) by (nonlinear_arith)
        requires
            g == g * gcd(x, y),
            g > 0,
    ;
    assert(x as real / y as real == n as real / d as real) by (nonlinear_arith)
        requires
            n == g * x,
            d == g * y,
            g > 0,
            y > 0,
    ;
}

/// An integer is a fraction in lowest terms, and stands for itself.
pub proof fn lemma_integer(k: u64)
    ensures
        integer(k).wf(),
        integer(k).value() == k as real,
{
    reveal_with_fuel(gcd, 3);
    assert(k as nat % 1 == 0);
    assert(k as real / 1 as real == k as real) by (nonlinear_arith);
}

/// The common denominator is a multiple of both denominators, and rewriting a fraction over it
/// keeps the fraction's value.
pub proof fn lemma_common_denom(a: Rational, b: Rational)
    requires
        a.wf(),
        b.wf(),
    ensures
        common_denom(a, b) > 0,
        numer_over(a, common_denom(a, b)) as real / common_denom(a, b) as real == a.value(),
        numer_over(b, common_denom(a, b)) as real / common_denom(a, b) as real == b.value(),
{
    let p = a.denom as nat;
    let q = b.denom as nat;
    let g = gcd(p, q);
    lemma_gcd_divides(p, q);
    lemma_fundamental_div_mod(p as int, g as int);
    lemma_fundamental_div_mod(q as int, g as int);
    let x = p / g;
    let y = q / g;
    let l = common_denom(a, b);
    assert(x > 0 && y > 0 && l == y * p && l == x * q && l > 0) by (nonlinear_arith)
        requires
            p > 0,
            q > 0,
            g > 0,
            p == g * x,
            q == g * y,
            l == x * q,
            x >= 0,
            y >= 0,
    ;
    lemma_div_multiples_vanish(y as int, p as int);
    lemma_div_multiples_vanish(x as int, q as int);
    assert(l / p == y && l / q == x) by (nonlinear_arith)
        requires
            (p * y) / p == y,
            (q * x) / q == x,
            l == y * p,
            l == x * q,
    ;
    lemma_scaled_value(a.numer as nat, p, y, l);
    lemma_scaled_value(b.numer as nat, q, x, l);
}

proof fn lemma_scaled_value(n: nat, d: nat, k: nat, l: nat)
    requires
        d > 0,
        k > 0,
        l == k * d,
    ensures
        (k * n) as real / l as real == n as real / d as real,
{
    assert((k * n) as real / l as real == n as real / d as real) by (nonlinear_arith)
        requires
            d > 0,
            k > 0,
            l == k * d,
    ;
}

/// Addition of fractions is addition of the numbers that they stand for.
pub proof fn lemma_sum_value(a: Rational, b: Rational)
    requires
        a.wf(),
        b.wf(),
    ensures
        sum(a, b) matches Some(r) ==> r.wf() && r.value() == a.value() + b.value(),
{
    lemma_common_denom(a, b);
    let l = common_denom(a, b);
    let x = numer_over(a, l);
    let y = numer_over(b, l);
    lemma_lowest(x + y, l);
    assert((x + y) as real / l as real == x as real / l as real + y as real / l as real)
        by (nonlinear_arith)
        requires
            l > 0,
    ;
}

/// Subtraction of fractions is subtraction of the numbers that they stand for.
pub proof fn lemma_difference_value(a: Rational, b: Rational)
    requires
        a.wf(),
        b.wf(),
    ensures
        difference(a, b) matches Some(r) ==> r.wf() && r.value() == a.value() - b.value(),
{
    lemma_common_denom(a, b);
    let l = common_denom(a, b);
    let x = numer_over(a, l);
    let y = numer_over(b, l);
    if x >= y {
        lemma_lowest((x - y) as nat, l);
        assert((x - y) as real / l as real == x as real / l as real - y as real / l as real)
            by (nonlinear_arith)
            requires
                l > 0,
        ;
    }
}

/// Multiplication of fractions is multiplication of the numbers that they stand for.
pub proof fn lemma_product_value(a: Rational, b: Rational)
    requires
        a.wf(),
        b.wf(),
    ensures
        product(a, b) matches Some(r) ==> r.wf() && r.value() == a.value() * b.value(),
{
    let n = a.numer as nat * b.numer as nat;
    let d = a.denom as nat * b.denom as nat;
    assert(d > 0) by (nonlinear_arith)
        requires
            d == a.denom as nat * b.denom as nat,
            a.denom > 0,
            b.denom > 0,
    ;
    lemma_lowest(n, d);
    let (p, q, x, y) = (a.numer as nat, b.numer as nat, a.denom as nat, b.denom as nat);
    assert((p * q) as real / (x * y) as real == (p as real / x as real) * (q as real / y as real))
        by (nonlinear_arith)
        requires
            x > 0,
            y > 0,
    ;
}

/// Division by an integer is division of the number that the fraction stands for.
pub proof fn lemma_quotient_value(a: Rational, k: u64)
    requires
        a.wf(),
    ensures
        quotient(a, k) matches Some(r) ==> r.wf() && r.value() * (k as real) == a.value(),
{
    if k > 0 {
        let d = a.denom as nat * k as nat;
        assert(d > 0) by (nonlinear_arith)
            requires
                d == a.denom as nat * k as nat,
                a.denom > 0,
                k > 0,
        ;
        lemma_lowest(a.numer as nat, d);
        let (n, x, z) = (a.numer as nat, a.denom as nat, k as nat);
        assert((n as real / (x * z) as real) * (z as real) == n as real / x as real)
            by (nonlinear_arith)
            requires
                x > 0,
                z > 0,
        ;
    }
}

/// Two fractions in lowest terms that stand for the same number are the same fraction.
pub proof fn lemma_lowest_terms_unique(a: Rational, b: Rational)
    requires
        a.wf(),
        b.wf(),
        a.value() == b.value(),
    ensures
        a == b,
{
    let (p, q, x, y) = (a.numer as nat, b.numer as nat, a.denom as nat, b.denom as nat);
    assert(p * y == q * x) by (nonlinear_arith)
        requires
            p as real / x as real == q as real / y as real,
            x > 0,
            y > 0,
    ;
    lemma_gcd_scaled(y, p, x);
    lemma_gcd_scaled(x, q, y);
    assert(y * p == x * q && y * x == x * y) by (nonlinear_arith)
        requires
            p * y == q * x,
    ;
    assert(x == y) by (nonlinear_arith)
        requires
            y * 1 == x * 1,
    ;
    assert(p == q) by (nonlinear_arith)
        requires
            p * y == q * x,
            x == y,
            x > 0,
    ;
}

/// Reducing a fraction makes neither term larger.
proof fn lemma_lowest_fits(n: nat, d: nat)
    requires
        0 < d <= u64::MAX,
        n <= u64::MAX,
    ensures
        lowest(n, d) is Some,
        lowest(n, d)->0.numer <= n,
        lowest(n, d)->0.denom <= d,
{
    lemma_lowest(n, d);
    let g = gcd(n, d);
    assert(n / g <= n && d / g <= d) by (nonlinear_arith)
        requires
            g > 0,
    ;
}

/// A product can be written down where the products of the numerators and of the denominators can, and
/// its terms are no larger than these.
pub proof fn lemma_product_fits(a: Rational, b: Rational)
    requires
        a.denom > 0,
        b.denom > 0,
        a.numer * b.numer <= u64::MAX,
        a.denom * b.denom <= u64::MAX,
    ensures
        product(a, b) is Some,
        product(a, b)->0.numer <= a.numer * b.numer,
        product(a, b)->0.denom <= a.denom * b.denom,
{
    let n = a.numer as nat * b.numer as nat;
    let d = a.denom as nat * b.denom as nat;
    assert(d > 0) by (nonlinear_arith)
        requires
            d == a.denom as nat * b.denom as nat,
            a.denom > 0,
            b.denom > 0,
    ;
    lemma_lowest_fits(n, d);
}

/// A quotient can be written down where the divisor is not zero and the product of the denominator and
/// the divisor can, and its terms are no larger than the numerator and that product.
pub proof fn lemma_quotient_fits(a: Rational, k: u64)
    requires
        a.denom > 0,
        k > 0,
        a.denom * k <= u64::MAX,
    ensures
        quotient(a, k) is Some,
        quotient(a, k)->0.numer <= a.numer,
        quotient(a, k)->0.denom <= a.denom * k,
{
    let d = a.denom as nat * k as nat;
    assert(d > 0) by (nonlinear_arith)
        requires
            d == a.denom as nat * k as nat,
            a.denom > 0,
            k > 0,
    ;
    lemma_lowest_fits(a.numer as nat, d);
}

/// What is left of one can be written down, and its terms are no larger than the denominator.
pub proof fn lemma_rest_fits(a: Rational)
    requires
        a.denom > 0,
        a.numer <= a.denom,
    ensures
        difference(integer(1), a) is Some,
        difference(integer(1), a)->0.numer <= a.denom,
        difference(integer(1), a)->0.denom <= a.denom,
{
    let d = a.denom as nat;
    lemma_gcd_divides(1, d);
    let g = gcd(1, d);
    assert(g == 1) by (nonlinear_arith)
        requires
            g > 0,
            1nat % g == 0,
    ;
    assert(1nat / 1nat == 1 && d / 1 == d && d / d == 1) by (nonlinear_arith)
        requires
            d > 0,
    ;
    assert(common_denom(integer(1), a) == d) by (nonlinear_arith)
        requires
            common_denom(integer(1), a) == (1nat / g) * d,
            g == 1,
    ;
    assert(numer_over(integer(1), d) == d) by (nonlinear_arith)
        requires
            numer_over(integer(1), d) == (d / 1nat) * 1nat,
            d / 1nat == d,
    ;
    assert(numer_over(a, d) == a.numer) by (nonlinear_arith)
        requires
            numer_over(a, d) == (d / d) * a.numer as nat,
            d / d == 1nat,
    ;
    lemma_lowest_fits((d - a.numer) as nat, d);
}

/// A sum can be written down where it can over the product of the denominators.
pub proof fn lemma_sum_fits(a: Rational, b: Rational)
    requires
        a.denom > 0,
        b.denom > 0,
        a.denom * b.denom <= u64::MAX,
        a.numer * b.denom + b.numer * a.denom <= u64::MAX,
    ensures
        sum(a, b) is Some,
{
    let (p, q) = (a.denom as nat, b.denom as nat);
    let (m, n) = (a.numer as nat, b.numer as nat);
    let g = gcd(p, q);
    lemma_gcd_divides(p, q);
    lemma_fundamental_div_mod(p as int, g as int);
    lemma_fundamental_div_mod(q as int, g as int);
    let x = p / g;
    let y = q / g;
    let l = common_denom(a, b);
    assert(0 < x <= p && 0 < y <= q && l == y * p && l == x * q && 0 < l <= p * q)
        by (nonlinear_arith)
        requires
            p > 0,
            q > 0,
            g > 0,
            p == g * x,
            q == g * y,
            l == x * q,
            x >= 0,
            y >= 0,
    ;
    lemma_div_multiples_vanish(y as int, p as int);
    lemma_div_multiples_vanish(x as int, q as int);
    assert(l / p == y && l / q == x) by (nonlinear_arith)
        requires
            (p * y) / p == y,
            (q * x) / q == x,
            l == y * p,
            l == x * q,
    ;
    assert(y * m <= m * q && x * n <= n * p) by (nonlinear_arith)
        requires
            y <= q,
            x <= p,
    ;
    assert(numer_over(a, l) == y * m && numer_over(b, l) == x * n);
    assert(m * q == a.numer * b.denom && n * p == b.numer * a.denom && p * q == a.denom * b.denom);
    lemma_lowest(numer_over(a, l) + numer_over(b, l), l);
}

} // verus!
