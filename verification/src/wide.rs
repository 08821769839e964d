//! Exact products of long integers, for the places where a result must be
//! rounded once and not at every step.
use crate::scalar::{saturate, RAW_MAX};
use vstd::prelude::*;

verus! {

/// Two to the power of 64: one limb.
pub const LIMB: u128 = 0x1_0000_0000_0000_0000;

/// An unsigned integer of 256 bits.
#[derive(Clone, Copy, Debug, PartialEq, Eq, Structural)]
pub struct Wide {
    pub hi: u128,
    pub lo: u128,
}

impl View for Wide {
    type V = int;

    /// The integer that the two halves stand for.
    open spec fn view(&self) -> int {
        self.hi * 0x1_0000_0000_0000_0000_0000_0000_0000_0000 + self.lo
    }
}

/// The exact product of two integers below `2^127`.
pub fn multiply(a: u128, b: u128) -> (w: Wide)
    requires
        a < 0x8000_0000_0000_0000_0000_0000_0000_0000,
        b < 0x8000_0000_0000_0000_0000_0000_0000_0000,
    ensures
        w@ == a * b,
{
    let a1: u128 = a / LIMB;
    let a0: u128 = a % LIMB;
    let b1: u128 = b / LIMB;
    let b0: u128 = b % LIMB;
    assert(a0 * b0 <= 0xffff_ffff_ffff_ffff * 0xffff_ffff_ffff_ffff) by (nonlinear_arith)
        requires
            a0 <= 0xffff_ffff_ffff_ffff,
            b0 <= 0xffff_ffff_ffff_ffff,
    ;
    assert(a1 * b0 <= 0x7fff_ffff_ffff_ffff * 0xffff_ffff_ffff_ffff) by (nonlinear_arith)
        requires
            a1 <= 0x7fff_ffff_ffff_ffff,
            b0 <= 0xffff_ffff_ffff_ffff,
    ;
    assert(a0 * b1 <= 0xffff_ffff_ffff_ffff * 0x7fff_ffff_ffff_ffff) by (nonlinear_arith)
        requires
            b1 <= 0x7fff_ffff_ffff_ffff,
            a0 <= 0xffff_ffff_ffff_ffff,
    ;
    assert(a1 * b1 <= 0x7fff_ffff_ffff_ffff * 0x7fff_ffff_ffff_ffff) by (nonlinear_arith)
        requires
            a1 <= 0x7fff_ffff_ffff_ffff,
            b1 <= 0x7fff_ffff_ffff_ffff,
    ;
    let p00: u128 = a0 * b0;
    let p11: u128 = a1 * b1;
    let mid: u128 = a1 * b0 + a0 * b1;
    let m1: u128 = mid / LIMB;
    let m0: u128 = mid % LIMB;
    let shifted: u128 = m0 * LIMB;
    let carry: u128 = if shifted > u128::MAX - p00 {
        1
    } else {
        0
    };
    let lo: u128 = if shifted > u128::MAX - p00 {
        shifted - (u128::MAX - p00) - 1
    } else {
        shifted + p00
    };
    proof {
        let l = LIMB as int;
        let x = a1 * l;
        let u = a1 * b0;
        let v = a0 * b1;
        assert(a * b == x * b + a0 * b) by (nonlinear_arith)
            requires
                a == x + a0,
        ;
        assert(x * b == x * (b1 * l) + x * b0) by (nonlinear_arith)
            requires
                b == b1 * l + b0,
        ;
        assert(x * (b1 * l) == p11 * (l * l)) by (nonlinear_arith)
            requires
                x == a1 * l,
                p11 == a1 * b1,
        ;
        assert(x * b0 == u * l) by (nonlinear_arith)
            requires
                x == a1 * l,
                u == a1 * b0,
        ;
        assert(a0 * b == v * l + p00) by (nonlinear_arith)
            requires
                b == b1 * l + b0,
                v == a0 * b1,
                p00 == a0 * b0,
        ;
        assert(u * l + v * l == mid * l) by (nonlinear_arith)
            requires
                mid == u + v,
        ;
        assert(a * b == p11 * (l * l) + mid * l + p00);
        assert(mid * l == m1 * (l * l) + m0 * l) by (nonlinear_arith)
            requires
                mid == m1 * l + m0,
        ;
        assert(l * l == 0x1_0000_0000_0000_0000_0000_0000_0000_0000);
        assert((p11 + m1 + carry) * (l * l) == p11 * (l * l) + m1 * (l * l) + carry * (l * l))
            by (nonlinear_arith);
    }
    Wide { hi: p11 + m1 + carry, lo }
}

/// Whether `x` is at most `y`.
pub fn at_most(x: Wide, y: Wide) -> (r: bool)
    ensures
        r == (x@ <= y@),
{
    x.hi < y.hi || (x.hi == y.hi && x.lo <= y.lo)
}

/// The sum of two integers that fits in 256 bits.
pub fn sum(x: Wide, y: Wide) -> (w: Wide)
    requires
        x.hi + y.hi < 0xffff_ffff_ffff_ffff_ffff_ffff_ffff_ffff,
    ensures
        w@ == x@ + y@,
{
    if x.lo > u128::MAX - y.lo {
        Wide { hi: x.hi + y.hi + 1, lo: x.lo - (u128::MAX - y.lo) - 1 }
    } else {
        Wide { hi: x.hi + y.hi, lo: x.lo + y.lo }
    }
}

/// The difference of two integers of which the first is not the smaller.
pub fn difference(x: Wide, y: Wide) -> (w: Wide)
    requires
        y@ <= x@,
    ensures
        w@ == x@ - y@,
{
    if x.lo >= y.lo {
        Wide { hi: x.hi - y.hi, lo: x.lo - y.lo }
    } else {
        Wide { hi: x.hi - y.hi - 1, lo: u128::MAX - y.lo + 1 + x.lo }
    }
}

/// The integer square root of an integer below `2^250`.
pub fn root(n: Wide) -> (r: u128)
    requires
        n.hi < 0x400_0000_0000_0000_0000_0000_0000_0000,
    ensures
        crate::scalar::is_floor_sqrt(n@, r as int),
        r == crate::scalar::floor_sqrt(n@),
        r < 0x2000_0000_0000_0000_0000_0000_0000_0000,
{
    let mut lo: u128 = 0;
    let mut hi: u128 = 0x2000_0000_0000_0000_0000_0000_0000_0000;
    assert(hi * hi > n@) by (nonlinear_arith)
        requires
            hi == 0x2000_0000_0000_0000_0000_0000_0000_0000,
            n@ < 0x400_0000_0000_0000_0000_0000_0000_0000
                * 0x1_0000_0000_0000_0000_0000_0000_0000_0000,
    ;
    while hi - lo > 1
        invariant
            lo < hi <= 0x2000_0000_0000_0000_0000_0000_0000_0000,
            lo * lo <= n@ < hi * hi,
        decreases hi - lo,
    {
        let mid: u128 = lo + (hi - lo) / 2;
        if at_most(multiply(mid, mid), n) {
            lo = mid;
        } else {
            hi = mid;
        }
    }
    proof {
        crate::scalar::lemma_floor_sqrt_unique(n@, lo as int);
    }
    lo
}

/// The quotient of `n` by `d`, rounded down, or the largest number where
/// the quotient is beyond it.
pub fn quotient_capped(n: Wide, d: u128) -> (q: i64)
    requires
        1 <= d < 0x8000_0000_0000_0000_0000_0000_0000_0000,
    ensures
        q == saturate(n@ / (d as int)),
        0 <= q,
{
    let top = multiply(RAW_MAX as u128, d);
    if at_most(top, n) {
        proof {
            vstd::arithmetic::div_mod::lemma_div_is_ordered(RAW_MAX * d, n@, d as int);
            vstd::arithmetic::div_mod::lemma_div_multiples_vanish(RAW_MAX as int, d as int);
            assert(RAW_MAX * d == d * RAW_MAX) by (nonlinear_arith);
        }
        return RAW_MAX;
    }
    let mut lo: u128 = 0;
    let mut hi: u128 = RAW_MAX as u128;
    assert(0 * d == 0);
    while hi - lo > 1
        invariant
            lo < hi <= RAW_MAX,
            1 <= d < 0x8000_0000_0000_0000_0000_0000_0000_0000,
            lo * d <= n@ < hi * d,
        decreases hi - lo,
    {
        let mid: u128 = lo + (hi - lo) / 2;
        if at_most(multiply(mid, d), n) {
            lo = mid;
        } else {
            hi = mid;
        }
    }
    proof {
        let rest = n@ - lo * d;
        assert(hi * d == lo * d + d) by (nonlinear_arith)
            requires
                hi == lo + 1,
        ;
        vstd::arithmetic::div_mod::lemma_fundamental_div_mod_converse(
            n@,
            d as int,
            lo as int,
            rest,
        );
    }
    lo as i64
}

} // verus!
