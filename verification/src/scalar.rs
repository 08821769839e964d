//! Decimal fixed-point numbers with nine fractional digits.
//!
//! Every quantity of the renderer (coordinates, colours, ray parameters) is a
//! [`Fixed`]: a signed 64-bit count of billionths. Results that do not fit
//! saturate at the largest magnitude, which therefore doubles as "infinity".
//! Products and quotients round toward zero.
use vstd::prelude::*;

verus! {

/// Raw units in one whole.
pub const SCALE: i64 = 1_000_000_000;

/// Largest magnitude a [`Fixed`] holds after any operation.
pub const RAW_MAX: i64 = 0x7fff_ffff_ffff_ffff;

/// Clamps an integer into `[-RAW_MAX, RAW_MAX]`.
pub open spec fn saturate(x: int) -> int {
    if x > RAW_MAX {
        RAW_MAX as int
    } else if x < -RAW_MAX {
        -(RAW_MAX as int)
    } else {
        x
    }
}

/// Absolute value of an integer.
pub open spec fn magnitude(x: int) -> int {
    if x < 0 {
        -x
    } else {
        x
    }
}

/// Quotient of `n` by `d`, rounded toward zero. A zero divisor gives the
/// largest magnitude with the sign of `n` (and zero for `0 / 0`).
pub open spec fn quotient(n: int, d: int) -> int {
    if d == 0 {
        if n > 0 {
            RAW_MAX as int
        } else if n < 0 {
            -(RAW_MAX as int)
        } else {
            0
        }
    } else if (n >= 0) == (d > 0) {
        magnitude(n) / magnitude(d)
    } else {
        -(magnitude(n) / magnitude(d))
    }
}

/// Product of two raw values in raw units, before saturation.
pub open spec fn product(a: int, b: int) -> int {
    quotient(a * b, SCALE as int)
}

/// Whether `r` is the integer square root of `n`.
pub open spec fn is_floor_sqrt(n: int, r: int) -> bool {
    0 <= r && r * r <= n < (r + 1) * (r + 1)
}

/// Largest integer whose square does not exceed `n` (zero for negative `n`).
pub open spec fn floor_sqrt(n: int) -> int {
    if n < 0 {
        0
    } else {
        choose|r: int| is_floor_sqrt(n, r)
    }
}

proof fn lemma_square_monotone(a: int, b: int)
    by (nonlinear_arith)
    requires
        0 <= a <= b,
    ensures
        a * a <= b * b,
{
}

/// The integer square root is unique: any `r` that brackets `n` is it.
pub proof fn lemma_floor_sqrt_unique(n: int, r: int)
    requires
        is_floor_sqrt(n, r),
    ensures
        floor_sqrt(n) == r,
{
    assert(0 <= n) by (nonlinear_arith)
        requires
            0 <= r,
            r * r <= n,
    ;
    let c = choose|c: int| is_floor_sqrt(n, c);
    assert(is_floor_sqrt(n, c));
    if c < r {
        lemma_square_monotone(c + 1, r);
    } else if r < c {
        lemma_square_monotone(r + 1, c);
    }
}

/// Every non-negative integer has an integer square root, no larger than itself.
pub proof fn lemma_floor_sqrt_exists(n: int)
    requires
        0 <= n,
    ensures
        is_floor_sqrt(n, floor_sqrt(n)),
        floor_sqrt(n) <= n,
    decreases n,
{
    if n == 0 {
        assert(is_floor_sqrt(0, 0));
        lemma_floor_sqrt_unique(0, 0);
    } else {
        lemma_floor_sqrt_exists(n - 1);
        let p = floor_sqrt(n - 1);
        if (p + 1) * (p + 1) <= n {
            assert((p + 2) * (p + 2) > n) by (nonlinear_arith)
                requires
                    0 <= p,
                    n - 1 < (p + 1) * (p + 1),
            ;
            assert(is_floor_sqrt(n, p + 1));
            lemma_floor_sqrt_unique(n, p + 1);
            assert(p + 1 <= n) by (nonlinear_arith)
                requires
                    0 <= p,
                    (p + 1) * (p + 1) <= n,
            ;
        } else {
            assert(p * p <= n);
            assert(is_floor_sqrt(n, p));
            lemma_floor_sqrt_unique(n, p);
        }
    }
}

/// The square root of a number is a number: it is not negative and stays
/// far below the largest magnitude.
pub proof fn lemma_sqrt_fits(x: Fixed)
    ensures
        x.spec_sqrt().raw == floor_sqrt(x.raw * SCALE),
        0 <= x.spec_sqrt().raw < 0x8000_0000_0000,
{
    let n = x.raw * SCALE;
    if n >= 0 {
        lemma_floor_sqrt_exists(n);
        let s = floor_sqrt(n);
        assert(s < 0x8000_0000_0000) by (nonlinear_arith)
            requires
                s * s <= n,
                n < 0x8000_0000_0000 * 0x8000_0000_0000,
                0 <= s,
        ;
    }
}

/// The quotient of a dividend that lies between two multiples of the divisor.
pub proof fn lemma_quotient_value(n: int, d: int, q: int)
    requires
        d > 0,
        0 <= q * d <= n < q * d + d,
    ensures
        quotient(n, d) == q,
{
    vstd::arithmetic::div_mod::lemma_fundamental_div_mod_converse(n, d, q, n - q * d);
}

/// A product that needs no rounding: where `a * b` is `p` wholes of the
/// scale, the product is `p`.
pub proof fn lemma_product_exact(a: int, b: int, p: int)
    requires
        a * b == p * SCALE,
    ensures
        product(a, b) == p,
{
    let n = a * b;
    assert(n == p * 1_000_000_000);
    assert(magnitude(n) == magnitude(p) * 1_000_000_000);
    assert(magnitude(n) / 1_000_000_000 == magnitude(p));
}

/// One is the unit of the product, and zero annihilates.
pub proof fn lemma_product_unit(a: int)
    ensures
        product(a, SCALE as int) == a,
        product(SCALE as int, a) == a,
        product(a, 0) == 0,
        product(0, a) == 0,
{
    assert(a * 1_000_000_000 == 1_000_000_000 * a);
    lemma_product_exact(a, SCALE as int, a);
    lemma_product_exact(SCALE as int, a, a);
    assert(a * 0 == 0 && 0 * a == 0);
}

/// Division by a positive number keeps the order of the dividends.
pub proof fn lemma_quotient_monotone(n1: int, n2: int, d: int)
    requires
        n1 <= n2,
        d > 0,
    ensures
        quotient(n1, d) <= quotient(n2, d),
{
    if n1 >= 0 {
        vstd::arithmetic::div_mod::lemma_div_is_ordered(n1, n2, d);
    } else if n2 >= 0 {
        vstd::arithmetic::div_mod::lemma_div_is_ordered(0, -n1, d);
        vstd::arithmetic::div_mod::lemma_div_is_ordered(0, n2, d);
    } else {
        vstd::arithmetic::div_mod::lemma_div_is_ordered(-n2, -n1, d);
    }
}

/// Clamps a wide integer to the representable range.
pub(crate) fn clamp(x: i128) -> (r: i64)
    ensures
        r == saturate(x as int),
{
    if x > RAW_MAX as i128 {
        RAW_MAX
    } else if x < -(RAW_MAX as i128) {
        -RAW_MAX
    } else {
        x as i64
    }
}

/// Division of wide integers, rounded toward zero and total in the divisor.
pub(crate) fn divide(n: i128, d: i128) -> (r: i128)
    requires
        -0x7fff_ffff_ffff_ffff_ffff_ffff_ffff_ffff <= n,
        -0x7fff_ffff_ffff_ffff_ffff_ffff_ffff_ffff <= d,
    ensures
        r == quotient(n as int, d as int),
        magnitude(r as int) <= magnitude(n as int) || d == 0,
{
    if d == 0 {
        if n > 0 {
            RAW_MAX as i128
        } else if n < 0 {
            -(RAW_MAX as i128)
        } else {
            0
        }
    } else {
        let an: u128 = if n < 0 {
            (-n) as u128
        } else {
            n as u128
        };
        let ad: u128 = if d < 0 {
            (-d) as u128
        } else {
            d as u128
        };
        let q: u128 = an / ad;
        assert(q <= an) by (nonlinear_arith)
            requires
                q == an / ad,
                ad >= 1,
        ;
        if (n >= 0) == (d > 0) {
            q as i128
        } else {
            -(q as i128)
        }
    }
}

/// Integer square root of a 128-bit value.
pub(crate) fn root(n: u128) -> (r: u64)
    ensures
        r == floor_sqrt(n as int),
        is_floor_sqrt(n as int, r as int),
{
    let mut lo: u128 = 0;
    let mut hi: u128 = 0x1_0000_0000_0000_0000;
    assert(hi * hi > n) by (nonlinear_arith)
        requires
            hi == 0x1_0000_0000_0000_0000,
            n <= 0xffff_ffff_ffff_ffff_ffff_ffff_ffff_ffff,
    ;
    while hi - lo > 1
        invariant
            lo < hi <= 0x1_0000_0000_0000_0000,
            lo * lo <= n < hi * hi,
        decreases hi - lo,
    {
        let mid: u128 = lo + (hi - lo) / 2;
        assert(mid * mid <= 0xffff_ffff_ffff_ffff * 0xffff_ffff_ffff_ffff) by (nonlinear_arith)
            requires
                mid <= 0xffff_ffff_ffff_ffff,
        ;
        if mid * mid <= n {
            lo = mid;
        } else {
            hi = mid;
        }
    }
    proof {
        assert(hi == lo + 1);
        assert(is_floor_sqrt(n as int, lo as int));
        lemma_floor_sqrt_unique(n as int, lo as int);
    }
    lo as u64
}

/// A decimal fixed-point number: `raw` counts billionths.
#[derive(Clone, Copy, Debug, PartialEq, Eq, Structural)]
pub struct Fixed {
    pub raw: i64,
}

impl View for Fixed {
    type V = int;

    /// The number in raw units.
    open spec fn view(&self) -> int {
        self.raw as int
    }
}

impl Fixed {
    /// The number nearest to `x` raw units that can be represented.
    pub open spec fn of(x: int) -> Fixed {
        Fixed { raw: saturate(x) as i64 }
    }

    /// Saturating sum.
    pub open spec fn spec_add(self, rhs: Fixed) -> Fixed {
        Fixed::of(self.raw + rhs.raw)
    }

    /// Saturating difference.
    pub open spec fn spec_sub(self, rhs: Fixed) -> Fixed {
        Fixed::of(self.raw - rhs.raw)
    }

    /// Saturating product, rounded toward zero.
    pub open spec fn spec_mul(self, rhs: Fixed) -> Fixed {
        Fixed::of(product(self.raw as int, rhs.raw as int))
    }

    /// Saturating quotient, rounded toward zero; see [`quotient`] for a zero divisor.
    pub open spec fn spec_div(self, rhs: Fixed) -> Fixed {
        Fixed::of(quotient(self.raw * SCALE, rhs.raw as int))
    }

    /// Saturating negation.
    pub open spec fn spec_neg(self) -> Fixed {
        Fixed::of(-self.raw)
    }

    /// Saturating absolute value.
    pub open spec fn spec_abs(self) -> Fixed {
        Fixed::of(magnitude(self.raw as int))
    }

    /// The smaller of two numbers.
    pub open spec fn spec_min(self, rhs: Fixed) -> Fixed {
        if self.raw <= rhs.raw {
            self
        } else {
            rhs
        }
    }

    /// The larger of two numbers.
    pub open spec fn spec_max(self, rhs: Fixed) -> Fixed {
        if self.raw >= rhs.raw {
            self
        } else {
            rhs
        }
    }

    /// Square root rounded down; zero for a negative number.
    pub open spec fn spec_sqrt(self) -> Fixed {
        Fixed { raw: floor_sqrt(self.raw * SCALE) as i64 }
    }

    /// The whole number `n`.
    pub open spec fn spec_from_int(n: int) -> Fixed {
        Fixed::of(n * SCALE)
    }

    /// The fraction `num / den`, rounded toward zero.
    pub open spec fn spec_from_ratio(num: int, den: int) -> Fixed {
        Fixed::of(quotient(num * SCALE, den))
    }

    /// The number of `raw` billionths. The least number of 64 bits, which has
    /// no opposite, gives the number of the largest magnitude below zero.
    pub fn from_raw(raw: i64) -> (r: Fixed)
        ensures
            r == Fixed::of(raw as int),
            r.raw == saturate(raw as int),
            raw >= -RAW_MAX ==> r.raw == raw,
    {
        Fixed { raw: clamp(raw as i128) }
    }

    /// The whole number `n`.
    pub fn from_int(n: i32) -> (r: Fixed)
        ensures
            r == Fixed::spec_from_int(n as int),
            r.raw == n * SCALE,
    {
        Fixed { raw: (n as i64) * 1_000_000_000 }
    }

    /// The whole number `n`.
    pub fn from_u32(n: u32) -> (r: Fixed)
        ensures
            r == Fixed::spec_from_int(n as int),
            r.raw == n * SCALE,
    {
        Fixed { raw: (n as i64) * 1_000_000_000 }
    }

    /// The fraction `num / den`, rounded toward zero.
    pub fn from_ratio(num: i64, den: i64) -> (r: Fixed)
        ensures
            r == Fixed::spec_from_ratio(num as int, den as int),
    {
        Fixed { raw: clamp(divide(scaled(num), den as i128)) }
    }

    /// Zero.
    pub fn zero() -> (r: Fixed)
        ensures
            r.raw == 0,
    {
        Fixed { raw: 0 }
    }

    /// One.
    pub fn one() -> (r: Fixed)
        ensures
            r.raw == SCALE,
    {
        Fixed { raw: SCALE }
    }

    /// The largest number, which stands for an unbounded limit.
    pub fn max_value() -> (r: Fixed)
        ensures
            r.raw == RAW_MAX,
    {
        Fixed { raw: RAW_MAX }
    }

    /// Saturating absolute value.
    pub fn abs(self) -> (r: Fixed)
        ensures
            r == self.spec_abs(),
    {
        if self.raw < 0 {
            Fixed { raw: clamp(-(self.raw as i128)) }
        } else {
            self
        }
    }

    /// The smaller of two numbers.
    pub fn min(self, rhs: Fixed) -> (r: Fixed)
        ensures
            r == self.spec_min(rhs),
    {
        if self.raw <= rhs.raw {
            self
        } else {
            rhs
        }
    }

    /// The larger of two numbers.
    pub fn max(self, rhs: Fixed) -> (r: Fixed)
        ensures
            r == self.spec_max(rhs),
    {
        if self.raw >= rhs.raw {
            self
        } else {
            rhs
        }
    }

    /// Square root rounded down; zero for a negative number.
    pub fn sqrt(self) -> (r: Fixed)
        ensures
            r == self.spec_sqrt(),
            r.raw == floor_sqrt(self.raw * SCALE),
            0 <= r.raw,
    {
        if self.raw <= 0 {
            proof {
                if self.raw == 0 {
                    assert(is_floor_sqrt(0, 0));
                    lemma_floor_sqrt_unique(0, 0);
                } else {
                    assert(self.raw * 1_000_000_000 < 0);
                }
            }
            Fixed { raw: 0 }
        } else {
            let n: u128 = (self.raw as u128) * 1_000_000_000;
            let s: u64 = root(n);
            proof {
                // s * s <= n < 2^93, so s < 2^47.
                assert(s < 0x8000_0000_0000) by (nonlinear_arith)
                    requires
                        s * s <= n,
                        n < 0x8000_0000_0000 * 0x8000_0000_0000,
                        0 <= s,
                ;
            }
            Fixed { raw: s as i64 }
        }
    }
}

impl core::ops::Add for Fixed {
    type Output = Fixed;

    fn add(self, rhs: Fixed) -> (r: Fixed)
        ensures
            r == self.spec_add(rhs),
    {
        Fixed { raw: clamp(self.raw as i128 + rhs.raw as i128) }
    }
}

impl vstd::std_specs::ops::AddSpecImpl for Fixed {
    open spec fn obeys_add_spec() -> bool {
        true
    }

    open spec fn add_req(self, rhs: Fixed) -> bool {
        true
    }

    open spec fn add_spec(self, rhs: Fixed) -> Fixed {
        self.spec_add(rhs)
    }
}

impl core::ops::Sub for Fixed {
    type Output = Fixed;

    fn sub(self, rhs: Fixed) -> (r: Fixed)
        ensures
            r == self.spec_sub(rhs),
    {
        Fixed { raw: clamp(self.raw as i128 - rhs.raw as i128) }
    }
}

impl vstd::std_specs::ops::SubSpecImpl for Fixed {
    open spec fn obeys_sub_spec() -> bool {
        true
    }

    open spec fn sub_req(self, rhs: Fixed) -> bool {
        true
    }

    open spec fn sub_spec(self, rhs: Fixed) -> Fixed {
        self.spec_sub(rhs)
    }
}

impl core::ops::Mul for Fixed {
    type Output = Fixed;

    fn mul(self, rhs: Fixed) -> (r: Fixed)
        ensures
            r == self.spec_mul(rhs),
    {
        Fixed { raw: clamp(wide_product(self.raw, rhs.raw)) }
    }
}

impl vstd::std_specs::ops::MulSpecImpl for Fixed {
    open spec fn obeys_mul_spec() -> bool {
        true
    }

    open spec fn mul_req(self, rhs: Fixed) -> bool {
        true
    }

    open spec fn mul_spec(self, rhs: Fixed) -> Fixed {
        self.spec_mul(rhs)
    }
}

impl core::ops::Div for Fixed {
    type Output = Fixed;

    fn div(self, rhs: Fixed) -> (r: Fixed)
        ensures
            r == self.spec_div(rhs),
    {
        Fixed { raw: clamp(divide(scaled(self.raw), rhs.raw as i128)) }
    }
}

impl vstd::std_specs::ops::DivSpecImpl for Fixed {
    open spec fn obeys_div_spec() -> bool {
        true
    }

    open spec fn div_req(self, rhs: Fixed) -> bool {
        true
    }

    open spec fn div_spec(self, rhs: Fixed) -> Fixed {
        self.spec_div(rhs)
    }
}

impl core::ops::Neg for Fixed {
    type Output = Fixed;

    fn neg(self) -> (r: Fixed)
        ensures
            r == self.spec_neg(),
    {
        Fixed { raw: clamp(-(self.raw as i128)) }
    }
}

impl vstd::std_specs::ops::NegSpecImpl for Fixed {
    open spec fn obeys_neg_spec() -> bool {
        true
    }

    open spec fn neg_req(self) -> bool {
        true
    }

    open spec fn neg_spec(self) -> Fixed {
        self.spec_neg()
    }
}

/// Product of two raw values in raw units, rounded toward zero, unsaturated.
pub(crate) fn wide_product(a: i64, b: i64) -> (r: i128)
    ensures
        r == product(a as int, b as int),
        magnitude(r as int) <= 0x10_0000_0000_0000_0000_0000_0000,
{
    let x: i128 = a as i128;
    let y: i128 = b as i128;
    assert(-0x4000_0000_0000_0000_0000_0000_0000_0000 <= x * y
        <= 0x4000_0000_0000_0000_0000_0000_0000_0000) by (nonlinear_arith)
        requires
            -0x8000_0000_0000_0000 <= x <= 0x8000_0000_0000_0000,
            -0x8000_0000_0000_0000 <= y <= 0x8000_0000_0000_0000,
    ;
    let p: i128 = x * y;
    assert(magnitude(p as int) / 1_000_000_000 <= 0x10_0000_0000_0000_0000_0000_0000);
    divide(p, SCALE as i128)
}

/// A raw value times the scale.
pub(crate) fn scaled(a: i64) -> (r: i128)
    ensures
        r == a * SCALE,
        -0x1_0000_0000_0000_0000_0000_0000 < r < 0x1_0000_0000_0000_0000_0000_0000,
{
    let x: i128 = a as i128;
    assert(-0x1_0000_0000_0000_0000_0000_0000 < x * 1_000_000_000
        < 0x1_0000_0000_0000_0000_0000_0000);
    x * 1_000_000_000
}

/// Square of a raw value.
pub(crate) fn square(a: i64) -> (r: u128)
    ensures
        r == a * a,
        r <= 0x4000_0000_0000_0000_0000_0000_0000_0000,
{
    let m: u128 = if a < 0 {
        (-(a as i128)) as u128
    } else {
        a as u128
    };
    assert(m * m == a * a && m * m <= 0x4000_0000_0000_0000_0000_0000_0000_0000)
        by (nonlinear_arith)
        requires
            m == magnitude(a as int),
            m <= 0x8000_0000_0000_0000,
    ;
    m * m
}

impl Default for Fixed {
    fn default() -> (r: Fixed)
        ensures
            r.raw == 0,
    {
        Fixed { raw: 0 }
    }
}

} // verus!
