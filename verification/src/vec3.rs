//! Directions and displacements in space.
use crate::error::Error;
use crate::point3::Point3;
use crate::random;
use crate::scalar::{clamp, floor_sqrt, product, root, square, wide_product, Fixed, SCALE};
use core::ops::Neg;
use vstd::prelude::*;

verus! {

/// How many candidates a rejection sampler draws before it settles for the
/// centre of the shape.
pub const MAX_DRAWS: u32 = 1024;

/// A direction or displacement with three components.
#[derive(Clone, Copy, Debug, PartialEq, Eq, Structural)]
pub struct Vec3 {
    pub x: Fixed,
    pub y: Fixed,
    pub z: Fixed,
}

impl Vec3 {
    /// The vector of length zero.
    pub open spec fn spec_zero() -> Vec3 {
        Vec3 { x: Fixed { raw: 0 }, y: Fixed { raw: 0 }, z: Fixed { raw: 0 } }
    }

    /// The unit vector along the first axis.
    pub open spec fn spec_first_axis() -> Vec3 {
        Vec3 { x: Fixed { raw: SCALE }, y: Fixed { raw: 0 }, z: Fixed { raw: 0 } }
    }

    /// Componentwise sum.
    pub open spec fn spec_add(self, rhs: Vec3) -> Vec3 {
        Vec3 {
            x: self.x.spec_add(rhs.x),
            y: self.y.spec_add(rhs.y),
            z: self.z.spec_add(rhs.z),
        }
    }

    /// Componentwise difference.
    pub open spec fn spec_sub(self, rhs: Vec3) -> Vec3 {
        Vec3 {
            x: self.x.spec_sub(rhs.x),
            y: self.y.spec_sub(rhs.y),
            z: self.z.spec_sub(rhs.z),
        }
    }

    /// The opposite vector.
    pub open spec fn spec_neg(self) -> Vec3 {
        Vec3 { x: self.x.spec_neg(), y: self.y.spec_neg(), z: self.z.spec_neg() }
    }

    /// Every component multiplied by `k`.
    pub open spec fn spec_scale(self, k: Fixed) -> Vec3 {
        Vec3 { x: self.x.spec_mul(k), y: self.y.spec_mul(k), z: self.z.spec_mul(k) }
    }

    /// Every component divided by `k`.
    pub open spec fn spec_div(self, k: Fixed) -> Vec3 {
        Vec3 { x: self.x.spec_div(k), y: self.y.spec_div(k), z: self.z.spec_div(k) }
    }

    /// The point reached from `rhs` by this displacement.
    pub open spec fn spec_add_point(self, rhs: Point3) -> Point3 {
        Point3 {
            x: self.x.spec_add(rhs.x),
            y: self.y.spec_add(rhs.y),
            z: self.z.spec_add(rhs.z),
        }
    }

    /// Componentwise difference with the coordinates of a point.
    pub open spec fn spec_sub_point(self, rhs: Point3) -> Point3 {
        Point3 {
            x: self.x.spec_sub(rhs.x),
            y: self.y.spec_sub(rhs.y),
            z: self.z.spec_sub(rhs.z),
        }
    }

    /// Dot product: the three products are summed exactly and the sum saturates.
    pub open spec fn spec_dot(self, other: Vec3) -> Fixed {
        Fixed::of(
            product(self.x@, other.x@) + product(self.y@, other.y@) + product(self.z@, other.z@),
        )
    }

    /// Squared length.
    pub open spec fn spec_mag_squared(self) -> Fixed {
        self.spec_dot(self)
    }

    /// Length: the integer square root of the exact sum of squares.
    pub open spec fn spec_mag(self) -> Fixed {
        Fixed::of(floor_sqrt(self.x@ * self.x@ + self.y@ * self.y@ + self.z@ * self.z@))
    }

    /// Cross product.
    pub open spec fn spec_cross(self, other: Vec3) -> Vec3 {
        Vec3 {
            x: self.y.spec_mul(other.z).spec_sub(self.z.spec_mul(other.y)),
            y: self.z.spec_mul(other.x).spec_sub(self.x.spec_mul(other.z)),
            z: self.x.spec_mul(other.y).spec_sub(self.y.spec_mul(other.x)),
        }
    }

    /// The factor by which a vector is stretched before it is normalised: a
    /// vector with every component below one is taken a billion times as
    /// long, so that its length has nine digits more than its components.
    pub open spec fn spec_stretch(self) -> int {
        if -SCALE < self.x.raw < SCALE && -SCALE < self.y.raw < SCALE && -SCALE < self.z.raw
            < SCALE {
            SCALE as int
        } else {
            1
        }
    }

    /// The length of the stretched vector in raw units, rounded down.
    pub open spec fn spec_stretched_length(self) -> int {
        let f = self.spec_stretch();
        floor_sqrt(
            (self.x@ * f) * (self.x@ * f) + (self.y@ * f) * (self.y@ * f) + (self.z@ * f) * (self.z@
                * f),
        )
    }

    /// The component `c` of the stretched vector, divided by its length.
    pub open spec fn spec_unit_component(self, c: int) -> Fixed {
        Fixed::of(crate::scalar::quotient(c * self.spec_stretch() * SCALE, self.spec_stretched_length()))
    }

    /// The vector of length one in the direction of this vector, or the fault
    /// for a vector without length. The length by which the components are
    /// divided is taken of the stretched vector, so that it is known to nine
    /// digits however short the vector is.
    pub open spec fn spec_unit(self) -> Result<Vec3, Error> {
        if self == Vec3::spec_zero() {
            Err(Error::DegenerateVector)
        } else {
            Ok(
                Vec3 {
                    x: self.spec_unit_component(self.x@),
                    y: self.spec_unit_component(self.y@),
                    z: self.spec_unit_component(self.z@),
                },
            )
        }
    }

    /// The vector divided by its length, or `fallback` for a vector without length.
    pub open spec fn spec_unit_or(self, fallback: Vec3) -> Vec3 {
        match self.spec_unit() {
            Ok(u) => u,
            Err(_) => fallback,
        }
    }

    /// Whether every component is smaller than `1e-8` in magnitude.
    pub open spec fn spec_is_near_zero(self) -> bool {
        -10 < self.x@ < 10 && -10 < self.y@ < 10 && -10 < self.z@ < 10
    }

    /// Mirror image about the plane with normal `normal`: `v - 2 (v . n) n`.
    pub open spec fn spec_reflect(self, normal: Vec3) -> Vec3 {
        self.spec_sub(normal.spec_scale(Fixed::spec_from_int(2).spec_mul(self.spec_dot(normal))))
    }

    /// Component of the refracted direction across the surface.
    pub open spec fn spec_refract_perp(self, normal: Vec3, etai_over_etat: Fixed) -> Vec3 {
        let cos_theta = Fixed { raw: SCALE }.spec_min(self.spec_dot(normal).spec_neg());
        self.spec_add(normal.spec_scale(cos_theta)).spec_scale(etai_over_etat)
    }

    /// Refracted direction by Snell's law, for a ratio of refractive indices.
    pub open spec fn spec_refract(self, normal: Vec3, etai_over_etat: Fixed) -> Vec3 {
        let perp = self.spec_refract_perp(normal, etai_over_etat);
        let along = Fixed { raw: SCALE }.spec_sub(perp.spec_mag_squared()).spec_abs().spec_sqrt();
        perp.spec_add(normal.spec_scale(along.spec_neg()))
    }

    /// Whether the vector lies strictly inside the unit ball.
    pub open spec fn in_unit_ball(self) -> bool {
        self.spec_mag_squared().raw < SCALE
    }

    /// Whether every component lies in `[-1, 1)`, as the candidates of the
    /// rejection samplers do.
    pub open spec fn in_cube(self) -> bool {
        -SCALE <= self.x.raw < SCALE && -SCALE <= self.y.raw < SCALE && -SCALE <= self.z.raw
            < SCALE
    }

    /// The candidate of a rejection sampler as it was drawn, if it lies
    /// strictly inside the unit ball.
    pub open spec fn spec_accepted(candidate: Vec3) -> Option<Vec3> {
        if candidate.in_unit_ball() {
            Some(candidate)
        } else {
            None
        }
    }

    /// Whether `r` is what rejection sampling makes of the candidates
    /// `drawn`, in the order in which they were drawn: every candidate before
    /// the last was rejected; the last is returned as drawn if it is accepted;
    /// if it is rejected too, it was the last that the sampler draws, and the
    /// centre is returned.
    pub open spec fn sampled_from(drawn: Seq<Vec3>, r: Vec3) -> bool {
        &&& 1 <= drawn.len() <= MAX_DRAWS
        &&& forall|j: int|
            0 <= j < drawn.len() - 1 ==> Vec3::spec_accepted(#[trigger] drawn[j]) is None
        &&& match Vec3::spec_accepted(drawn.last()) {
            Some(inside) => r == inside,
            None => drawn.len() == MAX_DRAWS && r == Vec3::spec_zero(),
        }
    }

    /// Whether the vector lies strictly inside the unit disk of the first two axes.
    pub open spec fn in_unit_disk(self) -> bool {
        self.z.raw == 0 && self.in_unit_ball()
    }

    /// The vector itself if it points to the side of `normal`, else its opposite.
    pub open spec fn spec_toward(self, normal: Vec3) -> Vec3 {
        if self.spec_dot(normal).raw > 0 {
            self
        } else {
            self.spec_neg()
        }
    }

    /// The vector with the given components.
    pub fn new(x: Fixed, y: Fixed, z: Fixed) -> (r: Vec3)
        ensures
            r == (Vec3 { x, y, z }),
    {
        Vec3 { x, y, z }
    }

    /// The vector of length zero.
    pub fn zero() -> (r: Vec3)
        ensures
            r == Vec3::spec_zero(),
    {
        Vec3 { x: Fixed { raw: 0 }, y: Fixed { raw: 0 }, z: Fixed { raw: 0 } }
    }

    /// Whether the vector lies strictly inside the unit ball.
    pub fn is_in_unit_ball(&self) -> (r: bool)
        ensures
            r == self.in_unit_ball(),
    {
        self.mag_squared().raw < SCALE
    }

    /// The candidate of a rejection sampler as it was drawn, if it lies
    /// strictly inside the unit ball.
    pub fn accepted(candidate: Vec3) -> (r: Option<Vec3>)
        ensures
            r == Vec3::spec_accepted(candidate),
    {
        if candidate.is_in_unit_ball() {
            Some(candidate)
        } else {
            None
        }
    }

    /// A random vector strictly inside the unit ball: candidates are drawn in
    /// the surrounding cube, and the first that is accepted is returned as it
    /// was drawn. After `MAX_DRAWS` rejected candidates the centre is returned.
    pub fn rand_in_unit_sphere() -> (r: Vec3)
        ensures
            exists|drawn: Seq<Vec3>|
                #[trigger] Vec3::sampled_from(drawn, r) && forall|j: int|
                    0 <= j < drawn.len() ==> (#[trigger] drawn[j]).in_cube(),
            r.in_unit_ball(),
            r.in_cube(),
    {
        let ghost mut drawn: Seq<Vec3> = Seq::empty();
        let mut draws: u32 = 0;
        while draws < MAX_DRAWS
            invariant
                draws <= MAX_DRAWS,
                drawn.len() == draws,
                forall|j: int| 0 <= j < drawn.len() ==> (#[trigger] drawn[j]).in_cube(),
                forall|j: int|
                    0 <= j < drawn.len() ==> Vec3::spec_accepted(#[trigger] drawn[j]) is None,
            decreases MAX_DRAWS - draws,
        {
            let v = Vec3 {
                x: random::signed_unit_interval(),
                y: random::signed_unit_interval(),
                z: random::signed_unit_interval(),
            };
            proof {
                drawn = drawn.push(v);
            }
            match Vec3::accepted(v) {
                Some(inside) => {
                    proof {
                        assert(Vec3::sampled_from(drawn, inside));
                    }
                    return inside;
                },
                None => {},
            }
            draws = draws + 1;
        }
        proof {
            lemma_zero_in_unit_ball();
            assert(Vec3::sampled_from(drawn, Vec3::spec_zero()));
        }
        Vec3::zero()
    }

    /// The vector itself if it points to the side of `normal`, else its opposite.
    pub fn toward(&self, normal: &Vec3) -> (r: Vec3)
        ensures
            r == self.spec_toward(*normal),
    {
        if self.dot(*normal).raw > 0 {
            *self
        } else {
            (*self).neg()
        }
    }

    /// A random vector inside the unit ball that does not point against `normal`.
    pub fn rand_in_unit_hemisphere(normal: &Vec3) -> (r: Vec3)
        ensures
            exists|v: Vec3| #[trigger] v.in_unit_ball() && r == v.spec_toward(*normal),
    {
        let v = Vec3::rand_in_unit_sphere();
        v.toward(normal)
    }

    /// A random vector strictly inside the unit disk of the first two axes:
    /// candidates are drawn in the surrounding square, and the first that is
    /// accepted is returned as it was drawn. After `MAX_DRAWS` rejected
    /// candidates the centre is returned.
    pub fn rand_in_unit_disk() -> (r: Vec3)
        ensures
            exists|drawn: Seq<Vec3>|
                #[trigger] Vec3::sampled_from(drawn, r) && forall|j: int|
                    0 <= j < drawn.len() ==> (#[trigger] drawn[j]).in_cube() && drawn[j].z.raw == 0,
            r.in_unit_disk(),
            r.in_cube(),
    {
        let ghost mut drawn: Seq<Vec3> = Seq::empty();
        let mut draws: u32 = 0;
        while draws < MAX_DRAWS
            invariant
                draws <= MAX_DRAWS,
                drawn.len() == draws,
                forall|j: int|
                    0 <= j < drawn.len() ==> (#[trigger] drawn[j]).in_cube() && drawn[j].z.raw == 0,
                forall|j: int|
                    0 <= j < drawn.len() ==> Vec3::spec_accepted(#[trigger] drawn[j]) is None,
            decreases MAX_DRAWS - draws,
        {
            let v = Vec3 {
                x: random::signed_unit_interval(),
                y: random::signed_unit_interval(),
                z: Fixed { raw: 0 },
            };
            proof {
                drawn = drawn.push(v);
            }
            match Vec3::accepted(v) {
                Some(inside) => {
                    proof {
                        assert(Vec3::sampled_from(drawn, inside));
                    }
                    return inside;
                },
                None => {},
            }
            draws = draws + 1;
        }
        proof {
            lemma_zero_in_unit_ball();
            assert(Vec3::sampled_from(drawn, Vec3::spec_zero()));
        }
        Vec3::zero()
    }

    /// The vector divided by its length, or `fallback` for a vector without length.
    pub fn unit_or(&self, fallback: Vec3) -> (r: Vec3)
        ensures
            r == self.spec_unit_or(fallback),
    {
        match self.unit() {
            Ok(u) => u,
            Err(_) => fallback,
        }
    }

    /// A random direction: a sample of the unit ball, normalised. The one
    /// sample without a direction, the centre, gives the first axis.
    pub fn rand_unit() -> (r: Vec3)
        ensures
            exists|v: Vec3| #[trigger]
                v.in_unit_ball() && r == v.spec_unit_or(Vec3::spec_first_axis()),
    {
        let v = Vec3::rand_in_unit_sphere();
        v.unit_or(Vec3 { x: Fixed { raw: SCALE }, y: Fixed { raw: 0 }, z: Fixed { raw: 0 } })
    }

    /// Whether every component is smaller than `1e-8` in magnitude.
    pub fn is_near_zero(&self) -> (r: bool)
        ensures
            r == self.spec_is_near_zero(),
    {
        -10 < self.x.raw && self.x.raw < 10 && -10 < self.y.raw && self.y.raw < 10 && -10
            < self.z.raw && self.z.raw < 10
    }

    /// Mirror image about the plane with normal `normal`: `v - 2 (v . n) n`.
    pub fn reflect(&self, normal: &Vec3) -> (r: Vec3)
        ensures
            r == self.spec_reflect(*normal),
    {
        *self - *normal * (Fixed::from_int(2) * self.dot(*normal))
    }

    /// Length: the integer square root of the exact sum of squares.
    pub fn mag(&self) -> (r: Fixed)
        ensures
            r == self.spec_mag(),
            0 <= r.raw,
    {
        let s: u128 = square(self.x.raw) + square(self.y.raw) + square(self.z.raw);
        let m: u64 = root(s);
        Fixed { raw: clamp(m as i128) }
    }

    /// Squared length.
    pub fn mag_squared(&self) -> (r: Fixed)
        ensures
            r == self.spec_mag_squared(),
    {
        self.dot(*self)
    }

    /// Dot product.
    pub fn dot(&self, other: Vec3) -> (r: Fixed)
        ensures
            r == self.spec_dot(other),
    {
        let s: i128 = wide_product(self.x.raw, other.x.raw) + wide_product(
            self.y.raw,
            other.y.raw,
        ) + wide_product(self.z.raw, other.z.raw);
        Fixed { raw: clamp(s) }
    }

    /// Cross product.
    pub fn cross(&self, other: Vec3) -> (r: Vec3)
        ensures
            r == self.spec_cross(other),
    {
        Vec3 {
            x: self.y * other.z - self.z * other.y,
            y: self.z * other.x - self.x * other.z,
            z: self.x * other.y - self.y * other.x,
        }
    }

    /// The vector of length one in the direction of this vector. A vector
    /// without length has no direction and is refused.
    pub fn unit(&self) -> (r: Result<Vec3, Error>)
        ensures
            r == self.spec_unit(),
            r is Err <==> *self == Vec3::spec_zero(),
    {
        if self.x.raw == 0 && self.y.raw == 0 && self.z.raw == 0 {
            return Err(Error::DegenerateVector);
        }
        let short = -SCALE < self.x.raw && self.x.raw < SCALE && -SCALE < self.y.raw && self.y.raw
            < SCALE && -SCALE < self.z.raw && self.z.raw < SCALE;
        let wx: i64 = if short {
            self.x.raw * 1_000_000_000
        } else {
            self.x.raw
        };
        let wy: i64 = if short {
            self.y.raw * 1_000_000_000
        } else {
            self.y.raw
        };
        let wz: i64 = if short {
            self.z.raw * 1_000_000_000
        } else {
            self.z.raw
        };
        let s: u128 = square(wx) + square(wy) + square(wz);
        let m: u64 = root(s);
        proof {
            let f = self.spec_stretch();
            assert(wx == self.x@ * f && wy == self.y@ * f && wz == self.z@ * f);
            assert(m == self.spec_stretched_length());
            assert(wx * SCALE == self.x@ * f * SCALE) by (nonlinear_arith)
                requires
                    wx == self.x@ * f,
            ;
            assert(wy * SCALE == self.y@ * f * SCALE) by (nonlinear_arith)
                requires
                    wy == self.y@ * f,
            ;
            assert(wz * SCALE == self.z@ * f * SCALE) by (nonlinear_arith)
                requires
                    wz == self.z@ * f,
            ;
        }
        Ok(
            Vec3 {
                x: Fixed { raw: clamp(crate::scalar::divide(crate::scalar::scaled(wx), m as i128)) },
                y: Fixed { raw: clamp(crate::scalar::divide(crate::scalar::scaled(wy), m as i128)) },
                z: Fixed { raw: clamp(crate::scalar::divide(crate::scalar::scaled(wz), m as i128)) },
            },
        )
    }

    /// Refracted direction by Snell's law, for a ratio of refractive indices.
    pub fn refract(&self, normal: &Vec3, etai_over_etat: Fixed) -> (r: Vec3)
        ensures
            r == self.spec_refract(*normal, etai_over_etat),
    {
        let cos_theta = Fixed::one().min(self.dot(*normal).neg());
        let perp = (*self + *normal * cos_theta) * etai_over_etat;
        let along = (Fixed::one() - perp.mag_squared()).abs().sqrt();
        perp + *normal * along.neg()
    }
}

/// The centre belongs to the unit ball and to the unit disk.
pub proof fn lemma_zero_in_unit_ball()
    ensures
        Vec3::spec_zero().in_unit_ball(),
        Vec3::spec_zero().in_unit_disk(),
{
    crate::scalar::lemma_product_unit(0);
}

/// Only the vector of length zero has length zero.
pub proof fn lemma_mag_zero(v: Vec3)
    ensures
        v.spec_mag().raw == 0 <==> v == Vec3::spec_zero(),
{
    let x = v.x@;
    let y = v.y@;
    let z = v.z@;
    let s = x * x + y * y + z * z;
    assert(0 <= x * x && 0 <= y * y && 0 <= z * z && (x * x == 0 ==> x == 0) && (y * y == 0 ==> y
        == 0) && (z * z == 0 ==> z == 0)) by (nonlinear_arith);
    crate::scalar::lemma_floor_sqrt_exists(s);
    let m = floor_sqrt(s);
    if s == 0 {
        assert(crate::scalar::is_floor_sqrt(0, 0));
        crate::scalar::lemma_floor_sqrt_unique(0, 0);
    } else {
        assert(m >= 1) by (nonlinear_arith)
            requires
                0 <= m,
                s < (m + 1) * (m + 1),
                s >= 1,
        ;
    }
}

/// A product changes its sign with either factor.
pub proof fn lemma_product_neg(a: int, b: int)
    ensures
        product(a, -b) == -product(a, b),
        product(-a, b) == -product(a, b),
{
    assert(a * (-b) == -(a * b) && (-a) * b == -(a * b)) by (nonlinear_arith);
}

/// The dot product with the opposite of a vector is the opposite dot product,
/// for a vector whose components no operation could not have produced.
pub proof fn lemma_dot_neg(a: Vec3, b: Vec3)
    requires
        b.x.raw >= -crate::scalar::RAW_MAX,
        b.y.raw >= -crate::scalar::RAW_MAX,
        b.z.raw >= -crate::scalar::RAW_MAX,
    ensures
        a.spec_dot(b.spec_neg()) == a.spec_dot(b).spec_neg(),
{
    lemma_product_neg(a.x@, b.x@);
    lemma_product_neg(a.y@, b.y@);
    lemma_product_neg(a.z@, b.z@);
}

/// Bounds of a rounded quotient, squared: for `q = floor(a k / m)`,
/// `(q m)^2 <= (a k)^2 <= ((q + 1) m)^2`.
proof fn lemma_quotient_squares(a: int, q: int, m: int, k: int)
    requires
        0 <= a,
        0 < m,
        0 < k,
        q == (a * k) / m,
    ensures
        0 <= q,
        q * q * (m * m) <= a * a * (k * k),
        a * a * (k * k) <= (q + 1) * (q + 1) * (m * m),
{
    let n = a * k;
    assert(0 <= n) by (nonlinear_arith)
        requires
            0 <= a,
            0 < k,
            n == a * k,
    ;
    vstd::arithmetic::div_mod::lemma_fundamental_div_mod(n, m);
    vstd::arithmetic::div_mod::lemma_mod_bound(n, m);
    assert(m * q == q * m) by (nonlinear_arith);
    let lo = q * m;
    let hi = (q + 1) * m;
    assert(hi == lo + m) by (nonlinear_arith)
        requires
            lo == q * m,
            hi == (q + 1) * m,
    ;
    assert(0 <= q) by (nonlinear_arith)
        requires
            0 <= n,
            n < (q + 1) * m,
            0 < m,
    ;
    assert(0 <= lo) by (nonlinear_arith)
        requires
            0 <= q,
            0 < m,
            lo == q * m,
    ;
    assert(lo * lo <= n * n) by (nonlinear_arith)
        requires
            0 <= lo <= n,
    ;
    assert(n * n <= hi * hi) by (nonlinear_arith)
        requires
            0 <= n <= hi,
    ;
    assert(lo * lo == q * q * (m * m)) by (nonlinear_arith)
        requires
            lo == q * m,
    ;
    assert(hi * hi == (q + 1) * (q + 1) * (m * m)) by (nonlinear_arith)
        requires
            hi == (q + 1) * m,
    ;
    assert(n * n == a * a * (k * k)) by (nonlinear_arith)
        requires
            n == a * k,
    ;
}

/// The arithmetic of normalising: where `m` is the rounded length of
/// `(a, b, c)` and `(qa, qb, qc)` are the components divided by `m` in fixed
/// point, the rounded length `g` of the quotients lies within three units
/// below one, and above one by less than `1 / m`.
proof fn lemma_normalised_length(
    a: int,
    b: int,
    c: int,
    m: int,
    qa: int,
    qb: int,
    qc: int,
    g: int,
)
    requires
        0 <= a,
        0 <= b,
        0 <= c,
        1 <= m,
        m * m <= a * a + b * b + c * c < (m + 1) * (m + 1),
        qa == (a * SCALE) / m,
        qb == (b * SCALE) / m,
        qc == (c * SCALE) / m,
        0 <= g,
        g * g <= qa * qa + qb * qb + qc * qc < (g + 1) * (g + 1),
    ensures
        SCALE - 3 <= g,
        m * (g - SCALE) < SCALE,
{
    let k: int = 1_000_000_000;
    let kk = k * k;
    let mm = m * m;
    let s = a * a + b * b + c * c;
    let t = qa * qa + qb * qb + qc * qc;
    lemma_quotient_squares(a, qa, m, k);
    lemma_quotient_squares(b, qb, m, k);
    lemma_quotient_squares(c, qc, m, k);
    assert(0 < mm && 0 < kk) by (nonlinear_arith)
        requires
            1 <= m,
            mm == m * m,
            kk == k * k,
            k == 1_000_000_000,
    ;
    // Above: (g m)^2 <= t m^2 <= s k^2 < ((m + 1) k)^2.
    assert(t * mm == qa * qa * mm + qb * qb * mm + qc * qc * mm) by (nonlinear_arith)
        requires
            t == qa * qa + qb * qb + qc * qc,
    ;
    assert(s * kk == a * a * kk + b * b * kk + c * c * kk) by (nonlinear_arith)
        requires
            s == a * a + b * b + c * c,
    ;
    assert(t * mm <= s * kk);
    assert(g * g * mm <= t * mm) by (nonlinear_arith)
        requires
            g * g <= t,
            0 < mm,
    ;
    assert(s * kk < (m + 1) * (m + 1) * kk) by (nonlinear_arith)
        requires
            s < (m + 1) * (m + 1),
            0 < kk,
    ;
    let left = g * m;
    let right = (m + 1) * k;
    assert(left * left == g * g * mm) by (nonlinear_arith)
        requires
            left == g * m,
            mm == m * m,
    ;
    assert(right * right == (m + 1) * (m + 1) * kk) by (nonlinear_arith)
        requires
            right == (m + 1) * k,
            kk == k * k,
    ;
    assert(left < right) by (nonlinear_arith)
        requires
            left * left < right * right,
            0 <= right,
    ;
    assert(m * (g - k) < k) by (nonlinear_arith)
        requires
            left == g * m,
            right == (m + 1) * k,
            left < right,
    ;
    // Below: m^2 k^2 <= s k^2 <= m^2 (t + 2 (qa + qb + qc) + 3).
    let sum = qa + qb + qc;
    let u = (qa + 1) * (qa + 1) + (qb + 1) * (qb + 1) + (qc + 1) * (qc + 1);
    assert(u == t + 2 * sum + 3) by (nonlinear_arith)
        requires
            u == (qa + 1) * (qa + 1) + (qb + 1) * (qb + 1) + (qc + 1) * (qc + 1),
            t == qa * qa + qb * qb + qc * qc,
            sum == qa + qb + qc,
    ;
    assert(u * mm == (qa + 1) * (qa + 1) * mm + (qb + 1) * (qb + 1) * mm + (qc + 1) * (qc + 1)
        * mm) by (nonlinear_arith)
        requires
            u == (qa + 1) * (qa + 1) + (qb + 1) * (qb + 1) + (qc + 1) * (qc + 1),
    ;
    assert(s * kk <= u * mm);
    assert(mm * kk <= s * kk) by (nonlinear_arith)
        requires
            mm <= s,
            0 < kk,
    ;
    assert(kk <= u) by (nonlinear_arith)
        requires
            mm * kk <= u * mm,
            0 < mm,
    ;
    if g < k - 3 {
        let bound = k - 3;
        assert((g + 1) * (g + 1) <= bound * bound) by (nonlinear_arith)
            requires
                0 <= g + 1 <= bound,
        ;
        assert(qa < bound && qb < bound && qc < bound) by (nonlinear_arith)
            requires
                qa * qa + qb * qb + qc * qc < bound * bound,
                0 <= qa,
                0 <= qb,
                0 <= qc,
                0 <= bound,
        ;
        assert(bound * bound == kk - 6 * k + 9) by (nonlinear_arith)
            requires
                bound == k - 3,
                kk == k * k,
        ;
        assert(u < kk);
    }
}

/// A unit vector has length one, as far as nine digits can tell: for every
/// vector `v` but the zero vector, the length of `v.unit()` is at most one
/// and falls short of one by at most three billionths. No component of it
/// points against the component of `v`.
pub proof fn lemma_unit_has_length_one(v: Vec3)
    requires
        v != Vec3::spec_zero(),
    ensures
        v.spec_unit() matches Ok(u) && SCALE - 3 <= u.spec_mag().raw <= SCALE && u.x@ * v.x@ >= 0
            && u.y@ * v.y@ >= 0 && u.z@ * v.z@ >= 0,
{
    let k = SCALE as int;
    let f = v.spec_stretch();
    let x = v.x@ * f;
    let y = v.y@ * f;
    let z = v.z@ * f;
    let a = crate::scalar::magnitude(x);
    let b = crate::scalar::magnitude(y);
    let c = crate::scalar::magnitude(z);
    let s = x * x + y * y + z * z;
    assert(s == a * a + b * b + c * c && 0 <= a * a && 0 <= b * b && 0 <= c * c)
        by (nonlinear_arith)
        requires
            s == x * x + y * y + z * z,
            a == crate::scalar::magnitude(x),
            b == crate::scalar::magnitude(y),
            c == crate::scalar::magnitude(z),
    ;
    crate::scalar::lemma_floor_sqrt_exists(s);
    let m = floor_sqrt(s);
    assert(m == v.spec_stretched_length());
    // The stretched vector has a component of at least one, and so has its length.
    if f == 1 {
        assert(x == v.x@ && y == v.y@ && z == v.z@);
    } else {
        assert(x == v.x@ * 1_000_000_000 && y == v.y@ * 1_000_000_000 && z == v.z@
            * 1_000_000_000);
    }
    assert(a >= k || b >= k || c >= k);
    assert(s >= k * k) by (nonlinear_arith)
        requires
            a >= k || b >= k || c >= k,
            s == a * a + b * b + c * c,
            0 <= a * a,
            0 <= b * b,
            0 <= c * c,
            0 <= a,
            0 <= b,
            0 <= c,
            0 < k,
    ;
    assert(m >= k) by (nonlinear_arith)
        requires
            s < (m + 1) * (m + 1),
            s >= k * k,
            0 <= m,
            0 < k,
    ;
    // No component is longer than the vector.
    assert(a <= m && b <= m && c <= m) by (nonlinear_arith)
        requires
            a * a + b * b + c * c < (m + 1) * (m + 1),
            0 <= a * a,
            0 <= b * b,
            0 <= c * c,
            0 <= a,
            0 <= b,
            0 <= c,
            0 <= m,
    ;
    let qa = (a * k) / m;
    let qb = (b * k) / m;
    let qc = (c * k) / m;
    lemma_component_of_unit(x, m);
    lemma_component_of_unit(y, m);
    lemma_component_of_unit(z, m);
    let u = v.spec_unit()->Ok_0;
    assert(v.x@ * f * SCALE == x * SCALE && v.y@ * f * SCALE == y * SCALE && v.z@ * f * SCALE == z
        * SCALE);
    assert(u.x@ == crate::scalar::quotient(x * SCALE, m));
    assert(u.y@ == crate::scalar::quotient(y * SCALE, m));
    assert(u.z@ == crate::scalar::quotient(z * SCALE, m));
    assert(crate::scalar::magnitude(u.x@) == qa);
    assert(crate::scalar::magnitude(u.y@) == qb);
    assert(crate::scalar::magnitude(u.z@) == qc);
    let t = u.x@ * u.x@ + u.y@ * u.y@ + u.z@ * u.z@;
    assert(t == qa * qa + qb * qb + qc * qc && 0 <= t) by (nonlinear_arith)
        requires
            t == u.x@ * u.x@ + u.y@ * u.y@ + u.z@ * u.z@,
            qa == crate::scalar::magnitude(u.x@),
            qb == crate::scalar::magnitude(u.y@),
            qc == crate::scalar::magnitude(u.z@),
    ;
    crate::scalar::lemma_floor_sqrt_exists(t);
    let g = floor_sqrt(t);
    lemma_normalised_length(a, b, c, m, qa, qb, qc, g);
    assert(g <= k) by (nonlinear_arith)
        requires
            m * (g - k) < k,
            m >= k,
            0 < k,
    ;
    assert(u.spec_mag().raw == g);
    lemma_same_sign(v.x@, f, u.x@, m);
    lemma_same_sign(v.y@, f, u.y@, m);
    lemma_same_sign(v.z@, f, u.z@, m);
}

/// A quotient by a positive number has the sign of the dividend, or is zero.
proof fn lemma_same_sign(x: int, f: int, q: int, m: int)
    requires
        f == 1 || f == SCALE,
        m >= 1,
        q == crate::scalar::quotient(x * f * SCALE, m),
    ensures
        q * x >= 0,
{
    let n = x * f * SCALE;
    assert((x >= 0 ==> n >= 0) && (x <= 0 ==> n <= 0)) by (nonlinear_arith)
        requires
            n == x * f * SCALE,
            f >= 1,
    ;
    let w = crate::scalar::magnitude(n) / m;
    assert(w >= 0) by (nonlinear_arith)
        requires
            w == crate::scalar::magnitude(n) / m,
            crate::scalar::magnitude(n) >= 0,
            m >= 1,
    ;
    assert(q * x >= 0) by (nonlinear_arith)
        requires
            (x >= 0 && q >= 0) || (x <= 0 && q <= 0),
    ;
}

/// A component `x` of a vector of rounded length `m >= |x|`, divided by `m`,
/// is `floor(|x| / m)` in fixed point with the sign of `x`, and at most one.
proof fn lemma_component_of_unit(x: int, m: int)
    requires
        1 <= m,
        crate::scalar::magnitude(x) <= m,
    ensures
        crate::scalar::magnitude(crate::scalar::quotient(x * SCALE, m)) == (
        crate::scalar::magnitude(x) * SCALE) / m,
        crate::scalar::magnitude(crate::scalar::quotient(x * SCALE, m)) <= SCALE,
        crate::scalar::saturate(crate::scalar::quotient(x * SCALE, m))
            == crate::scalar::quotient(x * SCALE, m),
{
    let k: int = 1_000_000_000;
    let a = crate::scalar::magnitude(x);
    let n = a * k;
    assert(crate::scalar::magnitude(x * k) == n);
    let q = n / m;
    vstd::arithmetic::div_mod::lemma_fundamental_div_mod(n, m);
    vstd::arithmetic::div_mod::lemma_mod_bound(n, m);
    assert(0 <= q <= k) by (nonlinear_arith)
        requires
            n == m * q + n % m,
            0 <= n % m < m,
            n == a * k,
            0 <= a <= m,
            1 <= m,
            k == 1_000_000_000,
    ;
}

/// What a quotient that is rounded toward zero leaves over: less than the
/// divisor, and of the sign of the dividend.
pub proof fn lemma_quotient_remainder(n: int, d: int)
    requires
        d > 0,
    ensures
        -d < n - crate::scalar::quotient(n, d) * d < d,
        n >= 0 ==> n - crate::scalar::quotient(n, d) * d >= 0,
        n <= 0 ==> n - crate::scalar::quotient(n, d) * d <= 0,
{
    if n >= 0 {
        vstd::arithmetic::div_mod::lemma_fundamental_div_mod(n, d);
        vstd::arithmetic::div_mod::lemma_mod_bound(n, d);
        assert((n / d) * d == d * (n / d)) by (nonlinear_arith);
    } else {
        vstd::arithmetic::div_mod::lemma_fundamental_div_mod(-n, d);
        vstd::arithmetic::div_mod::lemma_mod_bound(-n, d);
        let q = (-n) / d;
        assert((-q) * d == -(d * q)) by (nonlinear_arith);
    }
}

/// Two quotients of one dividend: where `a` is `w k / m` and `b` is
/// `w k / r`, both rounded toward zero, and `|w| <= m`, the two differ by
/// no more than `k |r - m| / r + 1`.
proof fn lemma_quotients_near(w: int, k: int, m: int, r: int, a: int, b: int, gap: int)
    requires
        k > 0,
        m >= 1,
        r >= 1,
        -m <= w <= m,
        a == crate::scalar::quotient(w * k, m),
        b == crate::scalar::quotient(w * k, r),
        gap == crate::scalar::magnitude(r - m),
    ensures
        -(k * gap + r) <= r * (a - b) <= k * gap + r,
{
    let n = w * k;
    lemma_quotient_remainder(n, m);
    lemma_quotient_remainder(n, r);
    let rho1 = n - a * m;
    let rho2 = n - b * r;
    let diff = r - m;
    let x = n * diff;
    let y = m * rho2 - r * rho1;
    let mr = m * r;
    let left = mr * (a - b);
    assert(left == x + y) by (nonlinear_arith)
        requires
            left == mr * (a - b),
            mr == m * r,
            x == n * diff,
            diff == r - m,
            y == m * rho2 - r * rho1,
            rho1 == n - a * m,
            rho2 == n - b * r,
    ;
    let mk = m * k;
    assert(-mk <= n <= mk) by (nonlinear_arith)
        requires
            n == w * k,
            mk == m * k,
            -m <= w <= m,
            k > 0,
    ;
    assert(-(mk * gap) <= x <= mk * gap) by (nonlinear_arith)
        requires
            x == n * diff,
            -mk <= n <= mk,
            gap == diff || gap == -diff,
            gap >= 0,
    ;
    assert(-mr < y < mr) by (nonlinear_arith)
        requires
            y == m * rho2 - r * rho1,
            mr == m * r,
            (0 <= rho1 < m && 0 <= rho2 < r) || (-m < rho1 <= 0 && -r < rho2 <= 0),
            m >= 1,
            r >= 1,
    ;
    let bound = k * gap + r;
    assert(mk * gap + mr == m * bound) by (nonlinear_arith)
        requires
            mk == m * k,
            mr == m * r,
            bound == k * gap + r,
    ;
    let inner = r * (a - b);
    assert(left == m * inner) by (nonlinear_arith)
        requires
            left == mr * (a - b),
            mr == m * r,
            inner == r * (a - b),
    ;
    assert(-bound <= inner <= bound) by (nonlinear_arith)
        requires
            -(m * bound) <= m * inner <= m * bound,
            m >= 1,
    ;
}

/// A quotient does not change where dividend and divisor are stretched alike.
proof fn lemma_quotient_stretched(n: int, d: int, f: int)
    requires
        d > 0,
        f >= 1,
    ensures
        crate::scalar::quotient(n * f, d * f) == crate::scalar::quotient(n, d),
{
    let q = crate::scalar::quotient(n, d);
    lemma_quotient_remainder(n, d);
    let rho = n - q * d;
    let nf = n * f;
    let df = d * f;
    assert(df >= 1) by (nonlinear_arith)
        requires
            df == d * f,
            d >= 1,
            f >= 1,
    ;
    let rf = rho * f;
    assert(nf == q * df + rf) by (nonlinear_arith)
        requires
            nf == n * f,
            df == d * f,
            rf == rho * f,
            rho == n - q * d,
    ;
    assert(-df < rf < df && (rho >= 0 ==> rf >= 0) && (rho <= 0 ==> rf <= 0)) by (nonlinear_arith)
        requires
            rf == rho * f,
            df == d * f,
            -d < rho < d,
            f >= 1,
    ;
    assert((n >= 0 ==> nf >= 0) && (n <= 0 ==> nf <= 0)) by (nonlinear_arith)
        requires
            nf == n * f,
            f >= 1,
    ;
    lemma_quotient_remainder(nf, df);
    let q2 = crate::scalar::quotient(nf, df);
    let rho2 = nf - q2 * df;
    assert(q == q2) by (nonlinear_arith)
        requires
            nf == q * df + rf,
            nf == q2 * df + rho2,
            -df < rf < df,
            -df < rho2 < df,
            (rf >= 0 && rho2 >= 0) || (rf <= 0 && rho2 <= 0),
            df >= 1,
    ;
}

/// The unit vector of `w` against `w` divided by a length `r`: the two
/// agree where `r` is the length of `w`, and differ in no component by more
/// than the length of `w` differs from `r`, taken relative to `r`, and one
/// billionth. With `f` the stretch of `w`, `m` its stretched length and
/// `k` the scale: `r f |unit - quotient| <= k |r f - m| + r f`.
pub proof fn lemma_unit_near_quotient(w: Vec3, r: Fixed)
    requires
        w != Vec3::spec_zero(),
        r.raw > 0,
    ensures
        ({
            let unit = w.spec_unit()->Ok_0;
            let quotient = w.spec_div(r);
            let rf = r.raw * w.spec_stretch();
            let bound = SCALE * crate::scalar::magnitude(rf - w.spec_stretched_length()) + rf;
            &&& w.spec_unit() is Ok
            &&& -bound <= rf * (unit.x@ - quotient.x@) <= bound
            &&& -bound <= rf * (unit.y@ - quotient.y@) <= bound
            &&& -bound <= rf * (unit.z@ - quotient.z@) <= bound
        }),
{
    lemma_unit_has_length_one(w);
    let f = w.spec_stretch();
    let m = w.spec_stretched_length();
    let x = w.x@ * f;
    let y = w.y@ * f;
    let z = w.z@ * f;
    let a = crate::scalar::magnitude(x);
    let b = crate::scalar::magnitude(y);
    let c = crate::scalar::magnitude(z);
    let s = x * x + y * y + z * z;
    assert(s == a * a + b * b + c * c && 0 <= a * a && 0 <= b * b && 0 <= c * c)
        by (nonlinear_arith)
        requires
            s == x * x + y * y + z * z,
            a == crate::scalar::magnitude(x),
            b == crate::scalar::magnitude(y),
            c == crate::scalar::magnitude(z),
    ;
    crate::scalar::lemma_floor_sqrt_exists(s);
    assert(m == floor_sqrt(s));
    assert(a <= m && b <= m && c <= m) by (nonlinear_arith)
        requires
            a * a + b * b + c * c < (m + 1) * (m + 1),
            0 <= a * a,
            0 <= b * b,
            0 <= c * c,
            0 <= a,
            0 <= b,
            0 <= c,
            0 <= m,
    ;
    if f == 1 {
        assert(x == w.x@ && y == w.y@ && z == w.z@);
    } else {
        assert(x == w.x@ * 1_000_000_000 && y == w.y@ * 1_000_000_000 && z == w.z@
            * 1_000_000_000);
    }
    assert(m >= 1) by (nonlinear_arith)
        requires
            s < (m + 1) * (m + 1),
            s >= 1,
            0 <= m,
    ;
    let rf = r.raw * f;
    assert(rf >= 1) by (nonlinear_arith)
        requires
            rf == r.raw * f,
            r.raw >= 1,
            f >= 1,
    ;
    let gap = crate::scalar::magnitude(rf - m);
    lemma_component_near_quotient(w.x@, f, m, r.raw as int, x);
    lemma_component_near_quotient(w.y@, f, m, r.raw as int, y);
    lemma_component_near_quotient(w.z@, f, m, r.raw as int, z);
}

/// One component of [`lemma_unit_near_quotient`].
proof fn lemma_component_near_quotient(c: int, f: int, m: int, r: int, stretched: int)
    requires
        f == 1 || f == SCALE,
        stretched == c * f,
        m >= 1,
        r >= 1,
        -m <= stretched <= m,
        -crate::scalar::RAW_MAX - 1 <= c <= crate::scalar::RAW_MAX,
    ensures
        ({
            let unit = Fixed::of(crate::scalar::quotient(c * f * SCALE, m));
            let quotient = Fixed::of(crate::scalar::quotient(c * SCALE, r));
            let rf = r * f;
            let bound = SCALE * crate::scalar::magnitude(rf - m) + rf;
            -bound <= rf * (unit@ - quotient@) <= bound
        }),
{
    let k = SCALE as int;
    let rf = r * f;
    assert(rf >= 1) by (nonlinear_arith)
        requires
            rf == r * f,
            r >= 1,
            f >= 1,
    ;
    let n = c * k;
    let wk = stretched * k;
    assert(c * f * SCALE == wk) by (nonlinear_arith)
        requires
            wk == stretched * k,
            stretched == c * f,
            k == SCALE,
    ;
    assert(n * f == wk) by (nonlinear_arith)
        requires
            n == c * k,
            wk == stretched * k,
            stretched == c * f,
    ;
    lemma_quotient_stretched(n, r, f);
    let a = crate::scalar::quotient(wk, m);
    let b = crate::scalar::quotient(wk, rf);
    assert(b == crate::scalar::quotient(c * SCALE, r));
    let gap = crate::scalar::magnitude(rf - m);
    lemma_quotients_near(stretched, k, m, rf, a, b, gap);
    lemma_component_of_unit(stretched, m);
    assert(-k <= a <= k);
    let bound = k * gap + rf;
    let cut = crate::scalar::saturate(b);
    // Cutting the quotient off at the largest number brings it nearer.
    assert(-bound <= rf * (a - cut) <= bound) by (nonlinear_arith)
        requires
            -bound <= rf * (a - b) <= bound,
            rf >= 1,
            -1_000_000_000 <= a <= 1_000_000_000,
            cut == b || (b > cut && cut >= 1_000_000_000) || (b < cut && cut <= -1_000_000_000),
    ;
}

impl Default for Vec3 {
    fn default() -> (r: Vec3)
        ensures
            r == Vec3::spec_zero(),
    {
        Vec3::zero()
    }
}

impl core::ops::Add for Vec3 {
    type Output = Vec3;

    fn add(self, rhs: Vec3) -> (r: Vec3)
        ensures
            r == self.spec_add(rhs),
    {
        Vec3 { x: self.x + rhs.x, y: self.y + rhs.y, z: self.z + rhs.z }
    }
}

impl vstd::std_specs::ops::AddSpecImpl for Vec3 {
    open spec fn obeys_add_spec() -> bool {
        true
    }

    open spec fn add_req(self, rhs: Vec3) -> bool {
        true
    }

    open spec fn add_spec(self, rhs: Vec3) -> Vec3 {
        self.spec_add(rhs)
    }
}

impl core::ops::Add<Point3> for Vec3 {
    type Output = Point3;

    fn add(self, rhs: Point3) -> (r: Point3)
        ensures
            r == self.spec_add_point(rhs),
    {
        Point3 { x: self.x + rhs.x, y: self.y + rhs.y, z: self.z + rhs.z }
    }
}

impl vstd::std_specs::ops::AddSpecImpl<Point3> for Vec3 {
    open spec fn obeys_add_spec() -> bool {
        true
    }

    open spec fn add_req(self, rhs: Point3) -> bool {
        true
    }

    open spec fn add_spec(self, rhs: Point3) -> Point3 {
        self.spec_add_point(rhs)
    }
}

impl core::ops::Div<Fixed> for Vec3 {
    type Output = Vec3;

    fn div(self, rhs: Fixed) -> (r: Vec3)
        ensures
            r == self.spec_div(rhs),
    {
        Vec3 { x: self.x / rhs, y: self.y / rhs, z: self.z / rhs }
    }
}

impl vstd::std_specs::ops::DivSpecImpl<Fixed> for Vec3 {
    open spec fn obeys_div_spec() -> bool {
        true
    }

    open spec fn div_req(self, rhs: Fixed) -> bool {
        true
    }

    open spec fn div_spec(self, rhs: Fixed) -> Vec3 {
        self.spec_div(rhs)
    }
}

impl core::ops::Mul<Fixed> for Vec3 {
    type Output = Vec3;

    fn mul(self, rhs: Fixed) -> (r: Vec3)
        ensures
            r == self.spec_scale(rhs),
    {
        Vec3 { x: self.x * rhs, y: self.y * rhs, z: self.z * rhs }
    }
}

impl vstd::std_specs::ops::MulSpecImpl<Fixed> for Vec3 {
    open spec fn obeys_mul_spec() -> bool {
        true
    }

    open spec fn mul_req(self, rhs: Fixed) -> bool {
        true
    }

    open spec fn mul_spec(self, rhs: Fixed) -> Vec3 {
        self.spec_scale(rhs)
    }
}

impl core::ops::Mul<Vec3> for Fixed {
    type Output = Vec3;

    fn mul(self, rhs: Vec3) -> (r: Vec3)
        ensures
            r == rhs.spec_scale(self),
    {
        Vec3 { x: rhs.x * self, y: rhs.y * self, z: rhs.z * self }
    }
}

impl vstd::std_specs::ops::MulSpecImpl<Vec3> for Fixed {
    open spec fn obeys_mul_spec() -> bool {
        true
    }

    open spec fn mul_req(self, rhs: Vec3) -> bool {
        true
    }

    open spec fn mul_spec(self, rhs: Vec3) -> Vec3 {
        rhs.spec_scale(self)
    }
}

impl core::ops::Neg for Vec3 {
    type Output = Vec3;

    fn neg(self) -> (r: Vec3)
        ensures
            r == self.spec_neg(),
    {
        Vec3 { x: self.x.neg(), y: self.y.neg(), z: self.z.neg() }
    }
}

impl vstd::std_specs::ops::NegSpecImpl for Vec3 {
    open spec fn obeys_neg_spec() -> bool {
        true
    }

    open spec fn neg_req(self) -> bool {
        true
    }

    open spec fn neg_spec(self) -> Vec3 {
        self.spec_neg()
    }
}

impl core::ops::Sub for Vec3 {
    type Output = Vec3;

    fn sub(self, rhs: Vec3) -> (r: Vec3)
        ensures
            r == self.spec_sub(rhs),
    {
        Vec3 { x: self.x - rhs.x, y: self.y - rhs.y, z: self.z - rhs.z }
    }
}

impl vstd::std_specs::ops::SubSpecImpl for Vec3 {
    open spec fn obeys_sub_spec() -> bool {
        true
    }

    open spec fn sub_req(self, rhs: Vec3) -> bool {
        true
    }

    open spec fn sub_spec(self, rhs: Vec3) -> Vec3 {
        self.spec_sub(rhs)
    }
}

impl core::ops::Sub<Point3> for Vec3 {
    type Output = Point3;

    fn sub(self, rhs: Point3) -> (r: Point3)
        ensures
            r == self.spec_sub_point(rhs),
    {
        Point3 { x: self.x - rhs.x, y: self.y - rhs.y, z: self.z - rhs.z }
    }
}

impl vstd::std_specs::ops::SubSpecImpl<Point3> for Vec3 {
    open spec fn obeys_sub_spec() -> bool {
        true
    }

    open spec fn sub_req(self, rhs: Point3) -> bool {
        true
    }

    open spec fn sub_spec(self, rhs: Point3) -> Point3 {
        self.spec_sub_point(rhs)
    }
}

} // verus!
