//! The sphere, the one shape of a scene.
use crate::error::Error;
use crate::hit::{before, limit, Hittable, Record};
use crate::material::Surface;
use crate::point3::Point3;
use crate::ray::Ray;
use crate::scalar::{floor_sqrt, lemma_quotient_monotone, quotient, square, Fixed, SCALE};
use crate::vec3::Vec3;
use crate::wide;
use std::rc::Rc;
use vstd::prelude::*;

verus! {

/// The largest coordinate, in raw units, up to which a ray and a sphere are
/// taken as they are: `2^61`, more than two thousand million units. Beyond
/// it they are taken at a quarter of their size, which leaves the ray
/// parameters as they are.
pub const LIMIT: i64 = 0x2000_0000_0000_0000;

/// A sphere of one material.
pub struct Sphere {
    pub center: Point3,
    /// Positive in every sphere that [`Sphere::new`] made.
    pub radius: Fixed,
    /// The material, which other spheres may share.
    pub mat: Rc<Surface>,
}

/// Whether a coordinate lies within the limit.
pub open spec fn spec_fits(x: Fixed) -> bool {
    -LIMIT <= x.raw <= LIMIT
}

/// A coordinate divided by `g`, rounded toward zero.
pub open spec fn spec_shrunk(x: Fixed, g: int) -> Fixed {
    Fixed { raw: quotient(x@, g) as i64 }
}

/// A vector with every component divided by `g`.
pub open spec fn spec_shrunk_vector(v: Vec3, g: int) -> Vec3 {
    Vec3 { x: spec_shrunk(v.x, g), y: spec_shrunk(v.y, g), z: spec_shrunk(v.z, g) }
}

/// The dot product of two vectors as an integer, without rounding.
pub open spec fn spec_exact_dot(u: Vec3, v: Vec3) -> int {
    u.x@ * v.x@ + u.y@ * v.y@ + u.z@ * v.z@
}

impl Sphere {
    /// A sphere has a positive radius.
    pub open spec fn wf(&self) -> bool {
        self.radius.raw > 0
    }

    /// The way from the centre to the origin of the ray.
    pub open spec fn spec_oc(&self, ray: Ray) -> Vec3 {
        ray.origin.spec_sub(self.center)
    }

    /// Whether the ray and the sphere are taken as they are: the radius, the
    /// direction and the way from the centre to the origin lie within the limit.
    pub open spec fn spec_in_range(&self, ray: Ray) -> bool {
        let oc = self.spec_oc(ray);
        &&& spec_fits(self.radius)
        &&& spec_fits(oc.x) && spec_fits(oc.y) && spec_fits(oc.z)
        &&& spec_fits(ray.direction.x) && spec_fits(ray.direction.y) && spec_fits(ray.direction.z)
    }

    /// The number by which all lengths are divided before the coefficients
    /// are taken: one within the limit, four beyond it.
    pub open spec fn spec_shrink(&self, ray: Ray) -> int {
        if self.spec_in_range(ray) {
            1
        } else {
            4
        }
    }

    /// The way from the centre to the origin of the ray, shrunk.
    pub open spec fn spec_way(&self, ray: Ray) -> Vec3 {
        spec_shrunk_vector(self.spec_oc(ray), self.spec_shrink(ray))
    }

    /// The direction of the ray, shrunk.
    pub open spec fn spec_course(&self, ray: Ray) -> Vec3 {
        spec_shrunk_vector(ray.direction, self.spec_shrink(ray))
    }

    /// The radius, shrunk.
    pub open spec fn spec_reach(&self, ray: Ray) -> Fixed {
        spec_shrunk(self.radius, self.spec_shrink(ray))
    }

    /// The leading coefficient of the quadratic in the ray parameter: the
    /// squared length of the direction, exactly.
    pub open spec fn spec_a(&self, ray: Ray) -> int {
        spec_exact_dot(self.spec_course(ray), self.spec_course(ray))
    }

    /// Half the linear coefficient of the quadratic, exactly: positive where
    /// the centre lies behind the origin of the ray.
    pub open spec fn spec_b(&self, ray: Ray) -> int {
        spec_exact_dot(self.spec_way(ray), self.spec_course(ray))
    }

    /// The constant coefficient of the quadratic, exactly: positive where the
    /// origin of the ray lies outside the sphere.
    pub open spec fn spec_c(&self, ray: Ray) -> int {
        spec_exact_dot(self.spec_way(ray), self.spec_way(ray)) - self.spec_reach(ray)@
            * self.spec_reach(ray)@
    }

    /// A quarter of the discriminant of the quadratic, exactly: `b^2 - a c`.
    pub open spec fn spec_discriminant(&self, ray: Ray) -> int {
        self.spec_b(ray) * self.spec_b(ray) - self.spec_a(ray) * self.spec_c(ray)
    }

    /// Whether the line of the ray meets the sphere.
    pub open spec fn spec_meets(&self, ray: Ray) -> bool {
        self.radius.raw > 0 && self.spec_a(ray) > 0 && self.spec_discriminant(ray) >= 0
    }

    /// The square root of the discriminant, rounded down to an integer of
    /// the coefficients' own unit, a billionth of a billionth.
    pub open spec fn spec_root_of_discriminant(&self, ray: Ray) -> int {
        floor_sqrt(self.spec_discriminant(ray))
    }

    /// The smaller root, `(-b - sqrt(discriminant)) / a`, rounded once toward
    /// zero from the exact coefficients.
    pub open spec fn spec_near_root(&self, ray: Ray) -> Fixed {
        Fixed::of(
            quotient(
                SCALE * (-self.spec_b(ray) - self.spec_root_of_discriminant(ray)),
                self.spec_a(ray),
            ),
        )
    }

    /// The larger root, `(-b + sqrt(discriminant)) / a`, rounded once toward
    /// zero from the exact coefficients.
    pub open spec fn spec_far_root(&self, ray: Ray) -> Fixed {
        Fixed::of(
            quotient(
                SCALE * (-self.spec_b(ray) + self.spec_root_of_discriminant(ray)),
                self.spec_a(ray),
            ),
        )
    }

    /// The root that is reported: the smaller one if it lies strictly inside
    /// `(t_min, t_max)`, else the larger one under the same test.
    pub open spec fn spec_root(&self, ray: Ray, t_min: Fixed, t_max: Fixed) -> Option<Fixed> {
        let near = self.spec_near_root(ray);
        let far = self.spec_far_root(ray);
        if !self.spec_meets(ray) {
            None
        } else if t_min.raw < near.raw < t_max.raw {
            Some(near)
        } else if t_min.raw < far.raw < t_max.raw {
            Some(far)
        } else {
            None
        }
    }

    /// The record of the hit at ray parameter `t`: the point of the ray
    /// there, the direction from the centre to it as the outward normal,
    /// turned against the ray, and the sphere's material. There is none where
    /// the point cannot be told from the centre.
    pub open spec fn spec_record_at(&self, ray: Ray, t: Fixed) -> Option<Record> {
        let p = ray.spec_at(t);
        match p.spec_sub(self.center).spec_unit() {
            Ok(outward) => Some(Record::spec_facing(p, outward, self.mat, t, ray)),
            Err(_) => None,
        }
    }

    /// The hit that is reported for `(t_min, t_max)`.
    pub open spec fn spec_intersect(&self, ray: Ray, t_min: Fixed, t_max: Fixed) -> Option<
        Record,
    > {
        match self.spec_root(ray, t_min, t_max) {
            Some(t) => self.spec_record_at(ray, t),
            None => None,
        }
    }

    /// A sphere around `center`. A radius that is not positive is refused.
    pub fn new(center: &Point3, radius: Fixed, mat: Rc<Surface>) -> (r: Result<Sphere, Error>)
        ensures
            radius.raw <= 0 ==> r is Err && r->Err_0 == Error::InvalidRadius,
            radius.raw > 0 ==> (r matches Ok(s) && s.center == *center && s.radius == radius
                && s.mat == mat && s.wf()),
    {
        if radius.raw <= 0 {
            Err(Error::InvalidRadius)
        } else {
            Ok(Sphere { center: *center, radius, mat })
        }
    }

    /// The nearest point in `(t_min, t_max)` at which `ray` meets the sphere.
    /// A sphere without a positive radius is met nowhere.
    pub fn intersect(&self, ray: &Ray, t_min: Fixed, t_max: Fixed) -> (r: Option<Record>)
        ensures
            r == self.spec_intersect(*ray, t_min, t_max),
    {
        if self.radius.raw <= 0 {
            return None;
        }
        let whole_way = ray.origin - self.center;
        let whole = fits(self.radius) && fits(whole_way.x) && fits(whole_way.y) && fits(
            whole_way.z,
        ) && fits(ray.direction.x) && fits(ray.direction.y) && fits(ray.direction.z);
        // Beyond the limit all lengths are taken at a quarter of their size.
        let oc = shrunk_vector(whole_way, whole);
        let d = shrunk_vector(ray.direction, whole);
        let radius = shrunk(self.radius, whole);
        proof {
            lemma_square_within(d.x.raw as int);
            lemma_square_within(d.y.raw as int);
            lemma_square_within(d.z.raw as int);
            lemma_square_within(radius.raw as int);
            assert(oc == self.spec_way(*ray));
            assert(d == self.spec_course(*ray));
            assert(radius == self.spec_reach(*ray));
        }
        // The coefficients of the quadratic in the ray parameter, exactly.
        let a: u128 = square(d.x.raw) + square(d.y.raw) + square(d.z.raw);
        if a == 0 {
            return None;
        }
        let b: i128 = exact_dot(&oc, &d);
        let oo: i128 = exact_dot(&oc, &oc);
        let c: i128 = oo - (square(radius.raw) as i128);
        let b_size: u128 = if b < 0 {
            (-b) as u128
        } else {
            b as u128
        };
        let c_size: u128 = if c < 0 {
            (-c) as u128
        } else {
            c as u128
        };
        let bb = wide::multiply(b_size, b_size);
        let ac = wide::multiply(a, c_size);
        proof {
            lemma_coefficient_bounds(a as int, b as int, c as int);
            assert(bb@ == b * b) by (nonlinear_arith)
                requires
                    bb@ == b_size * b_size,
                    b_size == b || b_size == -b,
            ;
            assert(ac@ == a * c || ac@ == -(a * c)) by (nonlinear_arith)
                requires
                    ac@ == a * c_size,
                    c_size == c || c_size == -c,
            ;
            assert(c < 0 ==> ac@ == -(a * c)) by (nonlinear_arith)
                requires
                    ac@ == a * c_size,
                    c < 0 ==> c_size == -c,
            ;
            assert(c >= 0 ==> ac@ == a * c) by (nonlinear_arith)
                requires
                    ac@ == a * c_size,
                    c >= 0 ==> c_size == c,
            ;
        }
        let discriminant = if c < 0 {
            wide::sum(bb, ac)
        } else if wide::at_most(ac, bb) {
            wide::difference(bb, ac)
        } else {
            return None;
        };
        assert(discriminant@ == self.spec_discriminant(*ray));
        // The root that lies in the interval, the smaller one first.
        let sqrtd: i128 = wide::root(discriminant) as i128;
        let sub_root = parameter(-b - sqrtd, a);
        let add_root = parameter(-b + sqrtd, a);
        proof {
            assert(sub_root == self.spec_near_root(*ray));
            assert(add_root == self.spec_far_root(*ray));
        }
        let t = if t_min.raw < sub_root.raw && sub_root.raw < t_max.raw {
            sub_root
        } else if t_min.raw < add_root.raw && add_root.raw < t_max.raw {
            add_root
        } else {
            return None;
        };
        let mut record = Record::new();
        record.t = t;
        record.p = ray.at(record.t);
        let outward_normal = match (record.p - self.center).unit() {
            Ok(outward_normal) => outward_normal,
            Err(_) => {
                return None;
            },
        };
        record.mat = self.mat.clone();
        record.set_face_normal(ray, &outward_normal);
        Some(record)
    }
}

/// A coordinate as it is, or at a quarter of its size.
fn shrunk(x: Fixed, whole: bool) -> (r: Fixed)
    requires
        whole ==> spec_fits(x),
    ensures
        r == spec_shrunk(x, if whole { 1int } else { 4int }),
        spec_fits(r),
{
    proof {
        lemma_shrunk(x);
    }
    if whole {
        x
    } else {
        Fixed { raw: crate::scalar::divide(x.raw as i128, 4) as i64 }
    }
}

/// A coordinate shrunk by one is the coordinate, and shrunk by four it lies
/// within the limit.
proof fn lemma_shrunk(x: Fixed)
    ensures
        spec_shrunk(x, 1) == x,
        spec_fits(spec_shrunk(x, 4)),
        spec_shrunk(x, 4).raw == quotient(x@, 4),
{
    let size = crate::scalar::magnitude(x@);
    assert(size / 1 == size);
    assert(size / 4 <= 0x2000_0000_0000_0000);
}

/// A vector as it is, or at a quarter of its size.
fn shrunk_vector(v: Vec3, whole: bool) -> (r: Vec3)
    requires
        whole ==> spec_fits(v.x) && spec_fits(v.y) && spec_fits(v.z),
    ensures
        r == spec_shrunk_vector(v, if whole { 1int } else { 4int }),
        spec_fits(r.x) && spec_fits(r.y) && spec_fits(r.z),
{
    Vec3 { x: shrunk(v.x, whole), y: shrunk(v.y, whole), z: shrunk(v.z, whole) }
}

/// Whether a coordinate lies within the limit.
fn fits(x: Fixed) -> (r: bool)
    ensures
        r == spec_fits(x),
{
    -LIMIT <= x.raw && x.raw <= LIMIT
}

/// The dot product of two vectors within the limit, without rounding.
fn exact_dot(u: &Vec3, v: &Vec3) -> (r: i128)
    requires
        spec_fits(u.x) && spec_fits(u.y) && spec_fits(u.z),
        spec_fits(v.x) && spec_fits(v.y) && spec_fits(v.z),
    ensures
        r == spec_exact_dot(*u, *v),
        -0xc00_0000_0000_0000_0000_0000_0000_0000 <= r <= 0xc00_0000_0000_0000_0000_0000_0000_0000,
{
    let x: i128 = product_within(u.x.raw, v.x.raw);
    let y: i128 = product_within(u.y.raw, v.y.raw);
    let z: i128 = product_within(u.z.raw, v.z.raw);
    x + y + z
}

/// The product of two coordinates within the limit.
fn product_within(x: i64, y: i64) -> (r: i128)
    requires
        -LIMIT <= x <= LIMIT,
        -LIMIT <= y <= LIMIT,
    ensures
        r == x * y,
        -0x400_0000_0000_0000_0000_0000_0000_0000 <= r <= 0x400_0000_0000_0000_0000_0000_0000_0000,
{
    assert(-0x400_0000_0000_0000_0000_0000_0000_0000 <= x * y
        <= 0x400_0000_0000_0000_0000_0000_0000_0000) by (nonlinear_arith)
        requires
            -0x2000_0000_0000_0000 <= x <= 0x2000_0000_0000_0000,
            -0x2000_0000_0000_0000 <= y <= 0x2000_0000_0000_0000,
    ;
    (x as i128) * (y as i128)
}

/// The square of a coordinate within the limit is at most `2^122`.
proof fn lemma_square_within(x: int)
    by (nonlinear_arith)
    requires
        -0x2000_0000_0000_0000 <= x <= 0x2000_0000_0000_0000,
    ensures
        0 <= x * x <= 0x400_0000_0000_0000_0000_0000_0000_0000,
{
}

/// Products of coefficients within their bounds stay below `2^248`.
proof fn lemma_coefficient_bounds(a: int, b: int, c: int)
    requires
        0 <= a <= 0x1000_0000_0000_0000_0000_0000_0000_0000,
        -0x1000_0000_0000_0000_0000_0000_0000_0000 <= b <= 0x1000_0000_0000_0000_0000_0000_0000_0000,
        -0x1000_0000_0000_0000_0000_0000_0000_0000 <= c <= 0x1000_0000_0000_0000_0000_0000_0000_0000,
    ensures
        0 <= b * b <= 0x1000_0000_0000_0000_0000_0000_0000_0000
            * 0x1000_0000_0000_0000_0000_0000_0000_0000,
        -(0x1000_0000_0000_0000_0000_0000_0000_0000 * 0x1000_0000_0000_0000_0000_0000_0000_0000)
            <= a * c <= 0x1000_0000_0000_0000_0000_0000_0000_0000
            * 0x1000_0000_0000_0000_0000_0000_0000_0000,
{
    assert(0 <= b * b <= 0x1000_0000_0000_0000_0000_0000_0000_0000
        * 0x1000_0000_0000_0000_0000_0000_0000_0000) by (nonlinear_arith)
        requires
            -0x1000_0000_0000_0000_0000_0000_0000_0000 <= b
                <= 0x1000_0000_0000_0000_0000_0000_0000_0000,
    ;
    assert(-(0x1000_0000_0000_0000_0000_0000_0000_0000
        * 0x1000_0000_0000_0000_0000_0000_0000_0000) <= a * c
        <= 0x1000_0000_0000_0000_0000_0000_0000_0000 * 0x1000_0000_0000_0000_0000_0000_0000_0000)
        by (nonlinear_arith)
        requires
            0 <= a <= 0x1000_0000_0000_0000_0000_0000_0000_0000,
            -0x1000_0000_0000_0000_0000_0000_0000_0000 <= c
                <= 0x1000_0000_0000_0000_0000_0000_0000_0000,
    ;
}

/// The ray parameter `n / a`, rounded once toward zero.
fn parameter(n: i128, a: u128) -> (t: Fixed)
    requires
        -0x4000_0000_0000_0000_0000_0000_0000_0000 < n < 0x4000_0000_0000_0000_0000_0000_0000_0000,
        1 <= a < 0x4000_0000_0000_0000_0000_0000_0000_0000,
    ensures
        t == Fixed::of(quotient(SCALE * n, a as int)),
{
    let size: u128 = if n < 0 {
        (-n) as u128
    } else {
        n as u128
    };
    let numerator = wide::multiply(1_000_000_000, size);
    let q = wide::quotient_capped(numerator, a);
    proof {
        assert(crate::scalar::magnitude(SCALE * n) == 1_000_000_000 * size);
    }
    if n < 0 {
        Fixed { raw: -q }
    } else {
        Fixed { raw: q }
    }
}

/// Of the two roots the near one is not the larger.
pub proof fn lemma_roots_ordered(s: Sphere, ray: Ray)
    requires
        s.spec_meets(ray),
    ensures
        s.spec_near_root(ray).raw <= s.spec_far_root(ray).raw,
{
    let root = floor_sqrt(s.spec_discriminant(ray));
    crate::scalar::lemma_floor_sqrt_exists(s.spec_discriminant(ray));
    let b = s.spec_b(ray);
    lemma_quotient_monotone(SCALE * (-b - root), SCALE * (-b + root), s.spec_a(ray));
}

/// The normal of a hit is of length one, as far as nine digits can tell,
/// whatever the radius, and never points along the ray that hit.
pub proof fn lemma_normal_is_unit_and_opposes_ray(s: Sphere, ray: Ray, t: Fixed)
    ensures
        s.spec_record_at(ray, t) matches Some(rec) ==> SCALE - 3 <= rec.normal.spec_mag().raw
            <= SCALE && ray.direction.spec_dot(rec.normal).raw <= 0,
{
    let way = ray.spec_at(t).spec_sub(s.center);
    if let Ok(outward) = way.spec_unit() {
        crate::vec3::lemma_unit_has_length_one(way);
        crate::vec3::lemma_dot_neg(ray.direction, outward);
        let opposite = outward.spec_neg();
        assert(opposite.x@ * opposite.x@ == outward.x@ * outward.x@ && opposite.y@ * opposite.y@
            == outward.y@ * outward.y@ && opposite.z@ * opposite.z@ == outward.z@ * outward.z@)
            by (nonlinear_arith)
            requires
                opposite.x@ == -outward.x@,
                opposite.y@ == -outward.y@,
                opposite.z@ == -outward.z@,
        ;
    }
}

/// The normal of a hit against `(p - centre) / radius`: the outward normal
/// is the way `w` from the centre to the point, normalised, and differs in
/// no component from `w` divided by the radius by more than the point is off
/// the sphere, taken relative to the radius, and one billionth. With `f` the
/// stretch of `w`, `m` its stretched length, `r` the radius and `k` the
/// scale: `r f |outward - w / r| <= k |r f - m| + r f`.
pub proof fn lemma_normal_is_near_the_quotient(s: Sphere, ray: Ray, t: Fixed)
    requires
        s.wf(),
    ensures
        s.spec_record_at(ray, t) matches Some(rec) ==> ({
            let way = rec.p.spec_sub(s.center);
            let outward = if rec.front_face {
                rec.normal
            } else {
                rec.normal.spec_neg()
            };
            let quotient = way.spec_div(s.radius);
            let rf = s.radius.raw * way.spec_stretch();
            let bound = SCALE * crate::scalar::magnitude(rf - way.spec_stretched_length()) + rf;
            &&& rec.p == ray.spec_at(t)
            &&& way.spec_unit() == Ok::<Vec3, Error>(outward)
            &&& -bound <= rf * (outward.x@ - quotient.x@) <= bound
            &&& -bound <= rf * (outward.y@ - quotient.y@) <= bound
            &&& -bound <= rf * (outward.z@ - quotient.z@) <= bound
        }),
{
    let way = ray.spec_at(t).spec_sub(s.center);
    if let Ok(outward) = way.spec_unit() {
        crate::vec3::lemma_unit_near_quotient(way, s.radius);
        crate::vec3::lemma_unit_has_length_one(way);
    }
}

/// A sphere behind the ray is not hit: where the origin of the ray lies
/// outside the sphere and the centre lies behind the origin, no parameter
/// from zero on is reported.
pub proof fn lemma_behind_is_missed(s: Sphere, ray: Ray, t_min: Fixed, t_max: Fixed)
    requires
        s.spec_c(ray) > 0,
        s.spec_b(ray) > 0,
        t_min.raw >= 0,
    ensures
        s.spec_intersect(ray, t_min, t_max) is None,
{
    if s.spec_meets(ray) {
        let a = s.spec_a(ray);
        let b = s.spec_b(ray);
        let c = s.spec_c(ray);
        let disc = s.spec_discriminant(ray);
        crate::scalar::lemma_floor_sqrt_exists(disc);
        let root = floor_sqrt(disc);
        assert(disc < b * b) by (nonlinear_arith)
            requires
                disc == b * b - a * c,
                a > 0,
                c > 0,
        ;
        assert(root < b) by (nonlinear_arith)
            requires
                root * root <= disc,
                disc < b * b,
                0 <= root,
                0 < b,
        ;
        let n = SCALE * (-b + root);
        assert(n < 0);
        assert(quotient(n, a) <= 0) by (nonlinear_arith)
            requires
                n < 0,
                a > 0,
                quotient(n, a) == -((-n) / a),
        ;
        lemma_roots_ordered(s, ray);
    }
}

/// One coordinate of the point of the ray: `k p` differs from the exact
/// `q = k o + t d` by the rounding of the product, and so do their squares.
proof fn lemma_rounded_coordinate(o: int, t: int, d: int, p: int, size: int)
    requires
        p == o + quotient(d * t, SCALE as int),
        size == crate::scalar::magnitude(p),
    ensures
        ({
            let y = t * d;
            let q = 1_000_000_000 * o + y;
            &&& q * q == 1_000_000_000_000_000_000 * (o * o) + 2_000_000_000 * (o * y) + y * y
            &&& -(2_000_000_000_000_000_000 * size + 1_000_000_000_000_000_000)
                <= 1_000_000_000_000_000_000 * (p * p) - q * q <= 2_000_000_000_000_000_000 * size
                + 1_000_000_000_000_000_000
        }),
{
    let y = t * d;
    let q = 1_000_000_000 * o + y;
    let e = quotient(d * t, SCALE as int);
    assert(d * t == y) by (nonlinear_arith)
        requires
            y == t * d,
    ;
    crate::vec3::lemma_quotient_remainder(y, SCALE as int);
    let rho = y - e * 1_000_000_000;
    let kp = 1_000_000_000 * p;
    assert(kp == q - rho);
    assert(q * q == 1_000_000_000_000_000_000 * (o * o) + 2_000_000_000 * (o * y) + y * y)
        by (nonlinear_arith)
        requires
            q == 1_000_000_000 * o + y,
    ;
    assert(kp * kp == 1_000_000_000_000_000_000 * (p * p)) by (nonlinear_arith)
        requires
            kp == 1_000_000_000 * p,
    ;
    let cross = kp * rho;
    assert(kp * kp - q * q == -2 * cross - rho * rho) by (nonlinear_arith)
        requires
            kp == q - rho,
            cross == kp * rho,
    ;
    let ks = 1_000_000_000 * size;
    assert(-(1_000_000_000 * ks) <= cross <= 1_000_000_000 * ks) by (nonlinear_arith)
        requires
            cross == kp * rho,
            kp == ks || kp == -ks,
            ks >= 0,
            -1_000_000_000 < rho < 1_000_000_000,
    ;
    assert(0 <= rho * rho <= 1_000_000_000_000_000_000) by (nonlinear_arith)
        requires
            -1_000_000_000 < rho < 1_000_000_000,
    ;
}

/// The arithmetic of a hit: with exact coefficients `a`, `b`, `c`, the
/// rounded root `s` of the discriminant, the parameter `t` rounded once from
/// `k (-b +- s) / a` and a point whose coordinates are rounded once each, the
/// squared distance of the point from the centre differs from the squared
/// radius `rr` by no more than the roundings account for.
proof fn lemma_hit_arithmetic(
    o: (int, int, int),
    d: (int, int, int),
    p: (int, int, int),
    rr: int,
    s: int,
    n: int,
    t: int,
)
    requires
        d.0 * d.0 + d.1 * d.1 + d.2 * d.2 > 0,
        ({
            let a = d.0 * d.0 + d.1 * d.1 + d.2 * d.2;
            let b = o.0 * d.0 + o.1 * d.1 + o.2 * d.2;
            let c = o.0 * o.0 + o.1 * o.1 + o.2 * o.2 - rr;
            let disc = b * b - a * c;
            &&& 0 <= s
            &&& s * s <= disc < (s + 1) * (s + 1)
            &&& (n == -b - s || n == -b + s)
            &&& t == quotient(SCALE * n, a)
        }),
        p.0 == o.0 + quotient(d.0 * t, SCALE as int),
        p.1 == o.1 + quotient(d.1 * t, SCALE as int),
        p.2 == o.2 + quotient(d.2 * t, SCALE as int),
    ensures
        ({
            let a = d.0 * d.0 + d.1 * d.1 + d.2 * d.2;
            let sizes = crate::scalar::magnitude(p.0) + crate::scalar::magnitude(p.1)
                + crate::scalar::magnitude(p.2);
            let bound = 1_000_000_000_000_000_000 * (2 * s + 1) + 2_000_000_000 * (s * a) + a * a
                + a * (1_000_000_000_000_000_000 * (2 * sizes + 3));
            let off = a * (1_000_000_000_000_000_000 * (p.0 * p.0 + p.1 * p.1 + p.2 * p.2 - rr));
            -bound <= off <= bound
        }),
{
    let a = d.0 * d.0 + d.1 * d.1 + d.2 * d.2;
    let x0 = o.0 * d.0;
    let x1 = o.1 * d.1;
    let x2 = o.2 * d.2;
    let b = x0 + x1 + x2;
    let oo = o.0 * o.0 + o.1 * o.1 + o.2 * o.2;
    let c = oo - rr;
    let bb = b * b;
    let ac = a * c;
    let disc = bb - ac;
    let y0 = t * d.0;
    let y1 = t * d.1;
    let y2 = t * d.2;
    let q0 = 1_000_000_000 * o.0 + y0;
    let q1 = 1_000_000_000 * o.1 + y1;
    let q2 = 1_000_000_000 * o.2 + y2;
    let s0 = crate::scalar::magnitude(p.0);
    let s1 = crate::scalar::magnitude(p.1);
    let s2 = crate::scalar::magnitude(p.2);
    lemma_rounded_coordinate(o.0, t, d.0, p.0, s0);
    lemma_rounded_coordinate(o.1, t, d.1, p.1, s1);
    lemma_rounded_coordinate(o.2, t, d.2, p.2, s2);
    let qq = q0 * q0 + q1 * q1 + q2 * q2;
    let pp = p.0 * p.0 + p.1 * p.1 + p.2 * p.2;
    let sizes = s0 + s1 + s2;
    let tt = t * t;
    let tb = t * b;
    let tta = tt * a;
    // The exact point: its squared distance, scaled, in terms of the coefficients.
    assert(o.0 * y0 == t * x0) by (nonlinear_arith)
        requires
            y0 == t * d.0,
            x0 == o.0 * d.0,
    ;
    assert(o.1 * y1 == t * x1) by (nonlinear_arith)
        requires
            y1 == t * d.1,
            x1 == o.1 * d.1,
    ;
    assert(o.2 * y2 == t * x2) by (nonlinear_arith)
        requires
            y2 == t * d.2,
            x2 == o.2 * d.2,
    ;
    assert(y0 * y0 == tt * (d.0 * d.0)) by (nonlinear_arith)
        requires
            y0 == t * d.0,
            tt == t * t,
    ;
    assert(y1 * y1 == tt * (d.1 * d.1)) by (nonlinear_arith)
        requires
            y1 == t * d.1,
            tt == t * t,
    ;
    assert(y2 * y2 == tt * (d.2 * d.2)) by (nonlinear_arith)
        requires
            y2 == t * d.2,
            tt == t * t,
    ;
    assert(t * x0 + t * x1 + t * x2 == tb) by (nonlinear_arith)
        requires
            tb == t * b,
            b == x0 + x1 + x2,
    ;
    let e0 = d.0 * d.0;
    let e1 = d.1 * d.1;
    let e2 = d.2 * d.2;
    assert(tt * e0 + tt * e1 + tt * e2 == tta) by (nonlinear_arith)
        requires
            tta == tt * a,
            a == e0 + e1 + e2,
    ;
    assert(qq == 1_000_000_000_000_000_000 * oo + 2_000_000_000 * tb + tta);
    let ta = t * a;
    let w = ta + 1_000_000_000 * b;
    let tab = ta * b;
    assert(w * w == ta * ta + 2_000_000_000 * tab + 1_000_000_000_000_000_000 * bb)
        by (nonlinear_arith)
        requires
            w == ta + 1_000_000_000 * b,
            tab == ta * b,
            bb == b * b,
    ;
    assert(ta * ta == a * tta) by (nonlinear_arith)
        requires
            ta == t * a,
            tta == tt * a,
            tt == t * t,
    ;
    assert(tab == a * tb) by (nonlinear_arith)
        requires
            tab == ta * b,
            ta == t * a,
            tb == t * b,
    ;
    let aoo = a * oo;
    let arr = a * rr;
    assert(ac == aoo - arr) by (nonlinear_arith)
        requires
            ac == a * c,
            c == oo - rr,
            aoo == a * oo,
            arr == a * rr,
    ;
    let inner = qq - 1_000_000_000_000_000_000 * rr;
    let exact = a * inner;
    assert(exact == 1_000_000_000_000_000_000 * aoo + 2_000_000_000 * (a * tb) + a * tta
        - 1_000_000_000_000_000_000 * arr) by (nonlinear_arith)
        requires
            exact == a * inner,
            inner == 1_000_000_000_000_000_000 * oo + 2_000_000_000 * tb + tta
                - 1_000_000_000_000_000_000 * rr,
            aoo == a * oo,
            arr == a * rr,
    ;
    assert(exact == w * w - 1_000_000_000_000_000_000 * disc);
    // The parameter was rounded once.
    crate::vec3::lemma_quotient_remainder(SCALE * n, a);
    assert(quotient(SCALE * n, a) * a == ta) by (nonlinear_arith)
        requires
            ta == t * a,
            t == quotient(SCALE * n, a),
    ;
    let sigma = 1_000_000_000 * n - ta;
    let m = n + b;
    assert(w == 1_000_000_000 * m - sigma);
    let ms = m * sigma;
    assert(w * w == 1_000_000_000_000_000_000 * (m * m) - 2_000_000_000 * ms + sigma * sigma)
        by (nonlinear_arith)
        requires
            w == 1_000_000_000 * m - sigma,
            ms == m * sigma,
    ;
    let ss = s * s;
    assert(m * m == ss) by (nonlinear_arith)
        requires
            m == s || m == -s,
            ss == s * s,
    ;
    assert((s + 1) * (s + 1) == ss + 2 * s + 1) by (nonlinear_arith)
        requires
            ss == s * s,
    ;
    let sa = s * a;
    assert(-sa <= ms <= sa) by (nonlinear_arith)
        requires
            ms == m * sigma,
            sa == s * a,
            m == s || m == -s,
            0 <= s,
            -a < sigma < a,
            a > 0,
    ;
    assert(0 <= sigma * sigma <= a * a) by (nonlinear_arith)
        requires
            -a < sigma < a,
    ;
    assert(-(1_000_000_000_000_000_000 * (2 * s + 1) + 2_000_000_000 * sa) <= exact
        <= 2_000_000_000 * sa + a * a);
    // The coordinates of the point were rounded once each.
    let rounding = 1_000_000_000_000_000_000 * pp - qq;
    let slack = 1_000_000_000_000_000_000 * (2 * sizes + 3);
    assert(-slack <= rounding <= slack);
    let scaled = a * rounding;
    assert(-(a * slack) <= scaled <= a * slack) by (nonlinear_arith)
        requires
            scaled == a * rounding,
            -slack <= rounding <= slack,
            a > 0,
    ;
    let gap = 1_000_000_000_000_000_000 * (pp - rr);
    assert(a * gap == scaled + exact) by (nonlinear_arith)
        requires
            gap == rounding + inner,
            scaled == a * rounding,
            exact == a * inner,
    ;
}

/// The point of a hit lies on the sphere, as far as the roundings allow.
///
/// Let `a` be the squared length of the direction, `s` the rounded root of
/// the discriminant and `|w|` the sum of the magnitudes of the coordinates of
/// the way `w` from the centre to the point, all in raw units, and `k` the
/// scale. Where the ray and the sphere are taken as they are, the origin,
/// the centre and the point lie within the limit and the root was not cut
/// off at the largest number,
///
/// `a k^2 | w . w - r^2 |  <=  k^2 (2 s + 1) + 2 k s a + a^2 + a k^2 (2 |w| + 3)`.
///
/// The numbers in the clause are `k = 10^9`, `k^2` and `2 k`.
///
/// For a direction of length one (`a = k^2`, `s <= r k`) the right side is at
/// most `a k^2 (2 r + 2 |w| + 6)`: the distance of the point from the centre
/// differs from the radius by about three billionths.
pub proof fn lemma_hit_point_is_near_the_sphere(s: Sphere, ray: Ray, t: Fixed)
    requires
        s.spec_meets(ray),
        s.spec_in_range(ray),
        t == s.spec_near_root(ray) || t == s.spec_far_root(ray),
        -crate::scalar::RAW_MAX < t.raw < crate::scalar::RAW_MAX,
        spec_fits(ray.origin.x) && spec_fits(ray.origin.y) && spec_fits(ray.origin.z),
        spec_fits(s.center.x) && spec_fits(s.center.y) && spec_fits(s.center.z),
        spec_fits(ray.spec_at(t).x) && spec_fits(ray.spec_at(t).y) && spec_fits(ray.spec_at(t).z),
    ensures
        ({
            let way = ray.spec_at(t).spec_sub(s.center);
            let a = s.spec_a(ray);
            let root = s.spec_root_of_discriminant(ray);
            let sizes = crate::scalar::magnitude(way.x@) + crate::scalar::magnitude(way.y@)
                + crate::scalar::magnitude(way.z@);
            let bound = 1_000_000_000_000_000_000 * (2 * root + 1) + 2_000_000_000 * (root * a) + a
                * a + a * (1_000_000_000_000_000_000 * (2 * sizes + 3));
            let off = a * (1_000_000_000_000_000_000 * (spec_exact_dot(way, way) - s.radius@
                * s.radius@));
            -bound <= off <= bound
        }),
{
    let k = SCALE as int;
    let oc = s.spec_oc(ray);
    let d = ray.direction;
    lemma_shrunk(oc.x);
    lemma_shrunk(oc.y);
    lemma_shrunk(oc.z);
    lemma_shrunk(d.x);
    lemma_shrunk(d.y);
    lemma_shrunk(d.z);
    lemma_shrunk(s.radius);
    assert(s.spec_way(ray) == oc && s.spec_course(ray) == d && s.spec_reach(ray) == s.radius);
    let way = ray.spec_at(t).spec_sub(s.center);
    let disc = s.spec_discriminant(ray);
    crate::scalar::lemma_floor_sqrt_exists(disc);
    let root = floor_sqrt(disc);
    let b = s.spec_b(ray);
    let n = if t == s.spec_near_root(ray) {
        -b - root
    } else {
        -b + root
    };
    assert(t.raw == quotient(k * n, s.spec_a(ray)));
    // Nothing was cut off on the way to the point.
    let at = ray.spec_at(t);
    assert(at.x@ == ray.origin.x@ + quotient(d.x@ * t@, k));
    assert(at.y@ == ray.origin.y@ + quotient(d.y@ * t@, k));
    assert(at.z@ == ray.origin.z@ + quotient(d.z@ * t@, k));
    assert(way.x@ == oc.x@ + quotient(d.x@ * t@, k));
    assert(way.y@ == oc.y@ + quotient(d.y@ * t@, k));
    assert(way.z@ == oc.z@ + quotient(d.z@ * t@, k));
    lemma_hit_arithmetic(
        (oc.x@, oc.y@, oc.z@),
        (d.x@, d.y@, d.z@),
        (way.x@, way.y@, way.z@),
        s.radius@ * s.radius@,
        root,
        n,
        t@,
    );
}

impl Hittable for Sphere {
    open spec fn hit_spec(&self, ray: Ray, t_min: Fixed, t_max: Fixed) -> Option<Record> {
        self.spec_intersect(ray, t_min, t_max)
    }

    proof fn hit_in_range(&self, ray: Ray, t_min: Fixed, t_max: Fixed) {
    }

    proof fn hit_under_bound(&self, ray: Ray, t_min: Fixed, t_max: Fixed, bound: Fixed) {
        if self.spec_meets(ray) {
            lemma_roots_ordered(*self, ray);
        }
    }

    fn hit(&self, ray: &Ray, t_min: Fixed, t_max: Fixed) -> (r: Option<Record>) {
        self.intersect(ray, t_min, t_max)
    }
}

/// The hit that a sweep over `spheres` in order reports: each sphere has to
/// beat the nearest hit found before it.
pub open spec fn nearest_sphere(spheres: Seq<Sphere>, ray: Ray, t_min: Fixed, t_max: Fixed) -> Option<
    Record,
>
    decreases spheres.len(),
{
    if spheres.len() == 0 {
        None
    } else {
        let found = nearest_sphere(spheres.drop_last(), ray, t_min, t_max);
        match spheres.last().spec_intersect(ray, t_min, limit(found, t_max)) {
            Some(rec) => Some(rec),
            None => found,
        }
    }
}

/// The hit of a sweep over spheres lies strictly inside the interval, and a
/// lower upper limit keeps it if it lies before the limit and reports none
/// otherwise.
pub proof fn lemma_nearest_sphere(
    spheres: Seq<Sphere>,
    ray: Ray,
    t_min: Fixed,
    t_max: Fixed,
    bound: Fixed,
)
    ensures
        nearest_sphere(spheres, ray, t_min, t_max) matches Some(rec) ==> t_min.raw < rec.t.raw
            < t_max.raw,
        bound.raw <= t_max.raw ==> nearest_sphere(spheres, ray, t_min, bound) == before(
            nearest_sphere(spheres, ray, t_min, t_max),
            bound,
        ),
    decreases spheres.len(),
{
    if spheres.len() > 0 {
        let rest = spheres.drop_last();
        let last = spheres.last();
        lemma_nearest_sphere(rest, ray, t_min, t_max, bound);
        let wide = nearest_sphere(rest, ray, t_min, t_max);
        let narrow = nearest_sphere(rest, ray, t_min, bound);
        if last.spec_meets(ray) {
            lemma_roots_ordered(last, ray);
        }
    }
}

/// Any of the things that a scene can hold, so that one scene can mix
/// them: a sphere, or a group of spheres that is swept as one.
pub enum Shape {
    Sphere(Sphere),
    Group(Vec<Sphere>),
}

impl Shape {
    /// The hit that is reported for `(t_min, t_max)`: that of the sphere, or
    /// the nearest of the group.
    pub open spec fn spec_intersect(&self, ray: Ray, t_min: Fixed, t_max: Fixed) -> Option<
        Record,
    > {
        match self {
            Shape::Sphere(sphere) => sphere.spec_intersect(ray, t_min, t_max),
            Shape::Group(group) => nearest_sphere(group@, ray, t_min, t_max),
        }
    }

    /// The nearest point in `(t_min, t_max)` at which `ray` meets the shape.
    pub fn intersect(&self, ray: &Ray, t_min: Fixed, t_max: Fixed) -> (r: Option<Record>)
        ensures
            r == self.spec_intersect(*ray, t_min, t_max),
    {
        match self {
            Shape::Sphere(sphere) => sphere.intersect(ray, t_min, t_max),
            Shape::Group(group) => {
                let mut hit_record: Option<Record> = None;
                let mut closest_so_far = t_max;
                let mut i: usize = 0;
                while i < group.len()
                    invariant
                        i <= group@.len(),
                        hit_record == nearest_sphere(group@.take(i as int), *ray, t_min, t_max),
                        closest_so_far == limit(hit_record, t_max),
                    decreases group@.len() - i,
                {
                    proof {
                        assert(group@.take(i + 1).drop_last() =~= group@.take(i as int));
                    }
                    match group[i].intersect(ray, t_min, closest_so_far) {
                        Some(rec) => {
                            closest_so_far = rec.t;
                            hit_record = Some(rec);
                        },
                        None => {},
                    }
                    i = i + 1;
                }
                proof {
                    assert(group@.take(i as int) =~= group@);
                }
                hit_record
            },
        }
    }
}

/// A shape's hit lies strictly inside the interval, and a lower upper limit
/// keeps the hit if it lies before the limit and reports none otherwise.
pub proof fn lemma_shape_hits(shape: Shape, ray: Ray, t_min: Fixed, t_max: Fixed, bound: Fixed)
    ensures
        shape.spec_intersect(ray, t_min, t_max) matches Some(rec) ==> t_min.raw < rec.t.raw
            < t_max.raw,
        bound.raw <= t_max.raw ==> shape.spec_intersect(ray, t_min, bound) == before(
            shape.spec_intersect(ray, t_min, t_max),
            bound,
        ),
{
    match shape {
        Shape::Sphere(sphere) => {
            if sphere.spec_meets(ray) {
                lemma_roots_ordered(sphere, ray);
            }
        },
        Shape::Group(group) => {
            lemma_nearest_sphere(group@, ray, t_min, t_max, bound);
        },
    }
}

impl Hittable for Shape {
    open spec fn hit_spec(&self, ray: Ray, t_min: Fixed, t_max: Fixed) -> Option<Record> {
        Shape::spec_intersect(self, ray, t_min, t_max)
    }

    proof fn hit_in_range(&self, ray: Ray, t_min: Fixed, t_max: Fixed) {
        lemma_shape_hits(*self, ray, t_min, t_max, t_max);
    }

    proof fn hit_under_bound(&self, ray: Ray, t_min: Fixed, t_max: Fixed, bound: Fixed) {
        lemma_shape_hits(*self, ray, t_min, t_max, bound);
    }

    fn hit(&self, ray: &Ray, t_min: Fixed, t_max: Fixed) -> (r: Option<Record>) {
        Shape::intersect(self, ray, t_min, t_max)
    }
}

} // verus!
