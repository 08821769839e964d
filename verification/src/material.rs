//! How surfaces answer the light that reaches them.
use crate::color::Color;
use crate::hit;
use crate::ray::Ray;
use crate::scalar::{Fixed, SCALE};
use crate::vec3::Vec3;
use core::ops::Neg;
use vstd::prelude::*;

verus! {

/// What a surface sends on: the ray that leaves it and the share of light it keeps.
#[derive(Clone, Copy, Debug, PartialEq, Eq, Structural)]
pub struct Record {
    pub attenuation: Color,
    pub scattered: Ray,
}

/// A material answers an incoming ray at a hit with a scattered ray, or
/// absorbs it (`None`).
///
/// The answer may depend on chance. It is a function of the ray, the hit and
/// one random vector from the unit ball: `scatter_with` computes it for a given
/// vector, `scatter` draws the vector.
///
/// A ray without direction has no answer but absorption from the materials
/// that go by the direction; [`crate::render::ray_color`] refuses such a ray
/// before it asks a material.
pub trait Material {
    /// The answer for the random vector `sample`.
    spec fn scatter_spec(&self, ray_in: Ray, h_rec: hit::Record, sample: Vec3) -> Option<Record>;

    /// The answer for the random vector `sample`.
    fn scatter_with(&self, ray_in: &Ray, h_rec: &hit::Record, sample: &Vec3) -> (r: Option<Record>)
        ensures
            r == self.scatter_spec(*ray_in, *h_rec, *sample),
    ;

    /// The answer for a random vector that is drawn here.
    fn scatter(&self, ray_in: &Ray, h_rec: &hit::Record) -> (r: Option<Record>)
        ensures
            exists|sample: Vec3|
                sample.in_unit_ball() && r == #[trigger] self.scatter_spec(
                    *ray_in,
                    *h_rec,
                    sample,
                ),
    ;
}

/// A surface that absorbs all light.
#[derive(Clone, Copy, Debug, PartialEq, Eq, Structural)]
pub struct Blank {}

impl Blank {
    /// The surface that absorbs all light.
    pub fn new() -> (r: Blank)
        ensures
            r == (Blank {  }),
    {
        Blank {  }
    }

    /// The answer for the random vector `sample`: absorption.
    pub open spec fn answer_spec(self, ray_in: Ray, h_rec: hit::Record, sample: Vec3) -> Option<
        Record,
    > {
        None
    }

    /// The answer for the random vector `sample`.
    pub fn answer_with(&self, ray_in: &Ray, h_rec: &hit::Record, sample: &Vec3) -> (r: Option<
        Record,
    >)
        ensures
            r == self.answer_spec(*ray_in, *h_rec, *sample),
    {
        None
    }

    /// The answer, for which no vector is drawn.
    pub fn answer(&self, ray_in: &Ray, h_rec: &hit::Record) -> (r: Option<Record>)
        ensures
            exists|sample: Vec3|
                sample.in_unit_ball() && r == #[trigger] self.answer_spec(*ray_in, *h_rec, sample),
            Surface::Blank(*self).possible(*ray_in, *h_rec, r),
    {
        proof {
            crate::vec3::lemma_zero_in_unit_ball();
            assert(self.answer_spec(*ray_in, *h_rec, Vec3::spec_zero()) == None::<Record>);
            assert(Surface::Blank(*self).scatter_spec(*ray_in, *h_rec, Vec3::spec_zero())
                == None::<Record>);
        }
        None
    }
}

impl Default for Blank {
    fn default() -> (r: Blank)
        ensures
            r == (Blank {  }),
    {
        Blank {  }
    }
}

impl Material for Blank {
    open spec fn scatter_spec(&self, ray_in: Ray, h_rec: hit::Record, sample: Vec3) -> Option<
        Record,
    > {
        self.answer_spec(ray_in, h_rec, sample)
    }

    fn scatter_with(&self, ray_in: &Ray, h_rec: &hit::Record, sample: &Vec3) -> (r: Option<Record>) {
        self.answer_with(ray_in, h_rec, sample)
    }

    fn scatter(&self, ray_in: &Ray, h_rec: &hit::Record) -> (r: Option<Record>) {
        let r = self.answer(ray_in, h_rec);
        proof {
            let sample = choose|sample: Vec3|
                sample.in_unit_ball() && r == #[trigger] self.answer_spec(*ray_in, *h_rec, sample);
            assert(self.scatter_spec(*ray_in, *h_rec, sample) == r);
        }
        r
    }
}

/// A diffuse surface: it scatters around the normal and keeps `albedo`.
#[derive(Clone, Copy, Debug, PartialEq, Eq, Structural)]
pub struct Lambertian {
    pub albedo: Color,
}

impl Lambertian {
    /// A diffuse surface that keeps `albedo`.
    pub fn new(albedo: &Color) -> (r: Lambertian)
        ensures
            r.albedo == *albedo,
    {
        Lambertian { albedo: *albedo }
    }

    /// The answer when the random direction is `unit`.
    pub open spec fn spec_toward(self, h_rec: hit::Record, unit: Vec3) -> Record {
        let candidate = h_rec.normal.spec_add(unit);
        Record {
            attenuation: self.albedo,
            scattered: Ray {
                origin: h_rec.p,
                direction: if candidate.spec_is_near_zero() {
                    h_rec.normal
                } else {
                    candidate
                },
            },
        }
    }

    /// The answer for the random vector `sample`: the normal plus the
    /// direction of the sample, or the normal alone where the two cancel.
    pub open spec fn answer_spec(self, ray_in: Ray, h_rec: hit::Record, sample: Vec3) -> Option<
        Record,
    > {
        Some(self.spec_toward(h_rec, sample.spec_unit_or(Vec3::spec_first_axis())))
    }

    fn toward(&self, h_rec: &hit::Record, unit: Vec3) -> (r: Record)
        ensures
            r == self.spec_toward(*h_rec, unit),
    {
        let mut scatter_direction = h_rec.normal + unit;
        // A direction that cancels the normal would leave a ray without direction.
        if scatter_direction.is_near_zero() {
            scatter_direction = h_rec.normal;
        }
        Record {
            scattered: Ray { origin: h_rec.p, direction: scatter_direction },
            attenuation: self.albedo,
        }
    }

    /// The answer for the random vector `sample`.
    pub fn answer_with(&self, ray_in: &Ray, h_rec: &hit::Record, sample: &Vec3) -> (r: Option<
        Record,
    >)
        ensures
            r == self.answer_spec(*ray_in, *h_rec, *sample),
    {
        let unit = sample.unit_or(
            Vec3 { x: Fixed { raw: SCALE }, y: Fixed { raw: 0 }, z: Fixed { raw: 0 } },
        );
        Some(self.toward(h_rec, unit))
    }

    /// The answer for a random direction that is drawn here. A diffuse
    /// surface always scatters, and keeps its albedo.
    pub fn answer(&self, ray_in: &Ray, h_rec: &hit::Record) -> (r: Option<Record>)
        ensures
            exists|sample: Vec3|
                sample.in_unit_ball() && r == #[trigger] self.answer_spec(*ray_in, *h_rec, sample),
            Surface::Lambertian(*self).possible(*ray_in, *h_rec, r),
            r matches Some(rec) && rec.attenuation == self.albedo,
    {
        let unit = Vec3::rand_unit();
        let r = Some(self.toward(h_rec, unit));
        proof {
            let sample = choose|v: Vec3| #[trigger]
                v.in_unit_ball() && unit == v.spec_unit_or(Vec3::spec_first_axis());
            assert(self.answer_spec(*ray_in, *h_rec, sample) == r);
            assert(Surface::Lambertian(*self).scatter_spec(*ray_in, *h_rec, sample) == r);
        }
        r
    }
}

impl Default for Lambertian {
    fn default() -> (r: Lambertian)
        ensures
            r.albedo == Color::spec_black(),
    {
        Lambertian { albedo: Color::default() }
    }
}

impl Material for Lambertian {
    open spec fn scatter_spec(&self, ray_in: Ray, h_rec: hit::Record, sample: Vec3) -> Option<
        Record,
    > {
        self.answer_spec(ray_in, h_rec, sample)
    }

    fn scatter_with(&self, ray_in: &Ray, h_rec: &hit::Record, sample: &Vec3) -> (r: Option<Record>) {
        self.answer_with(ray_in, h_rec, sample)
    }

    fn scatter(&self, ray_in: &Ray, h_rec: &hit::Record) -> (r: Option<Record>)
        ensures
            r matches Some(rec) && rec.attenuation == self.albedo,
    {
        let r = self.answer(ray_in, h_rec);
        proof {
            let sample = choose|sample: Vec3|
                sample.in_unit_ball() && r == #[trigger] self.answer_spec(*ray_in, *h_rec, sample);
            assert(self.scatter_spec(*ray_in, *h_rec, sample) == r);
        }
        r
    }
}

/// A mirror, blurred by `fuzz`: it reflects and keeps `albedo`.
#[derive(Clone, Copy, Debug, PartialEq, Eq, Structural)]
pub struct Metal {
    pub albedo: Color,
    /// Radius of the blur, from `0` (a clean mirror) to `1`.
    pub fuzz: Fixed,
}

impl Metal {
    /// A mirror that keeps `albedo`, blurred by `fuzz`.
    pub fn new(albedo: &Color, fuzz: Fixed) -> (r: Metal)
        ensures
            r.albedo == *albedo,
            r.fuzz == fuzz,
    {
        Metal { albedo: *albedo, fuzz }
    }

    /// The answer for the random vector `sample`: the reflection of the
    /// ray's direction, blurred by the sample, unless it points into the
    /// surface.
    pub open spec fn answer_spec(self, ray_in: Ray, h_rec: hit::Record, sample: Vec3) -> Option<
        Record,
    > {
        match ray_in.direction.spec_unit() {
            Err(_) => None,
            Ok(unit) => {
                let direction = unit.spec_reflect(h_rec.normal).spec_add(
                    sample.spec_scale(self.fuzz),
                );
                if direction.spec_dot(h_rec.normal).raw > 0 {
                    Some(
                        Record {
                            attenuation: self.albedo,
                            scattered: Ray { origin: h_rec.p, direction },
                        },
                    )
                } else {
                    None
                }
            },
        }
    }

    /// The answer for the random vector `sample`.
    pub fn answer_with(&self, ray_in: &Ray, h_rec: &hit::Record, sample: &Vec3) -> (r: Option<
        Record,
    >)
        ensures
            r == self.answer_spec(*ray_in, *h_rec, *sample),
    {
        match ray_in.direction.unit() {
            Err(_) => None,
            Ok(unit) => {
                let reflected = unit.reflect(&h_rec.normal);
                let scattered = Ray {
                    origin: h_rec.p,
                    direction: reflected + self.fuzz * *sample,
                };
                if scattered.direction.dot(h_rec.normal).raw > 0 {
                    Some(Record { attenuation: self.albedo, scattered })
                } else {
                    None
                }
            },
        }
    }

    /// The answer for a random vector that is drawn here.
    pub fn answer(&self, ray_in: &Ray, h_rec: &hit::Record) -> (r: Option<Record>)
        ensures
            exists|sample: Vec3|
                sample.in_unit_ball() && r == #[trigger] self.answer_spec(*ray_in, *h_rec, sample),
            Surface::Metal(*self).possible(*ray_in, *h_rec, r),
    {
        let sample = Vec3::rand_in_unit_sphere();
        let r = self.answer_with(ray_in, h_rec, &sample);
        proof {
            assert(self.answer_spec(*ray_in, *h_rec, sample) == r);
            assert(Surface::Metal(*self).scatter_spec(*ray_in, *h_rec, sample) == r);
        }
        r
    }
}

impl Default for Metal {
    fn default() -> (r: Metal)
        ensures
            r.albedo == Color::spec_black(),
            r.fuzz.raw == 0,
    {
        Metal { albedo: Color::default(), fuzz: Fixed::zero() }
    }
}

impl Material for Metal {
    open spec fn scatter_spec(&self, ray_in: Ray, h_rec: hit::Record, sample: Vec3) -> Option<
        Record,
    > {
        self.answer_spec(ray_in, h_rec, sample)
    }

    fn scatter_with(&self, ray_in: &Ray, h_rec: &hit::Record, sample: &Vec3) -> (r: Option<Record>) {
        self.answer_with(ray_in, h_rec, sample)
    }

    fn scatter(&self, ray_in: &Ray, h_rec: &hit::Record) -> (r: Option<Record>) {
        let r = self.answer(ray_in, h_rec);
        proof {
            let sample = choose|sample: Vec3|
                sample.in_unit_ball() && r == #[trigger] self.answer_spec(*ray_in, *h_rec, sample);
            assert(self.scatter_spec(*ray_in, *h_rec, sample) == r);
        }
        r
    }
}

/// A clear material such as glass: it refracts, or reflects where it cannot.
#[derive(Clone, Copy, Debug, PartialEq, Eq, Structural)]
pub struct Dielectric {
    /// Index of refraction.
    pub ir: Fixed,
}

impl Dielectric {
    /// A clear material with the index of refraction `ir`.
    pub fn new(ir: Fixed) -> (r: Dielectric)
        ensures
            r.ir == ir,
    {
        Dielectric { ir }
    }

    /// Ratio of the refractive indices that a ray meets on the given side.
    pub open spec fn spec_ratio(self, front_face: bool) -> Fixed {
        if front_face {
            Fixed { raw: SCALE }.spec_div(self.ir)
        } else {
            self.ir
        }
    }

    /// Whether a ray of direction `unit` is reflected for want of a refracted ray.
    pub open spec fn cannot_refract(self, unit: Vec3, normal: Vec3, front_face: bool) -> bool {
        let cos_theta = Fixed { raw: SCALE }.spec_min(unit.spec_dot(normal).spec_neg());
        let sin_theta = Fixed { raw: SCALE }.spec_sub(cos_theta.spec_mul(cos_theta)).spec_sqrt();
        self.spec_ratio(front_face).spec_mul(sin_theta).raw > SCALE
    }

    /// The answer, which no chance has a part in: the refracted ray, or the
    /// reflected one where there is none, with all the light.
    pub open spec fn answer_spec(self, ray_in: Ray, h_rec: hit::Record, sample: Vec3) -> Option<
        Record,
    > {
        match ray_in.direction.spec_unit() {
            Err(_) => None,
            Ok(unit) => Some(
                Record {
                    attenuation: Color::spec_white(),
                    scattered: Ray {
                        origin: h_rec.p,
                        direction: if self.cannot_refract(unit, h_rec.normal, h_rec.front_face) {
                            unit.spec_reflect(h_rec.normal)
                        } else {
                            unit.spec_refract(h_rec.normal, self.spec_ratio(h_rec.front_face))
                        },
                    },
                },
            ),
        }
    }

    /// The answer for the random vector `sample`, which plays no part.
    pub fn answer_with(&self, ray_in: &Ray, h_rec: &hit::Record, sample: &Vec3) -> (r: Option<
        Record,
    >)
        ensures
            r == self.answer_spec(*ray_in, *h_rec, *sample),
    {
        let attenuation = Color::new(Fixed::one(), Fixed::one(), Fixed::one());
        let refraction_ratio = if h_rec.front_face {
            Fixed::one() / self.ir
        } else {
            self.ir
        };
        match ray_in.direction.unit() {
            Err(_) => None,
            Ok(unit_direction) => {
                let cos_theta = Fixed::one().min(unit_direction.dot(h_rec.normal).neg());
                let sin_theta = (Fixed::one() - cos_theta * cos_theta).sqrt();
                let cannot_refract = (refraction_ratio * sin_theta).raw > SCALE;
                let direction = if cannot_refract {
                    unit_direction.reflect(&h_rec.normal)
                } else {
                    unit_direction.refract(&h_rec.normal, refraction_ratio)
                };
                Some(Record { attenuation, scattered: Ray { origin: h_rec.p, direction } })
            },
        }
    }

    /// The answer, for which no vector is drawn.
    pub fn answer(&self, ray_in: &Ray, h_rec: &hit::Record) -> (r: Option<Record>)
        ensures
            exists|sample: Vec3|
                sample.in_unit_ball() && r == #[trigger] self.answer_spec(*ray_in, *h_rec, sample),
            Surface::Dielectric(*self).possible(*ray_in, *h_rec, r),
    {
        let sample = Vec3::zero();
        let r = self.answer_with(ray_in, h_rec, &sample);
        proof {
            crate::vec3::lemma_zero_in_unit_ball();
            assert(self.answer_spec(*ray_in, *h_rec, sample) == r);
            assert(Surface::Dielectric(*self).scatter_spec(*ray_in, *h_rec, sample) == r);
        }
        r
    }
}

impl Default for Dielectric {
    fn default() -> (r: Dielectric)
        ensures
            r.ir.raw == 0,
    {
        Dielectric { ir: Fixed::zero() }
    }
}

impl Material for Dielectric {
    open spec fn scatter_spec(&self, ray_in: Ray, h_rec: hit::Record, sample: Vec3) -> Option<
        Record,
    > {
        self.answer_spec(ray_in, h_rec, sample)
    }

    fn scatter_with(&self, ray_in: &Ray, h_rec: &hit::Record, sample: &Vec3) -> (r: Option<Record>) {
        self.answer_with(ray_in, h_rec, sample)
    }

    fn scatter(&self, ray_in: &Ray, h_rec: &hit::Record) -> (r: Option<Record>) {
        let r = self.answer(ray_in, h_rec);
        proof {
            let sample = choose|sample: Vec3|
                sample.in_unit_ball() && r == #[trigger] self.answer_spec(*ray_in, *h_rec, sample);
            assert(self.scatter_spec(*ray_in, *h_rec, sample) == r);
        }
        r
    }
}

/// A diffuse surface scatters every ray, whatever the chance, and keeps its albedo.
pub proof fn lemma_lambertian_always_scatters(
    m: Lambertian,
    ray_in: Ray,
    h_rec: hit::Record,
    sample: Vec3,
)
    ensures
        m.scatter_spec(ray_in, h_rec, sample) matches Some(rec) && rec.attenuation == m.albedo
            && rec.scattered.origin == h_rec.p,
{
}

/// A clean mirror absorbs a ray whose reflection does not leave the surface.
pub proof fn lemma_mirror_absorbs_inward(m: Metal, ray_in: Ray, h_rec: hit::Record, sample: Vec3)
    requires
        m.fuzz.raw == 0,
        ray_in.direction.spec_unit() matches Ok(unit) ==> unit.spec_reflect(h_rec.normal).spec_dot(
            h_rec.normal,
        ).raw <= 0,
    ensures
        m.scatter_spec(ray_in, h_rec, sample) is None,
{
    crate::scalar::lemma_product_unit(sample.x@);
    crate::scalar::lemma_product_unit(sample.y@);
    crate::scalar::lemma_product_unit(sample.z@);
    if let Ok(unit) = ray_in.direction.spec_unit() {
        let reflected = unit.spec_reflect(h_rec.normal);
        assert(reflected.spec_add(sample.spec_scale(m.fuzz)) == reflected);
    }
}

/// Glass lets a ray pass without a change of direction that meets it along
/// the normal: where the direction `unit` of the ray has length one exactly
/// and the normal is its opposite, the scattered ray has direction `unit`,
/// whatever the refractive index and the side.
pub proof fn lemma_normal_incidence_goes_straight(
    m: Dielectric,
    ray_in: Ray,
    h_rec: hit::Record,
    sample: Vec3,
    unit: Vec3,
)
    requires
        ray_in.direction.spec_unit() == Ok::<Vec3, crate::error::Error>(unit),
        h_rec.normal == unit.spec_neg(),
        unit.spec_dot(h_rec.normal).raw == -SCALE,
    ensures
        m.scatter_spec(ray_in, h_rec, sample) == Some(
            Record {
                attenuation: Color::spec_white(),
                scattered: Ray { origin: h_rec.p, direction: unit },
            },
        ),
{
    let one = Fixed { raw: SCALE };
    let normal = h_rec.normal;
    let ratio = m.spec_ratio(h_rec.front_face);
    crate::scalar::lemma_product_unit(SCALE as int);
    crate::scalar::lemma_product_unit(ratio@);
    crate::scalar::lemma_product_unit(normal.x@);
    crate::scalar::lemma_product_unit(normal.y@);
    crate::scalar::lemma_product_unit(normal.z@);
    crate::vec3::lemma_product_neg(normal.x@, SCALE as int);
    crate::vec3::lemma_product_neg(normal.y@, SCALE as int);
    crate::vec3::lemma_product_neg(normal.z@, SCALE as int);
    assert(crate::scalar::is_floor_sqrt(0, 0));
    crate::scalar::lemma_floor_sqrt_unique(0, 0);
    assert(crate::scalar::is_floor_sqrt(SCALE * SCALE, SCALE as int)) by (nonlinear_arith);
    crate::scalar::lemma_floor_sqrt_unique(SCALE * SCALE, SCALE as int);
    let cos_theta = one.spec_min(unit.spec_dot(normal).spec_neg());
    assert(cos_theta == one);
    let sin_theta = one.spec_sub(cos_theta.spec_mul(cos_theta)).spec_sqrt();
    assert(sin_theta.raw == 0);
    assert(!m.cannot_refract(unit, normal, h_rec.front_face));
    assert(unit.spec_add(normal.spec_scale(cos_theta)) == Vec3::spec_zero());
    let perp = unit.spec_refract_perp(normal, ratio);
    assert(perp == Vec3::spec_zero());
    assert(perp.spec_mag_squared().raw == 0);
    let along = one.spec_sub(perp.spec_mag_squared()).spec_abs().spec_sqrt();
    assert(along == one);
    assert(normal.spec_scale(along.spec_neg()) == unit);
    assert(unit.spec_refract(normal, ratio) == unit);
}

/// A product with a factor just below one: for `|a| <= 1` and a factor
/// within nine billionths below one, the product has the sign of `a` and
/// falls short of `a` by at most ten billionths.
proof fn lemma_product_near(a: int, c: int)
    requires
        -SCALE <= a <= SCALE,
        SCALE - 9 <= c <= SCALE,
    ensures
        a >= 0 ==> a - 10 <= crate::scalar::product(a, c) <= a,
        a <= 0 ==> a <= crate::scalar::product(a, c) <= a + 10,
{
    let m = crate::scalar::magnitude(a);
    let n = m * c;
    assert(m * 1_000_000_000 - 9 * m <= n <= m * 1_000_000_000) by (nonlinear_arith)
        requires
            n == m * c,
            0 <= m,
            1_000_000_000 - 9 <= c <= 1_000_000_000,
    ;
    assert(crate::scalar::magnitude(a * c) == n) by (nonlinear_arith)
        requires
            n == m * c,
            m == a || m == -a,
            m >= 0,
            c >= 0,
            crate::scalar::magnitude(a * c) == a * c || crate::scalar::magnitude(a * c) == -(a
                * c),
            crate::scalar::magnitude(a * c) >= 0,
    ;
    assert((a >= 0 ==> a * c >= 0) && (a <= 0 ==> a * c <= 0)) by (nonlinear_arith)
        requires
            c >= 0,
    ;
    let q = n / 1_000_000_000;
    assert(m - 10 <= q <= m);
}

/// A product of a few billionths with a ratio: at most ten billionths for
/// each unit of the ratio.
proof fn lemma_product_small(w: int, r: int)
    requires
        -10 <= w <= 10,
        -3000 * SCALE <= r <= 3000 * SCALE,
    ensures
        -30_000 <= crate::scalar::product(w, r) <= 30_000,
        -10 * crate::scalar::magnitude(r) <= SCALE * crate::scalar::product(w, r) <= 10
            * crate::scalar::magnitude(r),
{
    let n = w * r;
    let size = crate::scalar::magnitude(r);
    assert(crate::scalar::magnitude(n) <= 10 * size) by (nonlinear_arith)
        requires
            n == w * r,
            -10 <= w <= 10,
            size == crate::scalar::magnitude(r),
            size == r || size == -r,
            size >= 0,
            crate::scalar::magnitude(n) == n || crate::scalar::magnitude(n) == -n,
            crate::scalar::magnitude(n) >= 0,
    ;
    let q = crate::scalar::magnitude(n) / 1_000_000_000;
    assert(q <= 30_000);
    assert(1_000_000_000 * q <= crate::scalar::magnitude(n));
}

/// The square of at most thirty millionths cannot be told from zero.
proof fn lemma_square_vanishes(p: int)
    requires
        -30_000 <= p <= 30_000,
    ensures
        crate::scalar::product(p, p) == 0,
{
    let n = p * p;
    assert(0 <= n <= 900_000_000) by (nonlinear_arith)
        requires
            n == p * p,
            -30_000 <= p <= 30_000,
    ;
    assert(crate::scalar::magnitude(n) / 1_000_000_000 == 0);
}

/// The squared length of a vector whose length is one within three
/// billionths is one within nine billionths below and two above, and no
/// component of it exceeds one.
proof fn lemma_squared_length_of_unit(u: Vec3)
    requires
        SCALE - 3 <= u.spec_mag().raw <= SCALE,
    ensures
        SCALE - 9 <= u.spec_mag_squared().raw <= SCALE + 2,
        -SCALE <= u.x.raw <= SCALE,
        -SCALE <= u.y.raw <= SCALE,
        -SCALE <= u.z.raw <= SCALE,
{
    let x = u.x@;
    let y = u.y@;
    let z = u.z@;
    let xx = x * x;
    let yy = y * y;
    let zz = z * z;
    let s = xx + yy + zz;
    assert(0 <= xx && 0 <= yy && 0 <= zz) by (nonlinear_arith)
        requires
            xx == x * x,
            yy == y * y,
            zz == z * z,
    ;
    crate::scalar::lemma_floor_sqrt_exists(s);
    let g = crate::scalar::floor_sqrt(s);
    assert(g == u.spec_mag().raw);
    assert(999_999_997int * 999_999_997int <= g * g) by (nonlinear_arith)
        requires
            999_999_997 <= g,
    ;
    assert((g + 1) * (g + 1) <= 1_000_000_001int * 1_000_000_001int) by (nonlinear_arith)
        requires
            0 <= g <= 1_000_000_000,
    ;
    assert(999_999_997int * 999_999_997int == 999_999_994_000_000_009int);
    assert(1_000_000_001int * 1_000_000_001int == 1_000_000_002_000_000_001int);
    assert(-1_000_000_000 <= x <= 1_000_000_000) by (nonlinear_arith)
        requires
            0 <= x * x < 1_000_000_002_000_000_001,
    ;
    assert(-1_000_000_000 <= y <= 1_000_000_000) by (nonlinear_arith)
        requires
            0 <= y * y < 1_000_000_002_000_000_001,
    ;
    assert(-1_000_000_000 <= z <= 1_000_000_000) by (nonlinear_arith)
        requires
            0 <= z * z < 1_000_000_002_000_000_001,
    ;
    assert(crate::scalar::product(x, x) == xx / 1_000_000_000);
    assert(crate::scalar::product(y, y) == yy / 1_000_000_000);
    assert(crate::scalar::product(z, z) == zz / 1_000_000_000);
}

/// Glass lets a ray pass that meets it along the normal: where the normal
/// is the opposite of the direction `unit` of the ray, the ray is scattered
/// with all its light, from the point of the hit, and no component of its
/// direction differs from that of `unit` by more than ten billionths for each
/// unit of the ratio of the refractive indices. The ratio is at most three
/// thousand: beyond, the rounding of the sine can decide for a reflection.
pub proof fn lemma_normal_incidence_passes(
    m: Dielectric,
    ray_in: Ray,
    h_rec: hit::Record,
    sample: Vec3,
    unit: Vec3,
)
    requires
        ray_in.direction.spec_unit() == Ok::<Vec3, crate::error::Error>(unit),
        h_rec.normal == unit.spec_neg(),
        -3000 * SCALE <= m.spec_ratio(h_rec.front_face).raw <= 3000 * SCALE,
    ensures
        m.scatter_spec(ray_in, h_rec, sample) matches Some(rec) && rec.attenuation
            == Color::spec_white() && rec.scattered.origin == h_rec.p && ({
            let size = crate::scalar::magnitude(m.spec_ratio(h_rec.front_face)@);
            let out = rec.scattered.direction;
            &&& -10 * size <= SCALE * (out.x.raw - unit.x.raw) <= 10 * size
            &&& -10 * size <= SCALE * (out.y.raw - unit.y.raw) <= 10 * size
            &&& -10 * size <= SCALE * (out.z.raw - unit.z.raw) <= 10 * size
        }),
{
    let one = Fixed { raw: SCALE };
    let normal = h_rec.normal;
    let ratio = m.spec_ratio(h_rec.front_face);
    crate::vec3::lemma_unit_has_length_one(ray_in.direction);
    lemma_squared_length_of_unit(unit);
    crate::vec3::lemma_dot_neg(unit, unit);
    // The cosine is one within nine billionths.
    let cos_theta = one.spec_min(unit.spec_dot(normal).spec_neg());
    assert(unit.spec_dot(normal) == unit.spec_mag_squared().spec_neg());
    assert(SCALE - 9 <= cos_theta.raw <= SCALE);
    let c = cos_theta.raw as int;
    // The sine is small, and the ray is refracted.
    let cc = c * c;
    assert(999_999_982_000_000_000 <= cc <= 1_000_000_000_000_000_000) by (nonlinear_arith)
        requires
            cc == c * c,
            999_999_991 <= c <= 1_000_000_000,
    ;
    assert(999_999_982 <= cc / 1_000_000_000 <= 1_000_000_000);
    assert(crate::scalar::product(c, c) == cc / 1_000_000_000);
    assert(SCALE - 18 <= cos_theta.spec_mul(cos_theta).raw <= SCALE);
    let rest = one.spec_sub(cos_theta.spec_mul(cos_theta));
    assert(0 <= rest.raw <= 18);
    crate::scalar::lemma_sqrt_fits(rest);
    let sin_theta = rest.spec_sqrt();
    let sn = sin_theta.raw as int;
    crate::scalar::lemma_floor_sqrt_exists(rest.raw * SCALE);
    assert(sn <= 134_164) by (nonlinear_arith)
        requires
            0 <= sn,
            sn * sn <= 18_000_000_000,
    ;
    let rs = ratio.raw * sn;
    assert(-402_492_000_000_000_000 <= rs <= 402_492_000_000_000_000) by (nonlinear_arith)
        requires
            rs == ratio.raw * sn,
            -3_000_000_000_000 <= ratio.raw <= 3_000_000_000_000,
            0 <= sn <= 134_164,
    ;
    assert(crate::scalar::magnitude(rs) / 1_000_000_000 <= 402_492_000);
    assert(ratio.spec_mul(sin_theta).raw <= SCALE);
    assert(!m.cannot_refract(unit, normal, h_rec.front_face));
    // Across the surface next to nothing is left of the direction.
    lemma_product_near(normal.x@, c);
    lemma_product_near(normal.y@, c);
    lemma_product_near(normal.z@, c);
    let across = unit.spec_add(normal.spec_scale(cos_theta));
    assert(-10 <= across.x.raw <= 10 && -10 <= across.y.raw <= 10 && -10 <= across.z.raw <= 10);
    lemma_product_small(across.x@, ratio@);
    lemma_product_small(across.y@, ratio@);
    lemma_product_small(across.z@, ratio@);
    let perp = unit.spec_refract_perp(normal, ratio);
    assert(perp == across.spec_scale(ratio));
    assert(-30_000 <= perp.x.raw <= 30_000 && -30_000 <= perp.y.raw <= 30_000 && -30_000
        <= perp.z.raw <= 30_000);
    lemma_square_vanishes(perp.x@);
    lemma_square_vanishes(perp.y@);
    lemma_square_vanishes(perp.z@);
    assert(perp.spec_mag_squared().raw == 0);
    // Along the normal the whole length is kept.
    assert(crate::scalar::is_floor_sqrt(SCALE * SCALE, SCALE as int)) by (nonlinear_arith);
    crate::scalar::lemma_floor_sqrt_unique(SCALE * SCALE, SCALE as int);
    let along = one.spec_sub(perp.spec_mag_squared()).spec_abs().spec_sqrt();
    assert(along == one);
    crate::scalar::lemma_product_unit(normal.x@);
    crate::scalar::lemma_product_unit(normal.y@);
    crate::scalar::lemma_product_unit(normal.z@);
    crate::vec3::lemma_product_neg(normal.x@, SCALE as int);
    crate::vec3::lemma_product_neg(normal.y@, SCALE as int);
    crate::vec3::lemma_product_neg(normal.z@, SCALE as int);
    assert(normal.spec_scale(along.spec_neg()) == unit);
    let out = unit.spec_refract(normal, ratio);
    assert(out == perp.spec_add(unit));
}

/// Any of the materials, so that one scene can hold them all. It answers a
/// ray as the material that it holds does, and is a [`Material`] itself.
#[derive(Clone, Copy, Debug, PartialEq, Eq, Structural)]
pub enum Surface {
    Blank(Blank),
    Lambertian(Lambertian),
    Metal(Metal),
    Dielectric(Dielectric),
}

impl Surface {
    /// The answer for the random vector `sample`.
    pub open spec fn scatter_spec(&self, ray_in: Ray, h_rec: hit::Record, sample: Vec3) -> Option<
        Record,
    > {
        match self {
            Surface::Blank(m) => m.answer_spec(ray_in, h_rec, sample),
            Surface::Lambertian(m) => m.answer_spec(ray_in, h_rec, sample),
            Surface::Metal(m) => m.answer_spec(ray_in, h_rec, sample),
            Surface::Dielectric(m) => m.answer_spec(ray_in, h_rec, sample),
        }
    }

    /// The answer for the random vector `sample`.
    pub fn scatter_with(&self, ray_in: &Ray, h_rec: &hit::Record, sample: &Vec3) -> (r: Option<
        Record,
    >)
        ensures
            r == self.scatter_spec(*ray_in, *h_rec, *sample),
    {
        match self {
            Surface::Blank(m) => m.answer_with(ray_in, h_rec, sample),
            Surface::Lambertian(m) => m.answer_with(ray_in, h_rec, sample),
            Surface::Metal(m) => m.answer_with(ray_in, h_rec, sample),
            Surface::Dielectric(m) => m.answer_with(ray_in, h_rec, sample),
        }
    }

    /// Whether `r` is an answer of this material for some vector of the unit ball.
    pub open spec fn possible(self, ray_in: Ray, h_rec: hit::Record, r: Option<Record>) -> bool {
        exists|sample: Vec3|
            sample.in_unit_ball() && r == #[trigger] self.scatter_spec(ray_in, h_rec, sample)
    }

    /// The answer for a random vector that is drawn here.
    pub fn scatter(&self, ray_in: &Ray, h_rec: &hit::Record) -> (r: Option<Record>)
        ensures
            exists|sample: Vec3|
                sample.in_unit_ball() && r == #[trigger] self.scatter_spec(
                    *ray_in,
                    *h_rec,
                    sample,
                ),
    {
        match self {
            Surface::Blank(m) => m.answer(ray_in, h_rec),
            Surface::Lambertian(m) => m.answer(ray_in, h_rec),
            Surface::Metal(m) => m.answer(ray_in, h_rec),
            Surface::Dielectric(m) => m.answer(ray_in, h_rec),
        }
    }
}

impl Material for Surface {
    open spec fn scatter_spec(&self, ray_in: Ray, h_rec: hit::Record, sample: Vec3) -> Option<
        Record,
    > {
        Surface::scatter_spec(self, ray_in, h_rec, sample)
    }

    fn scatter_with(&self, ray_in: &Ray, h_rec: &hit::Record, sample: &Vec3) -> (r: Option<Record>) {
        Surface::scatter_with(self, ray_in, h_rec, sample)
    }

    fn scatter(&self, ray_in: &Ray, h_rec: &hit::Record) -> (r: Option<Record>) {
        let r = Surface::scatter(self, ray_in, h_rec);
        proof {
            let sample = choose|sample: Vec3|
                sample.in_unit_ball() && r == #[trigger] Surface::scatter_spec(
                    self,
                    *ray_in,
                    *h_rec,
                    sample,
                );
            assert(Material::scatter_spec(self, *ray_in, *h_rec, sample) == r);
        }
        r
    }
}

} // verus!
