//! A scene for demonstrations: a ground, a field of small random spheres and
//! three large ones.
use crate::color::Color;
use crate::hit::HittableObjects;
use crate::material::{Dielectric, Lambertian, Metal, Surface};
use crate::point3::Point3;
use crate::random;
use crate::scalar::{Fixed, SCALE};
use crate::sphere::Sphere;
use std::rc::Rc;
use vstd::prelude::*;

verus! {

/// Radius of a small sphere, `0.2`.
pub const SMALL_RADIUS: i64 = 200_000_000;

/// How far a small sphere may stray from its cell's corner, `0.9`.
pub const SPREAD: i64 = 900_000_000;

/// The cells run from `-GRID` to `GRID - 1` along both axes of the ground.
pub const GRID: i32 = 11;

/// Refractive index of glass, `1.5`.
pub const GLASS: i64 = 1_500_000_000;

/// The kind of material that a small sphere gets.
#[derive(Clone, Copy, Debug, PartialEq, Eq, Structural)]
pub enum Choice {
    Diffuse,
    Metal,
    Glass,
}

/// The kind of material for a number drawn from `[0, 1)`: diffuse below
/// `0.8`, metal below `0.95`, glass above.
pub open spec fn spec_choice(choose_mat: Fixed) -> Choice {
    if choose_mat.raw < 800_000_000 {
        Choice::Diffuse
    } else if choose_mat.raw < 950_000_000 {
        Choice::Metal
    } else {
        Choice::Glass
    }
}

/// The centre of the small sphere of cell `(a, b)` for two numbers drawn
/// from `[0, 1)`.
pub open spec fn spec_center(a: i32, b: i32, jx: Fixed, jz: Fixed) -> Point3 {
    Point3 {
        x: Fixed::spec_from_int(a as int).spec_add(Fixed { raw: SPREAD }.spec_mul(jx)),
        y: Fixed { raw: SMALL_RADIUS },
        z: Fixed::spec_from_int(b as int).spec_add(Fixed { raw: SPREAD }.spec_mul(jz)),
    }
}

/// The place that is kept free for the third large sphere.
pub open spec fn spec_reserved() -> Point3 {
    Point3 { x: Fixed { raw: 4_000_000_000 }, y: Fixed { raw: SMALL_RADIUS }, z: Fixed { raw: 0 } }
}

/// Whether a small sphere around `center` keeps clear of the reserved place:
/// farther than `0.9` from it.
pub open spec fn spec_is_clear(center: Point3) -> bool {
    center.spec_sub(spec_reserved()).spec_mag().raw > SPREAD
}

/// The centre of the small sphere of cell `(a, b)`, unless it comes too near
/// to the reserved place.
pub open spec fn spec_place(a: i32, b: i32, jx: Fixed, jz: Fixed) -> Option<Point3> {
    if spec_is_clear(spec_center(a, b, jx, jz)) {
        Some(spec_center(a, b, jx, jz))
    } else {
        None
    }
}

/// Whether `mat` is a material that a small sphere can get: diffuse with
/// each channel in `[0, 1)`, metal with each channel in `[0.5, 1)` and a blur
/// in `[0, 0.5)`, or glass.
pub open spec fn is_small_material(mat: Surface) -> bool {
    match mat {
        Surface::Blank(_) => false,
        Surface::Lambertian(m) => m.albedo.within(Fixed { raw: 0 }, Fixed { raw: SCALE }),
        Surface::Metal(m) => m.albedo.within(Fixed { raw: 500_000_000 }, Fixed { raw: SCALE })
            && 0 <= m.fuzz.raw < 500_000_000,
        Surface::Dielectric(m) => m.ir.raw == GLASS,
    }
}

/// Whether `mat` is a material that a small sphere of the kind `kind` can
/// get: diffuse with the product of two colours of `[0, 1)` as its albedo;
/// metal with each channel in `[0.5, 1)` and a blur in `[0, 0.5)`; glass of
/// refractive index `1.5`.
pub open spec fn is_material_of(kind: Choice, mat: Surface) -> bool {
    match kind {
        Choice::Diffuse => mat matches Surface::Lambertian(m) && exists|first: Color, second: Color|
            {
                &&& first.within(Fixed { raw: 0 }, Fixed { raw: SCALE })
                &&& second.within(Fixed { raw: 0 }, Fixed { raw: SCALE })
                &&& m.albedo == #[trigger] first.spec_mul(second)
            },
        Choice::Metal => mat matches Surface::Metal(m) && m.albedo.within(
            Fixed { raw: 500_000_000 },
            Fixed { raw: SCALE },
        ) && 0 <= m.fuzz.raw < 500_000_000,
        Choice::Glass => mat == spec_middle(),
    }
}

/// Whether the small sphere of cell `(a, b)` keeps clear of the reserved
/// place wherever it falls within its cell: the cells that lie at least one
/// unit from the reserved place along either axis.
pub open spec fn spec_always_clear(a: i32, b: i32) -> bool {
    a <= 2 || a >= 5 || b <= -2 || b >= 1
}

/// How many of the cells before cell `(a, b)`, in the order in which the
/// scene goes through them, are not always clear of the reserved place.
pub open spec fn spec_doubtful_before(a: int, b: int) -> int {
    let rows = if a <= 3 {
        0int
    } else if a == 4 {
        2int
    } else {
        4int
    };
    let cells = if a == 3 || a == 4 {
        if b <= -1 {
            0int
        } else if b == 0 {
            1int
        } else {
            2int
        }
    } else {
        0int
    };
    rows + cells
}

/// Whether `r` is what cell `(a, b)` gets for the three numbers drawn from
/// `[0, 1)`: nothing where the centre comes too near to the reserved place,
/// else the sphere of radius `0.2` around it, of a material of the kind that
/// `choose_mat` picks.
pub open spec fn possible_sphere(
    a: i32,
    b: i32,
    choose_mat: Fixed,
    jx: Fixed,
    jz: Fixed,
    r: Option<Sphere>,
) -> bool {
    match spec_place(a, b, jx, jz) {
        None => r is None,
        Some(center) => r matches Some(s) && s.center == center && s.radius.raw == SMALL_RADIUS
            && is_material_of(spec_choice(choose_mat), *s.mat),
    }
}

/// Whether `s` is a small sphere as the scene scatters them: of radius
/// `0.2`, resting on the ground inside the grid, clear of the reserved place.
pub open spec fn is_small_sphere(s: Sphere) -> bool {
    &&& s.radius.raw == SMALL_RADIUS
    &&& s.center.y.raw == SMALL_RADIUS
    &&& -GRID * SCALE <= s.center.x.raw < GRID * SCALE
    &&& -GRID * SCALE <= s.center.z.raw < GRID * SCALE
    &&& spec_is_clear(s.center)
    &&& is_small_material(*s.mat)
}

/// Whether `s` is the sphere around `(x, y, z)`, in whole numbers, of whole
/// radius `radius` and material `mat`.
pub open spec fn is_sphere(s: Sphere, x: int, y: int, z: int, radius: int, mat: Surface) -> bool {
    &&& s.center == Point3 {
        x: Fixed::spec_from_int(x),
        y: Fixed::spec_from_int(y),
        z: Fixed::spec_from_int(z),
    }
    &&& s.radius == Fixed::spec_from_int(radius)
    &&& *s.mat == mat
}

/// The ground's material: grey and diffuse.
pub open spec fn spec_ground() -> Surface {
    Surface::Lambertian(
        Lambertian {
            albedo: Color {
                r: Fixed { raw: 500_000_000 },
                g: Fixed { raw: 500_000_000 },
                b: Fixed { raw: 500_000_000 },
            },
        },
    )
}

/// The material of the large sphere in the middle: glass.
pub open spec fn spec_middle() -> Surface {
    Surface::Dielectric(Dielectric { ir: Fixed { raw: GLASS } })
}

/// The material of the large sphere behind: brown and diffuse.
pub open spec fn spec_behind() -> Surface {
    Surface::Lambertian(
        Lambertian {
            albedo: Color {
                r: Fixed { raw: 400_000_000 },
                g: Fixed { raw: 200_000_000 },
                b: Fixed { raw: 100_000_000 },
            },
        },
    )
}

/// The material of the large sphere in front: a clean mirror.
pub open spec fn spec_front() -> Surface {
    Surface::Metal(
        Metal {
            albedo: Color {
                r: Fixed { raw: 700_000_000 },
                g: Fixed { raw: 600_000_000 },
                b: Fixed { raw: 500_000_000 },
            },
            fuzz: Fixed { raw: 0 },
        },
    )
}

/// The kind of material for a number drawn from `[0, 1)`.
pub fn choice(choose_mat: Fixed) -> (r: Choice)
    ensures
        r == spec_choice(choose_mat),
{
    if choose_mat.raw < 800_000_000 {
        Choice::Diffuse
    } else if choose_mat.raw < 950_000_000 {
        Choice::Metal
    } else {
        Choice::Glass
    }
}

/// The centre of the small sphere of cell `(a, b)` for two numbers drawn
/// from `[0, 1)`, unless it comes too near to the reserved place.
pub fn place(a: i32, b: i32, jx: Fixed, jz: Fixed) -> (r: Option<Point3>)
    ensures
        r == spec_place(a, b, jx, jz),
{
    let center = Point3::new(
        Fixed::from_int(a) + Fixed::from_raw(SPREAD) * jx,
        Fixed::from_raw(SMALL_RADIUS),
        Fixed::from_int(b) + Fixed::from_raw(SPREAD) * jz,
    );
    let reserved = Point3::new(Fixed::from_int(4), Fixed::from_raw(SMALL_RADIUS), Fixed::zero());
    if (center - reserved).mag().raw > SPREAD {
        Some(center)
    } else {
        None
    }
}

/// A product of two numbers of `[0, 1)` lies in `[0, 1)`, and a jitter of
/// `0.9` times a number of `[0, 1)` stays below `0.9`.
proof fn lemma_unit_products(x: Fixed, y: Fixed)
    requires
        0 <= x.raw < SCALE,
        0 <= y.raw < SCALE,
    ensures
        0 <= x.spec_mul(y).raw < SCALE,
        0 <= (Fixed { raw: SPREAD }).spec_mul(x).raw < SPREAD,
{
    let a = x.raw as int;
    let b = y.raw as int;
    assert(0 <= a * b < 1_000_000_000 * 1_000_000_000) by (nonlinear_arith)
        requires
            0 <= a < 1_000_000_000,
            0 <= b < 1_000_000_000,
    ;
    assert((a * b) / 1_000_000_000 < 1_000_000_000);
    assert(0 <= 900_000_000 * a < 900_000_000 * 1_000_000_000);
    assert((900_000_000 * a) / 1_000_000_000 < 900_000_000);
}

/// In a cell that lies at least one unit from the reserved place along
/// either axis, the small sphere keeps clear of it wherever it falls.
proof fn lemma_far_cell_is_clear(a: i32, b: i32, jx: Fixed, jz: Fixed)
    requires
        -GRID <= a < GRID,
        -GRID <= b < GRID,
        0 <= jx.raw < SCALE,
        0 <= jz.raw < SCALE,
        spec_always_clear(a, b),
    ensures
        spec_is_clear(spec_center(a, b, jx, jz)),
{
    lemma_unit_products(jx, jz);
    lemma_unit_products(jz, jx);
    let k: int = 1_000_000_000;
    let center = spec_center(a, b, jx, jz);
    assert(a * k <= center.x.raw < a * k + 900_000_000);
    assert(b * k <= center.z.raw < b * k + 900_000_000);
    let d = center.spec_sub(spec_reserved());
    let dx = d.x@;
    let dy = d.y@;
    let dz = d.z@;
    assert(dx == center.x.raw - 4 * k);
    assert(dy == 0);
    assert(dz == center.z.raw);
    assert(dx <= -k || dx >= k || dz <= -k || dz >= k);
    let s = dx * dx + dy * dy + dz * dz;
    assert(s >= k * k) by (nonlinear_arith)
        requires
            dx <= -k || dx >= k || dz <= -k || dz >= k,
            dy == 0,
            s == dx * dx + dy * dy + dz * dz,
            k > 0,
    ;
    crate::scalar::lemma_floor_sqrt_exists(s);
    let m = crate::scalar::floor_sqrt(s);
    assert(m >= k) by (nonlinear_arith)
        requires
            s < (m + 1) * (m + 1),
            s >= k * k,
            0 <= m,
            0 < k,
    ;
}

/// A random material for a small sphere of the given kind.
fn rand_material(kind: Choice) -> (r: Surface)
    ensures
        is_material_of(kind, r),
        is_small_material(r),
{
    match kind {
        Choice::Diffuse => {
            let first = Color::rand();
            let second = Color::rand();
            proof {
                lemma_unit_products(first.r, second.r);
                lemma_unit_products(first.g, second.g);
                lemma_unit_products(first.b, second.b);
            }
            let albedo = first * second;
            proof {
                assert(albedo == first.spec_mul(second));
            }
            Surface::Lambertian(Lambertian::new(&albedo))
        },
        Choice::Metal => {
            let albedo = Color::rand_in(Fixed::from_raw(500_000_000), Fixed::one());
            let fuzz = random::uniform(Fixed::zero(), Fixed::from_raw(500_000_000));
            Surface::Metal(Metal::new(&albedo, fuzz))
        },
        Choice::Glass => Surface::Dielectric(Dielectric::new(Fixed::from_raw(GLASS))),
    }
}

/// The small sphere of cell `(a, b)`: three numbers are drawn from `[0, 1)`,
/// one for the kind of material and two for the place within the cell. There
/// is none if the centre fell too near to the reserved place, which cannot
/// happen in a cell that is always clear of it.
fn rand_sphere(a: i32, b: i32) -> (r: Option<Sphere>)
    requires
        -GRID <= a < GRID,
        -GRID <= b < GRID,
    ensures
        exists|choose_mat: Fixed, jx: Fixed, jz: Fixed|
            {
                &&& 0 <= choose_mat.raw < SCALE
                &&& 0 <= jx.raw < SCALE
                &&& 0 <= jz.raw < SCALE
                &&& #[trigger] possible_sphere(a, b, choose_mat, jx, jz, r)
            },
        spec_always_clear(a, b) ==> r is Some,
        r matches Some(s) ==> is_small_sphere(s),
{
    let choose_mat = random::unit_interval();
    let jx = random::unit_interval();
    let jz = random::unit_interval();
    proof {
        lemma_unit_products(jx, jz);
        lemma_unit_products(jz, jx);
        if spec_always_clear(a, b) {
            lemma_far_cell_is_clear(a, b, jx, jz);
        }
    }
    let r = match place(a, b, jx, jz) {
        None => None,
        Some(center) => {
            let mat = rand_material(choice(choose_mat));
            Some(Sphere { center, radius: Fixed::from_raw(SMALL_RADIUS), mat: Rc::new(mat) })
        },
    };
    proof {
        assert(possible_sphere(a, b, choose_mat, jx, jz, r));
    }
    r
}

/// A sphere around a point of whole coordinates, of whole positive radius.
fn large_sphere(x: i32, y: i32, z: i32, radius: i32, mat: Surface) -> (s: Sphere)
    requires
        radius > 0,
    ensures
        is_sphere(s, x as int, y as int, z as int, radius as int, mat),
        s.wf(),
{
    Sphere {
        center: Point3::new(Fixed::from_int(x), Fixed::from_int(y), Fixed::from_int(z)),
        radius: Fixed::from_int(radius),
        mat: Rc::new(mat),
    }
}

/// The scene: first the ground, a sphere of radius `1000` below the origin;
/// then one small random sphere for each cell of the grid, but perhaps for
/// the four cells around the reserved place; at last three spheres of radius
/// `1`, of glass, diffuse and mirror, in a row.
pub fn random_scene() -> (world: HittableObjects<Sphere>)
    ensures
        4 * GRID * GRID <= world.objects@.len() <= 4 + 4 * GRID * GRID,
        is_sphere(world.objects@[0], 0, -1000, 0, 1000, spec_ground()),
        forall|i: int|
            1 <= i < world.objects@.len() - 3 ==> is_small_sphere(#[trigger] world.objects@[i]),
        is_sphere(world.objects@[world.objects@.len() - 3], 0, 1, 0, 1, spec_middle()),
        is_sphere(world.objects@[world.objects@.len() - 2], -4, 1, 0, 1, spec_behind()),
        is_sphere(world.objects@[world.objects@.len() - 1], 4, 1, 0, 1, spec_front()),
        forall|i: int| 0 <= i < world.objects@.len() ==> (#[trigger] world.objects@[i]).wf(),
{
    let mut world: HittableObjects<Sphere> = HittableObjects::new();
    let grey = Fixed::from_raw(500_000_000);
    world.add(
        large_sphere(0, -1000, 0, 1000, Surface::Lambertian(Lambertian::new(&Color::new(grey, grey, grey)))),
    );

    let mut a: i32 = -GRID;
    while a < GRID
        invariant
            -GRID <= a <= GRID,
            1 <= world.objects@.len() <= 1 + (a + GRID) * 2 * GRID,
            world.objects@.len() >= 1 + (a + GRID) * 2 * GRID - spec_doubtful_before(
                a as int,
                -GRID as int,
            ),
            is_sphere(world.objects@[0], 0, -1000, 0, 1000, spec_ground()),
            forall|i: int|
                1 <= i < world.objects@.len() ==> is_small_sphere(#[trigger] world.objects@[i]),
            forall|i: int| 0 <= i < world.objects@.len() ==> (#[trigger] world.objects@[i]).wf(),
        decreases GRID - a,
    {
        let mut b: i32 = -GRID;
        while b < GRID
            invariant
                -GRID <= a < GRID,
                -GRID <= b <= GRID,
                1 <= world.objects@.len() <= 1 + (a + GRID) * 2 * GRID + (b + GRID),
                world.objects@.len() >= 1 + (a + GRID) * 2 * GRID + (b + GRID)
                    - spec_doubtful_before(a as int, b as int),
                is_sphere(world.objects@[0], 0, -1000, 0, 1000, spec_ground()),
                forall|i: int|
                    1 <= i < world.objects@.len() ==> is_small_sphere(#[trigger] world.objects@[i]),
                forall|i: int| 0 <= i < world.objects@.len() ==> (#[trigger] world.objects@[i]).wf(),
            decreases GRID - b,
        {
            match rand_sphere(a, b) {
                Some(s) => world.add(s),
                None => {},
            }
            b = b + 1;
        }
        a = a + 1;
    }

    world.add(large_sphere(0, 1, 0, 1, Surface::Dielectric(Dielectric::new(Fixed::from_raw(GLASS)))));
    world.add(
        large_sphere(
            -4,
            1,
            0,
            1,
            Surface::Lambertian(
                Lambertian::new(
                    &Color::new(
                        Fixed::from_raw(400_000_000),
                        Fixed::from_raw(200_000_000),
                        Fixed::from_raw(100_000_000),
                    ),
                ),
            ),
        ),
    );
    world.add(
        large_sphere(
            4,
            1,
            0,
            1,
            Surface::Metal(
                Metal::new(
                    &Color::new(
                        Fixed::from_raw(700_000_000),
                        Fixed::from_raw(600_000_000),
                        Fixed::from_raw(500_000_000),
                    ),
                    Fixed::zero(),
                ),
            ),
        ),
    );
    world
}

} // verus!
