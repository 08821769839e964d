//! The radiance that arrives along a ray, and the sampling of pixels.
use crate::camera::Camera;
use crate::color::Color;
use crate::error::Error;
use crate::hit::{nearest, Hittable, HittableObjects};
use crate::material;
use crate::random;
use crate::ray::Ray;
use crate::scalar::{Fixed, RAW_MAX, SCALE};
use crate::vec3::Vec3;
use vstd::prelude::*;

verus! {

/// The nearest ray parameter at which a hit counts, `0.001`: nearer hits are
/// the surface that the ray has just left.
pub const T_MIN: i64 = 1_000_000;

/// One half, in raw units.
pub const HALF: i64 = 500_000_000;

/// The colour of the sky at the zenith.
pub open spec fn spec_sky() -> Color {
    Color { r: Fixed { raw: 500_000_000 }, g: Fixed { raw: 700_000_000 }, b: Fixed { raw: SCALE } }
}

/// What a ray sees that hits nothing: white at the horizon blending into
/// the sky's blue toward the zenith, by the height `y` of its direction with
/// `t = (y + 1) / 2`. A ray without direction is a fault.
pub open spec fn spec_background(ray: Ray) -> Result<Color, Error> {
    match ray.direction.spec_unit() {
        Err(e) => Err(e),
        Ok(unit) => {
            let t = Fixed { raw: HALF }.spec_mul(unit.y.spec_add(Fixed { raw: SCALE }));
            Ok(
                Color::spec_white().spec_scale(Fixed { raw: SCALE }.spec_sub(t)).spec_add(
                    spec_sky().spec_scale(t),
                ),
            )
        },
    }
}

/// The light that a surface passes on: none if it absorbed the ray, else
/// what arrives along the scattered ray, attenuated; a fault on the way is
/// handed on.
pub open spec fn spec_passed_on(
    answer: Option<material::Record>,
    inner: Result<Color, Error>,
) -> Result<Color, Error> {
    match answer {
        None => Ok(Color::spec_black()),
        Some(scatter) => match inner {
            Ok(c) => Ok(scatter.attenuation.spec_mul(c)),
            Err(e) => Err(e),
        },
    }
}

/// Whether `seen` can be the radiance that is estimated along `ray` with
/// `depth` bounces left: black without bounces; the fault of a degenerate
/// vector for a ray without direction; the background where the ray hits
/// nothing beyond `T_MIN`; else what the material at the nearest hit passes
/// on, for some random vector, of a possible radiance along the scattered ray
/// with one bounce less.
pub open spec fn possible_radiance<H: Hittable>(
    objects: Seq<H>,
    ray: Ray,
    depth: nat,
    seen: Result<Color, Error>,
) -> bool
    decreases depth,
{
    if depth == 0 {
        seen == Ok::<Color, Error>(Color::spec_black())
    } else if ray.direction == Vec3::spec_zero() {
        seen == Err::<Color, Error>(Error::DegenerateVector)
    } else {
        match nearest(objects, ray, Fixed { raw: T_MIN }, Fixed { raw: RAW_MAX }) {
            None => seen == spec_background(ray),
            Some(rec) => exists|sample: Vec3, inner: Result<Color, Error>|
                {
                    &&& sample.in_unit_ball()
                    &&& seen == #[trigger] spec_passed_on(
                        rec.mat.scatter_spec(ray, rec, sample),
                        inner,
                    )
                    &&& rec.mat.scatter_spec(ray, rec, sample) matches Some(scatter)
                        ==> possible_radiance(objects, scatter.scattered, (depth - 1) as nat, inner)
                },
        }
    }
}

/// What a ray sees that hits nothing. A ray without direction is refused.
pub fn background(ray: &Ray) -> (r: Result<Color, Error>)
    ensures
        r == spec_background(*ray),
        r is Err <==> ray.direction == Vec3::spec_zero(),
{
    match ray.direction.unit() {
        Err(e) => Err(e),
        Ok(unit) => {
            let t = Fixed::from_raw(HALF) * (unit.y + Fixed::one());
            Ok(
                (Fixed::one() - t) * Color::new(Fixed::one(), Fixed::one(), Fixed::one()) + t
                    * Color::new(
                    Fixed::from_raw(500_000_000),
                    Fixed::from_raw(700_000_000),
                    Fixed::one(),
                ),
            )
        },
    }
}

/// An estimate of the radiance that arrives along `ray`, following it for
/// at most `depth` bounces. A ray without direction, be it the given one or
/// one that a surface scattered, is refused before any material is asked.
pub fn ray_color<H: Hittable>(ray: &Ray, world: &HittableObjects<H>, depth: u32) -> (r: Result<
    Color,
    Error,
>)
    ensures
        possible_radiance(world.objects@, *ray, depth as nat, r),
        depth == 0 ==> r == Ok::<Color, Error>(Color::spec_black()),
        r matches Err(e) ==> e == Error::DegenerateVector,
    decreases depth,
{
    if depth == 0 {
        return Ok(Color::default());
    }
    if ray.direction.x.raw == 0 && ray.direction.y.raw == 0 && ray.direction.z.raw == 0 {
        return Err(Error::DegenerateVector);
    }
    match world.hit(ray, Fixed::from_raw(T_MIN), Fixed::max_value()) {
        None => background(ray),
        Some(h_rec) => {
            let answer = h_rec.mat.scatter(ray, &h_rec);
            let ghost sample = choose|sample: Vec3|
                sample.in_unit_ball() && answer == #[trigger] h_rec.mat.scatter_spec(
                    *ray,
                    h_rec,
                    sample,
                );
            match answer {
                None => {
                    let r = Ok(Color::default());
                    proof {
                        assert(r == spec_passed_on(
                            h_rec.mat.scatter_spec(*ray, h_rec, sample),
                            Ok(Color::spec_black()),
                        ));
                    }
                    r
                },
                Some(s_rec) => {
                    let inner = ray_color(&s_rec.scattered, world, depth - 1);
                    let r = match inner {
                        Ok(c) => Ok(s_rec.attenuation * c),
                        Err(e) => Err(e),
                    };
                    proof {
                        assert(r == spec_passed_on(
                            h_rec.mat.scatter_spec(*ray, h_rec, sample),
                            inner,
                        ));
                    }
                    r
                },
            }
        },
    }
}

/// Without a bounce left no light is gathered, whatever the scene holds.
pub proof fn lemma_no_depth_is_black<H: Hittable>(
    objects: Seq<H>,
    ray: Ray,
    seen: Result<Color, Error>,
)
    requires
        possible_radiance(objects, ray, 0, seen),
    ensures
        seen == Ok::<Color, Error>(Color::spec_black()),
{
}

/// A ray that hits nothing gathers the background, whatever the depth.
pub proof fn lemma_miss_is_background<H: Hittable>(
    objects: Seq<H>,
    ray: Ray,
    depth: nat,
    seen: Result<Color, Error>,
)
    requires
        depth > 0,
        nearest(objects, ray, Fixed { raw: T_MIN }, Fixed { raw: RAW_MAX }) is None,
        possible_radiance(objects, ray, depth, seen),
    ensures
        seen == spec_background(ray),
{
}

/// Straight up the background is the sky's own colour.
pub proof fn lemma_zenith_is_sky(ray: Ray)
    requires
        ray.direction.spec_unit() matches Ok(unit) && unit.y.raw == SCALE,
    ensures
        spec_background(ray) == Ok::<Color, Error>(spec_sky()),
{
    crate::scalar::lemma_product_exact(500_000_000, 2_000_000_000, 1_000_000_000);
    crate::scalar::lemma_product_unit(0);
    crate::scalar::lemma_product_unit(500_000_000);
    crate::scalar::lemma_product_unit(700_000_000);
    crate::scalar::lemma_product_unit(1_000_000_000);
}

/// The parameters of a rendering.
#[derive(Clone, Copy, Debug, PartialEq, Eq, Structural)]
pub struct Settings {
    pub image_width: u32,
    pub image_height: u32,
    pub samples_per_pixel: u32,
    pub max_depth: u32,
}

impl Settings {
    /// What is wrong with the parameters, if anything: no sample, no bounce,
    /// or more pixels than can be addressed.
    pub open spec fn fault(self) -> Option<Error> {
        if self.samples_per_pixel == 0 {
            Some(Error::InvalidSampleCount)
        } else if self.max_depth == 0 {
            Some(Error::InvalidDepth)
        } else if self.image_width * self.image_height > usize::MAX {
            Some(Error::ImageTooLarge)
        } else {
            None
        }
    }

    /// The fault of the parameters, if they have one.
    pub fn check(&self) -> (r: Option<Error>)
        ensures
            r == self.fault(),
    {
        if self.samples_per_pixel == 0 {
            Some(Error::InvalidSampleCount)
        } else if self.max_depth == 0 {
            Some(Error::InvalidDepth)
        } else {
            match (self.image_width as usize).checked_mul(self.image_height as usize) {
                Some(_) => None,
                None => Some(Error::ImageTooLarge),
            }
        }
    }

    /// Parameters that were checked.
    pub fn new(image_width: u32, image_height: u32, samples_per_pixel: u32, max_depth: u32) -> (r:
        Result<Settings, Error>)
        ensures
            match (Settings { image_width, image_height, samples_per_pixel, max_depth }).fault() {
                Some(e) => r == Err::<Settings, Error>(e),
                None => r == Ok::<Settings, Error>(
                    Settings { image_width, image_height, samples_per_pixel, max_depth },
                ),
            },
    {
        let settings = Settings { image_width, image_height, samples_per_pixel, max_depth };
        match settings.check() {
            Some(e) => Err(e),
            None => Ok(settings),
        }
    }
}

/// The image coordinate of the place `jitter` into pixel `index` of
/// `extent`: `(index + jitter) / (extent - 1)`.
pub open spec fn spec_coordinate(index: u32, jitter: Fixed, extent: u32) -> Fixed {
    Fixed::spec_from_int(index as int).spec_add(jitter).spec_div(
        Fixed::spec_from_int(extent - 1),
    )
}

/// The image coordinate of the place `jitter` into pixel `index` of `extent`.
pub fn coordinate(index: u32, jitter: Fixed, extent: u32) -> (r: Fixed)
    ensures
        r == spec_coordinate(index, jitter, extent),
{
    let denominator = if extent == 0 {
        Fixed::from_int(-1)
    } else {
        Fixed::from_u32(extent - 1)
    };
    (Fixed::from_u32(index) + jitter) / denominator
}

/// The row of the image, counted from the bottom, that is stored as row
/// `row` from the top.
pub open spec fn spec_flip(row: u32, image_height: u32) -> int {
    image_height - row - 1
}

/// Whether `c` can be one sample of the pixel in column `col` and in row
/// `yy` from the bottom: a possible radiance along a ray of the camera
/// through some place within the pixel and some point of the lens.
pub open spec fn possible_sample<H: Hittable>(
    objects: Seq<H>,
    camera: Camera,
    settings: Settings,
    col: u32,
    yy: u32,
    c: Result<Color, Error>,
) -> bool {
    exists|ju: Fixed, jv: Fixed, lens: Vec3|
        {
            &&& 0 <= ju.raw < SCALE
            &&& 0 <= jv.raw < SCALE
            &&& lens.in_unit_disk()
            &&& #[trigger] possible_radiance(
                objects,
                camera@.spec_ray(
                    spec_coordinate(col, ju, settings.image_width),
                    spec_coordinate(yy, jv, settings.image_height),
                    lens,
                ),
                settings.max_depth as nat,
                c,
            )
        }
}

/// The sum of the colours in `samples`, added up in order.
pub open spec fn total(samples: Seq<Color>) -> Color
    decreases samples.len(),
{
    if samples.len() == 0 {
        Color::spec_black()
    } else {
        total(samples.drop_last()).spec_add(samples.last())
    }
}

/// Whether each of `samples` can be a sample of the pixel in column `col`
/// and in row `yy` from the bottom.
pub open spec fn possible_samples<H: Hittable>(
    objects: Seq<H>,
    camera: Camera,
    settings: Settings,
    col: u32,
    yy: u32,
    samples: Seq<Color>,
) -> bool {
    forall|k: int|
        0 <= k < samples.len() ==> possible_sample(
            objects,
            camera,
            settings,
            col,
            yy,
            Ok(#[trigger] samples[k]),
        )
}

/// Whether `sum` can be the sum of the samples of a pixel: the total of as
/// many possible samples as the settings ask for.
pub open spec fn possible_sum<H: Hittable>(
    objects: Seq<H>,
    camera: Camera,
    settings: Settings,
    col: u32,
    yy: u32,
    sum: Color,
) -> bool {
    exists|samples: Seq<Color>|
        {
            &&& samples.len() == settings.samples_per_pixel
            &&& #[trigger] possible_samples(objects, camera, settings, col, yy, samples)
            &&& sum == total(samples)
        }
}

/// Whether `px` can be the bytes of the pixel in column `col` and in row
/// `row` from the top: the conversion of a possible sum of samples, taken in
/// the row counted from the bottom.
pub open spec fn possible_pixel<H: Hittable>(
    objects: Seq<H>,
    camera: Camera,
    settings: Settings,
    col: u32,
    row: u32,
    px: Seq<u8>,
) -> bool {
    exists|sum: Color|
        {
            &&& #[trigger] possible_sum(
                objects,
                camera,
                settings,
                col,
                spec_flip(row, settings.image_height) as u32,
                sum,
            )
            &&& px == sum.spec_to_rgb(settings.samples_per_pixel)
        }
}

/// One sample of the pixel in column `col` and in row `yy` from the bottom.
pub fn sample<H: Hittable>(
    world: &HittableObjects<H>,
    camera: &Camera,
    settings: &Settings,
    col: u32,
    yy: u32,
) -> (c: Result<Color, Error>)
    ensures
        possible_sample(world.objects@, *camera, *settings, col, yy, c),
        c matches Err(e) ==> e == Error::DegenerateVector,
{
    let ju = random::unit_interval();
    let jv = random::unit_interval();
    let u = coordinate(col, ju, settings.image_width);
    let v = coordinate(yy, jv, settings.image_height);
    let ray = camera.get_ray(u, v);
    let c = ray_color(&ray, world, settings.max_depth);
    proof {
        let lens = choose|lens: Vec3|
            lens.in_unit_disk() && ray == #[trigger] camera@.spec_ray(u, v, lens);
        assert(possible_radiance(
            world.objects@,
            camera@.spec_ray(
                spec_coordinate(col, ju, settings.image_width),
                spec_coordinate(yy, jv, settings.image_height),
                lens,
            ),
            settings.max_depth as nat,
            c,
        ));
    }
    c
}

/// The sum of the samples of the pixel in column `col` and in row `yy` from
/// the bottom, or the fault of the first sample that met a ray without
/// direction.
pub fn accumulate<H: Hittable>(
    world: &HittableObjects<H>,
    camera: &Camera,
    settings: &Settings,
    col: u32,
    yy: u32,
) -> (r: Result<Color, Error>)
    ensures
        match r {
            Ok(sum) => possible_sum(world.objects@, *camera, *settings, col, yy, sum),
            Err(e) => e == Error::DegenerateVector && possible_sample(
                world.objects@,
                *camera,
                *settings,
                col,
                yy,
                Err(e),
            ),
        },
{
    let mut color = Color::default();
    let ghost mut samples: Seq<Color> = Seq::empty();
    let mut i: u32 = 0;
    while i < settings.samples_per_pixel
        invariant
            i <= settings.samples_per_pixel,
            samples.len() == i,
            possible_samples(world.objects@, *camera, *settings, col, yy, samples),
            color == total(samples),
        decreases settings.samples_per_pixel - i,
    {
        match sample(world, camera, settings, col, yy) {
            Err(e) => {
                return Err(e);
            },
            Ok(c) => {
                color.add_assign(c);
                proof {
                    assert(samples.push(c).drop_last() =~= samples);
                    samples = samples.push(c);
                }
            },
        }
        i = i + 1;
    }
    Ok(color)
}

/// What a row of the image can be: a fault of the parameters; else the
/// fault of a row that the image does not have; else as many pixels as the
/// image is wide, each a possible pixel of its column, or the fault of a
/// sample of one of the pixels of the row that met a ray without direction.
pub open spec fn possible_row<H: Hittable>(
    objects: Seq<H>,
    camera: Camera,
    settings: Settings,
    row: u32,
    r: Result<Vec<[u8; 3]>, Error>,
) -> bool {
    match settings.fault() {
        Some(e) => r == Err::<Vec<[u8; 3]>, Error>(e),
        None => if row >= settings.image_height {
            r == Err::<Vec<[u8; 3]>, Error>(Error::RowOutOfImage)
        } else {
            match r {
                Ok(pixels) => pixels@.len() == settings.image_width && forall|col: int|
                    0 <= col < pixels@.len() ==> possible_pixel(
                        objects,
                        camera,
                        settings,
                        col as u32,
                        row,
                        (#[trigger] pixels@[col])@,
                    ),
                Err(e) => e == Error::DegenerateVector && exists|col: u32|
                    col < settings.image_width && #[trigger] possible_sample(
                        objects,
                        camera,
                        settings,
                        col,
                        spec_flip(row, settings.image_height) as u32,
                        Err(e),
                    ),
            }
        },
    }
}

/// The row `row` of the image, counted from the top, from the left.
pub fn render_row<H: Hittable>(
    world: &HittableObjects<H>,
    camera: &Camera,
    settings: &Settings,
    row: u32,
) -> (r: Result<Vec<[u8; 3]>, Error>)
    ensures
        possible_row(world.objects@, *camera, *settings, row, r),
{
    match settings.check() {
        Some(e) => {
            return Err(e);
        },
        None => {},
    }
    if row >= settings.image_height {
        return Err(Error::RowOutOfImage);
    }
    let width = settings.image_width;
    // The rows of the image run downward, the camera's upward.
    let yy = settings.image_height - row - 1;
    let mut pixels: Vec<[u8; 3]> = Vec::new();
    let mut col: u32 = 0;
    while col < width
        invariant
            settings.fault() is None,
            width == settings.image_width,
            row < settings.image_height,
            yy == spec_flip(row, settings.image_height),
            col <= width,
            pixels@.len() == col,
            forall|i: int|
                0 <= i < pixels@.len() ==> possible_pixel(
                    world.objects@,
                    *camera,
                    *settings,
                    i as u32,
                    row,
                    (#[trigger] pixels@[i])@,
                ),
        decreases width - col,
    {
        let sum = match accumulate(world, camera, settings, col, yy) {
            Ok(sum) => sum,
            Err(e) => {
                proof {
                    assert(possible_sample(
                        world.objects@,
                        *camera,
                        *settings,
                        col,
                        spec_flip(row, settings.image_height) as u32,
                        Err(e),
                    ));
                }
                return Err(e);
            },
        };
        match sum.to_rgb(settings.samples_per_pixel) {
            Ok(px) => {
                proof {
                    assert(possible_sum(
                        world.objects@,
                        *camera,
                        *settings,
                        col,
                        spec_flip(row, settings.image_height) as u32,
                        sum,
                    ));
                    assert(possible_pixel(world.objects@, *camera, *settings, col, row, px@));
                }
                pixels.push(px);
            },
            Err(_) => {},
        }
        col = col + 1;
    }
    Ok(pixels)
}

/// The image: one triple of bytes per pixel, row after row from the top,
/// each row from the left. Parameters with a fault are refused. A rendering
/// fails only where a sample of one of its pixels meets a ray without
/// direction; an image without pixels never fails.
pub fn render<H: Hittable>(world: &HittableObjects<H>, camera: &Camera, settings: &Settings) -> (r:
    Result<Vec<[u8; 3]>, Error>)
    ensures
        match settings.fault() {
            Some(e) => r == Err::<Vec<[u8; 3]>, Error>(e),
            None => match r {
                Ok(image) => image@.len() == settings.image_width * settings.image_height
                    && forall|i: int|
                    0 <= i < image@.len() ==> possible_pixel(
                        world.objects@,
                        *camera,
                        *settings,
                        (i % (settings.image_width as int)) as u32,
                        (i / (settings.image_width as int)) as u32,
                        (#[trigger] image@[i])@,
                    ),
                Err(e) => e == Error::DegenerateVector && exists|col: u32, row: u32|
                    col < settings.image_width && row < settings.image_height
                        && #[trigger] possible_sample(
                        world.objects@,
                        *camera,
                        *settings,
                        col,
                        spec_flip(row, settings.image_height) as u32,
                        Err(e),
                    ),
            },
        },
{
    match settings.check() {
        Some(e) => {
            return Err(e);
        },
        None => {},
    }
    let width = settings.image_width;
    let height = settings.image_height;
    let mut image: Vec<[u8; 3]> = Vec::new();
    let mut row: u32 = 0;
    while row < height
        invariant
            settings.fault() is None,
            width == settings.image_width,
            height == settings.image_height,
            row <= height,
            image@.len() == row * width,
            forall|i: int|
                0 <= i < image@.len() ==> possible_pixel(
                    world.objects@,
                    *camera,
                    *settings,
                    (i % (width as int)) as u32,
                    (i / (width as int)) as u32,
                    (#[trigger] image@[i])@,
                ),
        decreases height - row,
    {
        let pixels = match render_row(world, camera, settings, row) {
            Ok(pixels) => pixels,
            Err(e) => {
                proof {
                    let col = choose|col: u32|
                        col < settings.image_width && #[trigger] possible_sample(
                            world.objects@,
                            *camera,
                            *settings,
                            col,
                            spec_flip(row, settings.image_height) as u32,
                            Err(e),
                        );
                    assert(possible_sample(
                        world.objects@,
                        *camera,
                        *settings,
                        col,
                        spec_flip(row, settings.image_height) as u32,
                        Err(e),
                    ));
                }
                return Err(e);
            },
        };
        let mut col: u32 = 0;
        while col < width
            invariant
                settings.fault() is None,
                width == settings.image_width,
                height == settings.image_height,
                row < height,
                col <= width,
                pixels@.len() == width,
                image@.len() == row * width + col,
                forall|c: int|
                    0 <= c < pixels@.len() ==> possible_pixel(
                        world.objects@,
                        *camera,
                        *settings,
                        c as u32,
                        row,
                        (#[trigger] pixels@[c])@,
                    ),
                forall|i: int|
                    0 <= i < image@.len() ==> possible_pixel(
                        world.objects@,
                        *camera,
                        *settings,
                        (i % (width as int)) as u32,
                        (i / (width as int)) as u32,
                        (#[trigger] image@[i])@,
                    ),
            decreases width - col,
        {
            let px = pixels[col as usize];
            proof {
                let k = image@.len() as int;
                vstd::arithmetic::div_mod::lemma_fundamental_div_mod_converse(
                    k,
                    width as int,
                    row as int,
                    col as int,
                );
                assert(px == pixels@[col as int]);
            }
            image.push(px);
            col = col + 1;
        }
        proof {
            assert(row * width + width == (row + 1) * width) by (nonlinear_arith);
        }
        row = row + 1;
    }
    proof {
        assert(height * width == width * height) by (nonlinear_arith);
    }
    Ok(image)
}

} // verus!
