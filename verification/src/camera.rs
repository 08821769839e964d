//! The camera: from a place on the image to the ray that is traced for it.
use crate::angle::{spec_tan_degrees, tan_degrees};
use crate::error::Error;
use crate::point3::Point3;
use crate::ray::Ray;
use crate::scalar::Fixed;
use crate::vec3::Vec3;
use vstd::prelude::*;

verus! {

/// What a camera with a thin lens holds.
#[derive(Clone, Copy, Debug, PartialEq, Eq, Structural)]
pub struct Optics {
    pub aspect_ratio: Fixed,
    pub viewport_height: Fixed,
    pub viewport_width: Fixed,
    /// Where the camera stands.
    pub origin: Point3,
    /// The corner of the plane in focus that is seen at the lower left.
    pub lower_left_corner: Point3,
    /// The plane in focus from left to right.
    pub horizontal: Vec3,
    /// The plane in focus from bottom to top.
    pub vertical: Vec3,
    /// The direction to the right.
    pub u: Vec3,
    /// The direction upward.
    pub v: Vec3,
    pub lens_radius: Fixed,
}

/// A camera with a thin lens. What it holds beyond the size of its viewport
/// is fixed when the camera is made.
#[derive(Clone, Copy, Debug, PartialEq, Eq, Structural)]
pub struct Camera {
    pub aspect_ratio: Fixed,
    pub viewport_height: Fixed,
    pub viewport_width: Fixed,
    origin: Point3,
    lower_left_corner: Point3,
    horizontal: Vec3,
    vertical: Vec3,
    u: Vec3,
    v: Vec3,
    lens_radius: Fixed,
}

impl View for Camera {
    type V = Optics;

    /// What the camera holds.
    closed spec fn view(&self) -> Optics {
        Optics {
            aspect_ratio: self.aspect_ratio,
            viewport_height: self.viewport_height,
            viewport_width: self.viewport_width,
            origin: self.origin,
            lower_left_corner: self.lower_left_corner,
            horizontal: self.horizontal,
            vertical: self.vertical,
            u: self.u,
            v: self.v,
            lens_radius: self.lens_radius,
        }
    }
}

impl Optics {
    /// The ray for the place `(s, t)` of the image, both from `0` to `1`,
    /// through the point `lens` of the unit disk that stands for the lens.
    pub open spec fn spec_ray(self, s: Fixed, t: Fixed, lens: Vec3) -> Ray {
        let rd = lens.spec_scale(self.lens_radius);
        let offset = self.u.spec_scale(rd.x).spec_add(self.v.spec_scale(rd.y));
        Ray {
            origin: self.origin.spec_add(offset),
            direction: self.lower_left_corner.spec_add(self.horizontal.spec_scale(s)).spec_add(
                self.vertical.spec_scale(t),
            ).spec_sub(self.origin).spec_sub(offset),
        }
    }
}

impl Camera {
    /// The camera that looks from `look_from` at `look_at` with `v_up`
    /// upward, sees `vfov` degrees from bottom to top, has a lens of diameter
    /// `aperture` and is focused at the distance `focus_dist`. There is none
    /// where the two points coincide or `v_up` lies along the line of sight.
    pub open spec fn spec_new(
        look_from: Point3,
        look_at: Point3,
        v_up: Vec3,
        vfov: Fixed,
        aspect_ratio: Fixed,
        aperture: Fixed,
        focus_dist: Fixed,
    ) -> Result<Optics, Error> {
        let two = Fixed::spec_from_int(2);
        let h = spec_tan_degrees(vfov.spec_div(two));
        let viewport_height = two.spec_mul(h);
        let viewport_width = aspect_ratio.spec_mul(viewport_height);
        match look_from.spec_sub(look_at).spec_unit() {
            Err(e) => Err(e),
            Ok(w) => match v_up.spec_cross(w).spec_unit() {
                Err(e) => Err(e),
                Ok(u) => {
                    let v = w.spec_cross(u);
                    let horizontal = u.spec_scale(focus_dist.spec_mul(viewport_width));
                    let vertical = v.spec_scale(focus_dist.spec_mul(viewport_height));
                    Ok(
                        Optics {
                            aspect_ratio,
                            viewport_height,
                            viewport_width,
                            origin: look_from,
                            lower_left_corner: look_from.spec_sub_vec(
                                horizontal.spec_div(two),
                            ).spec_sub_vec(vertical.spec_div(two)).spec_sub_vec(
                                w.spec_scale(focus_dist),
                            ),
                            horizontal,
                            vertical,
                            u,
                            v,
                            lens_radius: aperture.spec_div(two),
                        },
                    )
                },
            },
        }
    }

    /// See [`Camera::spec_new`].
    pub fn new(
        look_from: &Point3,
        look_at: &Point3,
        v_up: &Vec3,
        vfov: Fixed,
        aspect_ratio: Fixed,
        aperture: Fixed,
        focus_dist: Fixed,
    ) -> (r: Result<Camera, Error>)
        ensures
            match Camera::spec_new(
                *look_from,
                *look_at,
                *v_up,
                vfov,
                aspect_ratio,
                aperture,
                focus_dist,
            ) {
                Ok(optics) => r matches Ok(camera) && camera@ == optics,
                Err(e) => r matches Err(fault) && fault == e,
            },
    {
        let two = Fixed::from_int(2);
        let h = tan_degrees(vfov / two);
        let viewport_height = two * h;
        let viewport_width = aspect_ratio * viewport_height;

        let w = match (*look_from - *look_at).unit() {
            Ok(w) => w,
            Err(e) => {
                return Err(e);
            },
        };
        let u = match v_up.cross(w).unit() {
            Ok(u) => u,
            Err(e) => {
                return Err(e);
            },
        };
        let v = w.cross(u);

        let origin = *look_from;
        let horizontal = (focus_dist * viewport_width) * u;
        let vertical = (focus_dist * viewport_height) * v;
        let lower_left_corner = origin - horizontal / two - vertical / two - focus_dist * w;
        let lens_radius = aperture / two;

        Ok(
            Camera {
                aspect_ratio,
                viewport_height,
                viewport_width,
                origin,
                lower_left_corner,
                horizontal,
                vertical,
                u,
                v,
                lens_radius,
            },
        )
    }

    /// The ray for the place `(s, t)` of the image through the point `lens`
    /// of the lens.
    pub fn get_ray_through(&self, s: Fixed, t: Fixed, lens: &Vec3) -> (r: Ray)
        ensures
            r == self@.spec_ray(s, t, *lens),
    {
        let rd = self.lens_radius * *lens;
        let offset = self.u * rd.x + self.v * rd.y;
        Ray {
            origin: self.origin + offset,
            direction: self.lower_left_corner + s * self.horizontal + t * self.vertical
                - self.origin - offset,
        }
    }

    /// The ray for the place `(s, t)` of the image through a random point of
    /// the lens.
    pub fn get_ray(&self, s: Fixed, t: Fixed) -> (r: Ray)
        ensures
            exists|lens: Vec3| lens.in_unit_disk() && r == #[trigger] self@.spec_ray(s, t, lens),
    {
        let lens = Vec3::rand_in_unit_disk();
        let r = self.get_ray_through(s, t, &lens);
        proof {
            assert(r == self@.spec_ray(s, t, lens));
        }
        r
    }

    /// All that the camera holds.
    pub fn optics(&self) -> (r: Optics)
        ensures
            r == self@,
    {
        Optics {
            aspect_ratio: self.aspect_ratio,
            viewport_height: self.viewport_height,
            viewport_width: self.viewport_width,
            origin: self.origin,
            lower_left_corner: self.lower_left_corner,
            horizontal: self.horizontal,
            vertical: self.vertical,
            u: self.u,
            v: self.v,
            lens_radius: self.lens_radius,
        }
    }
}

/// Without an aperture every ray leaves from the camera's own place,
/// wherever the lens was sampled: a pinhole camera.
pub proof fn lemma_pinhole(camera: Optics, s: Fixed, t: Fixed, lens: Vec3)
    requires
        camera.lens_radius.raw == 0,
        camera.origin.x.raw >= -crate::scalar::RAW_MAX,
        camera.origin.y.raw >= -crate::scalar::RAW_MAX,
        camera.origin.z.raw >= -crate::scalar::RAW_MAX,
    ensures
        camera.spec_ray(s, t, lens).origin == camera.origin,
        camera.spec_ray(s, t, lens) == camera.spec_ray(s, t, Vec3::spec_zero()),
{
    crate::scalar::lemma_product_unit(lens.x@);
    crate::scalar::lemma_product_unit(lens.y@);
    crate::scalar::lemma_product_unit(lens.z@);
    crate::scalar::lemma_product_unit(camera.u.x@);
    crate::scalar::lemma_product_unit(camera.u.y@);
    crate::scalar::lemma_product_unit(camera.u.z@);
    crate::scalar::lemma_product_unit(camera.v.x@);
    crate::scalar::lemma_product_unit(camera.v.y@);
    crate::scalar::lemma_product_unit(camera.v.z@);
}

/// The directions to the right and along the line of sight are of length
/// one, as far as nine digits can tell, in every camera that can be made.
pub proof fn lemma_camera_directions_are_unit(
    look_from: Point3,
    look_at: Point3,
    v_up: Vec3,
    vfov: Fixed,
    aspect_ratio: Fixed,
    aperture: Fixed,
    focus_dist: Fixed,
)
    ensures
        Camera::spec_new(look_from, look_at, v_up, vfov, aspect_ratio, aperture, focus_dist)
            matches Ok(camera) ==> crate::scalar::SCALE - 3 <= camera.u.spec_mag().raw
            <= crate::scalar::SCALE,
        Camera::spec_new(look_from, look_at, v_up, vfov, aspect_ratio, aperture, focus_dist) is Ok
            ==> (look_from.spec_sub(look_at).spec_unit() matches Ok(w) && crate::scalar::SCALE - 3
            <= w.spec_mag().raw <= crate::scalar::SCALE),
{
    let sight = look_from.spec_sub(look_at);
    if let Ok(w) = sight.spec_unit() {
        crate::vec3::lemma_unit_has_length_one(sight);
        let right = v_up.spec_cross(w);
        if let Ok(u) = right.spec_unit() {
            crate::vec3::lemma_unit_has_length_one(right);
        }
    }
}

} // verus!
