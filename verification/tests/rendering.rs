use rtlib::camera::Camera;
use rtlib::color::Color;
use rtlib::error::Error;
use rtlib::hit::{Hittable, HittableObjects};
use rtlib::material::{Blank, Lambertian, Metal, Surface};
use rtlib::point3::Point3;
use rtlib::ray::Ray;
use rtlib::render::{
    accumulate, background, coordinate, ray_color, render, render_row, sample, Settings,
};
use rtlib::scalar::{Fixed, RAW_MAX};
use rtlib::scene::random_scene;
use rtlib::sphere::Sphere;
use rtlib::vec3::Vec3;
use std::rc::Rc;

fn fx(x: f64) -> Fixed {
    Fixed::from_raw((x * 1e9).round() as i64)
}

fn v(x: f64, y: f64, z: f64) -> Vec3 {
    Vec3::new(fx(x), fx(y), fx(z))
}

fn p(x: f64, y: f64, z: f64) -> Point3 {
    Point3::new(fx(x), fx(y), fx(z))
}

fn c(r: f64, g: f64, b: f64) -> Color {
    Color::new(fx(r), fx(g), fx(b))
}

fn ray(direction: Vec3) -> Ray {
    Ray { origin: p(0.0, 0.0, 0.0), direction }
}

fn empty() -> HittableObjects<Sphere> {
    HittableObjects::new()
}

fn sphere_of(radius: f64, mat: Surface) -> HittableObjects<Sphere> {
    let mut world = HittableObjects::new();
    world.add(Sphere::new(&p(0.0, 0.0, -1.0), fx(radius), Rc::new(mat)).unwrap());
    world
}

fn one_sphere(mat: Surface) -> HittableObjects<Sphere> {
    sphere_of(0.5, mat)
}

fn camera() -> Camera {
    Camera::new(
        &p(0.0, 0.0, 0.0),
        &p(0.0, 0.0, -1.0),
        &v(0.0, 1.0, 0.0),
        fx(90.0),
        Fixed::from_ratio(4, 3),
        fx(0.0),
        fx(1.0),
    )
    .unwrap()
}

#[test]
fn the_background_is_a_gradient() {
    assert_eq!(background(&ray(v(0.0, 1.0, 0.0))), Ok(c(0.5, 0.7, 1.0)));
    assert_eq!(background(&ray(v(0.0, 7.0, 0.0))), Ok(c(0.5, 0.7, 1.0)));
    assert_eq!(background(&ray(v(0.0, -1.0, 0.0))), Ok(c(1.0, 1.0, 1.0)));
    assert_eq!(background(&ray(v(1.0, 0.0, 0.0))), Ok(c(0.75, 0.85, 1.0)));
    assert_eq!(background(&ray(v(0.0, 0.6, 0.8))), Ok(c(0.6, 0.76, 1.0)));
    assert_eq!(background(&Ray::new()), Err(Error::DegenerateVector));
}

#[test]
fn without_depth_there_is_no_light() {
    let world = random_scene();
    let camera = camera();
    for _ in 0..20 {
        let r = camera.get_ray(fx(0.5), fx(0.5));
        assert_eq!(ray_color(&r, &world, 0), Ok(c(0.0, 0.0, 0.0)));
    }
    assert_eq!(ray_color(&ray(v(0.0, 1.0, 0.0)), &empty(), 0), Ok(c(0.0, 0.0, 0.0)));
}

#[test]
fn straight_up_an_empty_scene_shows_the_sky() {
    assert_eq!(ray_color(&ray(v(0.0, 1.0, 0.0)), &empty(), 50), Ok(c(0.5, 0.7, 1.0)));
    assert_eq!(ray_color(&ray(v(0.0, 1.0, 0.0)), &empty(), 1), Ok(c(0.5, 0.7, 1.0)));
    assert_eq!(ray_color(&ray(v(1.0, 0.0, 0.0)), &empty(), 50), Ok(c(0.75, 0.85, 1.0)));
}

#[test]
fn an_absorbed_ray_is_black() {
    let world = one_sphere(Surface::Blank(Blank::new()));
    assert_eq!(ray_color(&ray(v(0.0, 0.0, -1.0)), &world, 50), Ok(c(0.0, 0.0, 0.0)));
    // Beside the sphere the sky is seen.
    assert_eq!(ray_color(&ray(v(0.0, 1.0, 0.0)), &world, 50), Ok(c(0.5, 0.7, 1.0)));
}

#[test]
fn a_mirror_shows_the_attenuated_sky() {
    let world = one_sphere(Surface::Metal(Metal::new(&c(0.8, 0.8, 0.8), fx(0.0))));
    let at_the_sphere = ray(v(0.0, 0.0, -1.0));
    assert_eq!(ray_color(&at_the_sphere, &world, 2), Ok(c(0.6, 0.68, 0.8)));
    assert_eq!(ray_color(&at_the_sphere, &world, 50), Ok(c(0.6, 0.68, 0.8)));
    // With one bounce only, the reflected ray is not followed.
    assert_eq!(ray_color(&at_the_sphere, &world, 1), Ok(c(0.0, 0.0, 0.0)));
}

#[test]
fn a_diffuse_sphere_dims_the_light() {
    let world = one_sphere(Surface::Lambertian(Lambertian::new(&c(0.5, 0.5, 0.5))));
    let at_the_sphere = ray(v(0.0, 0.0, -1.0));
    assert_eq!(ray_color(&at_the_sphere, &world, 1), Ok(c(0.0, 0.0, 0.0)));
    for _ in 0..50 {
        let seen = ray_color(&at_the_sphere, &world, 50).unwrap();
        for x in [seen.r, seen.g, seen.b] {
            assert!(0 <= x.raw && x.raw <= 500_000_000);
        }
    }
}

#[test]
fn a_hit_right_at_the_origin_of_a_ray_does_not_count() {
    let world = one_sphere(Surface::Blank(Blank::new()));
    // Just below the surface, leaving: the surface is met after 0.0005.
    let leaving = Ray { origin: p(0.0, 0.0, -0.5005), direction: v(0.0, 0.0, 1.0) };
    let met = world.hit(&leaving, Fixed::zero(), Fixed::max_value()).unwrap();
    assert_eq!(met.t, fx(0.0005));
    assert!(world.hit(&leaving, fx(0.001), Fixed::max_value()).is_none());
    assert_eq!(ray_color(&leaving, &world, 50), Ok(c(0.75, 0.85, 1.0)));
}

#[test]
fn the_largest_image_can_be_addressed_with_sixty_four_bits() {
    let largest = Settings::new(u32::MAX, u32::MAX, 1, 1);
    if usize::BITS >= 64 {
        assert!(largest.is_ok());
    } else {
        assert_eq!(largest, Err(Error::ImageTooLarge));
    }
}

#[test]
fn a_ray_without_direction_is_refused() {
    let world = one_sphere(Surface::Lambertian(Lambertian::new(&c(0.5, 0.5, 0.5))));
    assert_eq!(ray_color(&Ray::new(), &world, 5), Err(Error::DegenerateVector));
    assert_eq!(ray_color(&Ray::new(), &empty(), 1), Err(Error::DegenerateVector));
    let inside = Ray { origin: p(0.0, 0.0, -1.0), direction: v(0.0, 0.0, 0.0) };
    assert_eq!(ray_color(&inside, &world, 50), Err(Error::DegenerateVector));
    // Without a bounce left the ray is not looked at.
    assert_eq!(ray_color(&Ray::new(), &world, 0), Ok(c(0.0, 0.0, 0.0)));
}

#[test]
fn settings_are_checked() {
    assert_eq!(
        Settings::new(4, 3, 10, 5),
        Ok(Settings { image_width: 4, image_height: 3, samples_per_pixel: 10, max_depth: 5 })
    );
    assert_eq!(Settings::new(4, 3, 0, 5), Err(Error::InvalidSampleCount));
    assert_eq!(Settings::new(4, 3, 10, 0), Err(Error::InvalidDepth));
    assert_eq!(Settings::new(4, 3, 0, 0), Err(Error::InvalidSampleCount));
    assert!(Settings::new(0, 0, 1, 1).is_ok());
    let bad = Settings { image_width: 4, image_height: 3, samples_per_pixel: 0, max_depth: 0 };
    assert_eq!(bad.check(), Some(Error::InvalidSampleCount));
    let good = Settings { image_width: 1200, image_height: 800, samples_per_pixel: 500, max_depth: 50 };
    assert_eq!(good.check(), None);
}

#[test]
fn settings_with_a_fault_render_nothing() {
    let camera = camera();
    let bad = Settings { image_width: 2, image_height: 2, samples_per_pixel: 0, max_depth: 5 };
    assert_eq!(render(&empty(), &camera, &bad), Err(Error::InvalidSampleCount));
    let bad = Settings { image_width: 2, image_height: 2, samples_per_pixel: 3, max_depth: 0 };
    assert_eq!(render(&empty(), &camera, &bad), Err(Error::InvalidDepth));
}

#[test]
fn image_coordinates() {
    assert_eq!(coordinate(0, fx(0.5), 3), fx(0.25));
    assert_eq!(coordinate(2, fx(0.0), 3), fx(1.0));
    assert_eq!(coordinate(599, fx(0.5), 1200), Fixed::from_ratio(5995, 11990));
    assert_eq!(coordinate(0, fx(0.0), 1), fx(0.0));
    assert_eq!(coordinate(0, fx(0.5), 1).raw, RAW_MAX);
}

#[test]
fn an_image_is_stored_from_the_top_row_by_row() {
    let settings = Settings::new(4, 3, 64, 5).unwrap();
    let image = render(&empty(), &camera(), &settings).unwrap();
    assert_eq!(image.len(), 12);
    // The sky is bluest at the top: less red in the first row than in the last.
    for col in 0..4 {
        let top = image[col];
        let middle = image[4 + col];
        let bottom = image[8 + col];
        assert!(top[0] < middle[0] && middle[0] < bottom[0]);
        assert_eq!(top[2], 255);
        assert_eq!(bottom[2], 255);
    }
    let none = render(&empty(), &camera(), &Settings::new(0, 5, 1, 1).unwrap()).unwrap();
    assert_eq!(none.len(), 0);
}

#[test]
fn a_sphere_shows_in_the_middle_of_the_image() {
    let world = sphere_of(0.7, Surface::Blank(Blank::new()));
    let settings = Settings::new(5, 5, 4, 5).unwrap();
    let image = render(&world, &camera(), &settings).unwrap();
    assert_eq!(image.len(), 25);
    assert_eq!(image[12], [0, 0, 0]);
    assert!(image[0][2] == 255 && image[24][2] == 255);
}

#[test]
fn rows_are_rendered_one_by_one() {
    let world = sphere_of(0.7, Surface::Blank(Blank::new()));
    let settings = Settings::new(5, 5, 4, 5).unwrap();
    let cam = camera();
    let top = render_row(&world, &cam, &settings, 0).unwrap();
    let middle = render_row(&world, &cam, &settings, 2).unwrap();
    let bottom = render_row(&world, &cam, &settings, 4).unwrap();
    assert_eq!(top.len(), 5);
    assert_eq!(middle.len(), 5);
    assert_eq!(middle[2], [0, 0, 0]);
    assert!(top[0][0] < bottom[0][0]);
    assert_eq!(render_row(&world, &cam, &settings, 5), Err(Error::RowOutOfImage));
    assert_eq!(render_row(&world, &cam, &settings, u32::MAX), Err(Error::RowOutOfImage));
    let bad = Settings { image_width: 5, image_height: 5, samples_per_pixel: 0, max_depth: 5 };
    assert_eq!(render_row(&world, &cam, &bad, 9), Err(Error::InvalidSampleCount));
    let none = Settings::new(0, 3, 1, 1).unwrap();
    assert_eq!(render_row(&world, &cam, &none, 1), Ok(vec![]));
}

#[test]
fn samples_add_up() {
    let settings = Settings::new(4, 3, 16, 5).unwrap();
    let world = empty();
    let camera = camera();
    let one = sample(&world, &camera, &settings, 1, 1).unwrap();
    assert!(one.b.raw == 1_000_000_000);
    assert!(500_000_000 <= one.r.raw && one.r.raw <= 1_000_000_000);
    let sum = accumulate(&world, &camera, &settings, 1, 1).unwrap();
    assert_eq!(sum.b.raw, 16_000_000_000);
    assert!(8_000_000_000 <= sum.r.raw && sum.r.raw <= 16_000_000_000);
}
