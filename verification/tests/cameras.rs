use rtlib::camera::Camera;
use rtlib::error::Error;
use rtlib::point3::Point3;
use rtlib::scalar::Fixed;
use rtlib::vec3::Vec3;

fn fx(x: f64) -> Fixed {
    Fixed::from_raw((x * 1e9).round() as i64)
}

fn v(x: f64, y: f64, z: f64) -> Vec3 {
    Vec3::new(fx(x), fx(y), fx(z))
}

fn p(x: f64, y: f64, z: f64) -> Point3 {
    Point3::new(fx(x), fx(y), fx(z))
}

fn near(a: Fixed, b: f64) -> bool {
    (a.raw - (b * 1e9).round() as i64).abs() <= 1_000
}

fn near_v(a: Vec3, x: f64, y: f64, z: f64) -> bool {
    near(a.x, x) && near(a.y, y) && near(a.z, z)
}

fn looking_down_z(aperture: f64, focus: f64) -> Camera {
    Camera::new(
        &p(0.0, 0.0, 0.0),
        &p(0.0, 0.0, -1.0),
        &v(0.0, 1.0, 0.0),
        fx(90.0),
        fx(2.0),
        fx(aperture),
        fx(focus),
    )
    .unwrap()
}

#[test]
fn a_camera_spans_its_viewport() {
    let cam = looking_down_z(0.0, 1.0);
    assert_eq!(cam.aspect_ratio, fx(2.0));
    assert!(near(cam.viewport_height, 2.0));
    assert!(near(cam.viewport_width, 4.0));
    assert_eq!(cam.optics().origin, p(0.0, 0.0, 0.0));
    assert_eq!(cam.optics().u, v(1.0, 0.0, 0.0));
    assert_eq!(cam.optics().v, v(0.0, 1.0, 0.0));
    assert!(near_v(cam.optics().horizontal, 4.0, 0.0, 0.0));
    assert!(near_v(cam.optics().vertical, 0.0, 2.0, 0.0));
    assert!(near(cam.optics().lower_left_corner.x, -2.0));
    assert!(near(cam.optics().lower_left_corner.y, -1.0));
    assert!(near(cam.optics().lower_left_corner.z, -1.0));
    assert_eq!(cam.optics().lens_radius, fx(0.0));
}

#[test]
fn the_focus_distance_scales_the_plane_in_focus() {
    let cam = looking_down_z(0.5, 10.0);
    assert!(near_v(cam.optics().horizontal, 40.0, 0.0, 0.0));
    assert!(near_v(cam.optics().vertical, 0.0, 20.0, 0.0));
    assert!(near(cam.optics().lower_left_corner.x, -20.0));
    assert!(near(cam.optics().lower_left_corner.y, -10.0));
    assert!(near(cam.optics().lower_left_corner.z, -10.0));
    assert_eq!(cam.optics().lens_radius, fx(0.25));
}

#[test]
fn a_camera_elsewhere() {
    let cam = Camera::new(
        &p(13.0, 2.0, 3.0),
        &p(0.0, 0.0, 0.0),
        &v(0.0, 1.0, 0.0),
        fx(20.0),
        fx(1.5),
        fx(0.1),
        fx(10.0),
    )
    .unwrap();
    assert_eq!(cam.optics().origin, p(13.0, 2.0, 3.0));
    // tan(10 degrees) = 0.176326981
    assert!(near(cam.viewport_height, 0.352653962));
    assert!((cam.optics().u.mag().raw - 1_000_000_000).abs() <= 100);
    assert!((cam.optics().v.mag().raw - 1_000_000_000).abs() <= 100);
    assert!(cam.optics().u.dot(cam.optics().v).raw.abs() <= 100);
    assert_eq!(cam.optics().u.y.raw, 0);
    assert!(cam.optics().v.y.raw > 0);
    assert_eq!(cam.optics().lens_radius, fx(0.05));
}

#[test]
fn a_camera_needs_a_line_of_sight_and_an_upward_direction() {
    let nowhere = Camera::new(
        &p(1.0, 2.0, 3.0),
        &p(1.0, 2.0, 3.0),
        &v(0.0, 1.0, 0.0),
        fx(90.0),
        fx(2.0),
        fx(0.0),
        fx(1.0),
    );
    assert_eq!(nowhere.err(), Some(Error::DegenerateVector));
    let along = Camera::new(
        &p(0.0, 0.0, 0.0),
        &p(0.0, 0.0, -1.0),
        &v(0.0, 0.0, 5.0),
        fx(90.0),
        fx(2.0),
        fx(0.0),
        fx(1.0),
    );
    assert_eq!(along.err(), Some(Error::DegenerateVector));
    let no_up = Camera::new(
        &p(0.0, 0.0, 0.0),
        &p(0.0, 0.0, -1.0),
        &Vec3::zero(),
        fx(90.0),
        fx(2.0),
        fx(0.0),
        fx(1.0),
    );
    assert_eq!(no_up.err(), Some(Error::DegenerateVector));
}

#[test]
fn a_pinhole_camera_sends_every_ray_from_its_place() {
    let cam = looking_down_z(0.0, 1.0);
    for _ in 0..50 {
        let middle = cam.get_ray(fx(0.5), fx(0.5));
        assert_eq!(middle.origin, p(0.0, 0.0, 0.0));
        assert!(near_v(middle.direction, 0.0, 0.0, -1.0));
    }
    let corner = cam.get_ray(fx(0.0), fx(0.0));
    assert!(near_v(corner.direction, -2.0, -1.0, -1.0));
    let corner = cam.get_ray(fx(1.0), fx(1.0));
    assert!(near_v(corner.direction, 2.0, 1.0, -1.0));
    assert_eq!(
        cam.get_ray_through(fx(0.25), fx(0.75), &v(0.3, -0.4, 0.0)),
        cam.get_ray_through(fx(0.25), fx(0.75), &Vec3::zero())
    );
}

#[test]
fn a_right_angle_of_view_spans_the_viewport_exactly() {
    let cam = looking_down_z(0.0, 1.0);
    assert_eq!(cam.viewport_height, fx(2.0));
    assert_eq!(cam.viewport_width, fx(4.0));
    assert_eq!(cam.optics().horizontal, v(4.0, 0.0, 0.0));
    assert_eq!(cam.optics().vertical, v(0.0, 2.0, 0.0));
    assert_eq!(cam.optics().lower_left_corner, p(-2.0, -1.0, -1.0));
    for _ in 0..20 {
        let corner = cam.get_ray(fx(1.0), fx(0.0));
        assert_eq!(corner.origin, p(0.0, 0.0, 0.0));
        assert_eq!(corner.direction, v(2.0, -1.0, -1.0));
    }
    assert_eq!(cam.get_ray(fx(0.5), fx(0.5)).direction, v(0.0, 0.0, -1.0));
    assert_eq!(cam.get_ray(fx(0.0), fx(1.0)).direction, v(-2.0, 1.0, -1.0));
}

#[test]
fn a_lens_moves_the_origin_and_keeps_the_focus() {
    let cam = looking_down_z(2.0, 1.0);
    let through = cam.get_ray_through(fx(0.5), fx(0.5), &v(0.5, -0.25, 0.0));
    assert_eq!(through.origin, p(0.5, -0.25, 0.0));
    assert!(near_v(through.direction, -0.5, 0.25, -1.0));
    // At parameter 1 the ray passes the point in focus.
    let focus = through.at(fx(1.0));
    assert!(near(focus.x, 0.0) && near(focus.y, 0.0) && near(focus.z, -1.0));
    let mut moved = false;
    for _ in 0..50 {
        let r = cam.get_ray(fx(0.5), fx(0.5));
        assert!((r.origin - cam.optics().origin).mag().raw <= 1_000_000_000);
        assert_eq!(r.origin.z.raw, 0);
        if r.origin != cam.optics().origin {
            moved = true;
        }
    }
    assert!(moved);
}
