use rtlib::point3::Point3;
use rtlib::scalar::Fixed;
use rtlib::scene::{choice, place, Choice};

fn fx(x: f64) -> Fixed {
    Fixed::from_raw((x * 1e9).round() as i64)
}

#[test]
fn the_kind_of_material_goes_by_thresholds() {
    assert_eq!(choice(fx(0.0)), Choice::Diffuse);
    assert_eq!(choice(fx(0.799999999)), Choice::Diffuse);
    assert_eq!(choice(fx(0.8)), Choice::Metal);
    assert_eq!(choice(fx(0.949999999)), Choice::Metal);
    assert_eq!(choice(fx(0.95)), Choice::Glass);
    assert_eq!(choice(fx(0.999999999)), Choice::Glass);
}

#[test]
fn small_spheres_keep_clear_of_the_reserved_place() {
    assert_eq!(
        place(-3, 2, fx(0.5), fx(0.0)),
        Some(Point3::new(fx(-2.55), fx(0.2), fx(2.0)))
    );
    assert_eq!(
        place(0, 0, fx(0.0), fx(0.0)),
        Some(Point3::new(fx(0.0), fx(0.2), fx(0.0)))
    );
    // The cell of the reserved place itself, and a centre at the very limit.
    assert_eq!(place(4, 0, fx(0.0), fx(0.0)), None);
    assert_eq!(place(4, 0, fx(0.5), fx(0.5)), None);
    assert_eq!(place(3, 0, fx(0.111111112), fx(0.0)), None);
    assert_eq!(
        place(3, 0, fx(0.111111110), fx(0.0)),
        Some(Point3::new(fx(3.099999999), fx(0.2), fx(0.0)))
    );
}
