use rtlib::color::Color;
use rtlib::error::Error;
use rtlib::scalar::{Fixed, SCALE};

fn fx(x: f64) -> Fixed {
    Fixed::from_raw((x * 1e9).round() as i64)
}

fn c(r: f64, g: f64, b: f64) -> Color {
    Color::new(fx(r), fx(g), fx(b))
}

#[test]
fn colour_algebra() {
    assert_eq!(c(0.1, 0.2, 0.3) + c(0.5, 0.5, 0.5), c(0.6, 0.7, 0.8));
    assert_eq!(c(0.5, 0.5, 0.5) - c(0.1, 0.2, 0.3), c(0.4, 0.3, 0.2));
    assert_eq!(c(0.5, 0.2, 1.0) * c(0.5, 0.5, 0.25), c(0.25, 0.1, 0.25));
    assert_eq!(fx(0.5) * c(0.5, 0.2, 1.0), c(0.25, 0.1, 0.5));
    let mut sum = Color::default();
    sum.add_assign(c(0.25, 0.5, 0.75));
    sum.add_assign(c(0.25, 0.5, 0.75));
    assert_eq!(sum, c(0.5, 1.0, 1.5));
    assert_eq!(Color::default(), c(0.0, 0.0, 0.0));
}

#[test]
fn white_converts_to_the_brightest_bytes() {
    assert_eq!(c(1.0, 1.0, 1.0).to_rgb(1), Ok([255, 255, 255]));
    // The colour is the sum of the samples: white in each of them is white.
    for n in [1u32, 2, 3, 7, 500, 65_536, 4_000_000_000] {
        let sum = Color::new(Fixed::from_u32(n), Fixed::from_u32(n), Fixed::from_u32(n));
        assert_eq!(sum.to_rgb(n), Ok([255, 255, 255]));
    }
    // More light than white is limited.
    assert_eq!(c(9.0, 2.0, 1.5).to_rgb(1), Ok([255, 255, 255]));
}

#[test]
fn the_sum_is_averaged_corrected_and_quantised() {
    assert_eq!(c(0.25, 0.5, 1.0).to_rgb(1), Ok([128, 181, 255]));
    assert_eq!(c(1.0, 1.0, 1.0).to_rgb(4), Ok([128, 128, 128]));
    assert_eq!(c(1.0, 2.0, 4.0).to_rgb(4), Ok([128, 181, 255]));
    assert_eq!(c(0.0, 0.0, 0.0).to_rgb(3), Ok([0, 0, 0]));
    assert_eq!(c(-1.0, -0.000000001, 0.01).to_rgb(1), Ok([0, 0, 25]));
    // Just below the limit of 0.999: the square of 0.998 is 0.996004.
    assert_eq!(c(0.996004, 0.998001, 0.998002).to_rgb(1), Ok([255, 255, 255]));
    assert_eq!(c(0.99, 0.9, 0.0625).to_rgb(1), Ok([254, 242, 64]));
}

#[test]
fn without_samples_there_is_no_colour() {
    assert_eq!(c(1.0, 1.0, 1.0).to_rgb(0), Err(Error::InvalidSampleCount));
    assert_eq!(Color::default().to_rgb(0), Err(Error::InvalidSampleCount));
}

#[test]
fn random_colours_stay_in_their_range() {
    let mut different = false;
    let first = Color::rand();
    for _ in 0..200 {
        let a = Color::rand();
        for x in [a.r, a.g, a.b] {
            assert!(0 <= x.raw && x.raw < SCALE);
        }
        if a != first {
            different = true;
        }
        let b = Color::rand_in(fx(0.5), fx(1.0));
        for x in [b.r, b.g, b.b] {
            assert!(500_000_000 <= x.raw && x.raw < SCALE);
        }
    }
    assert!(different);
}
