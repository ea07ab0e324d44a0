use mandelbrot::{escape_time, escape_time_and_path};
use num::Complex;

fn mandelbrot_escape(c: Complex<f32>, iteration_max: usize) -> Option<usize> {
    escape_time(Complex::new(0.0, 0.0), |z: Complex<f32>| z * z + c, |z: Complex<f32>| z.norm_sqr() > 4.0, iteration_max)
}

#[test]
fn outside_radius_two_escapes_at_once() {
    let points = [
        Complex::new(3.0f32, 0.0),
        Complex::new(-2.5, 0.0),
        Complex::new(0.0, 2.1),
        Complex::new(1.5, 1.5),
        Complex::new(10.0, 10.0),
    ];
    for c in points {
        for n in [1usize, 2, 20, 1000] {
            assert_eq!(mandelbrot_escape(c, n), Some(0));
        }
    }
}

#[test]
fn known_points_escape_where_predicted() {
    assert_eq!(mandelbrot_escape(Complex::new(1.0, 0.0), 50), Some(2));
    assert_eq!(mandelbrot_escape(Complex::new(0.5, 0.0), 50), Some(4));
    assert_eq!(mandelbrot_escape(Complex::new(0.3, 0.0), 50), Some(11));
    assert_eq!(mandelbrot_escape(Complex::new(-0.75, 0.1), 50), Some(32));
    assert_eq!(mandelbrot_escape(Complex::new(-2.0, 0.0), 10_000), None);
    assert_eq!(mandelbrot_escape(Complex::new(0.25, 0.0), 10_000), None);
    assert_eq!(mandelbrot_escape(Complex::new(0.0, 1.0), 10_000), None);
}

#[test]
fn budget_shorter_than_escape_is_not_escaped() {
    assert_eq!(mandelbrot_escape(Complex::new(1.0, 0.0), 2), None);
    assert_eq!(mandelbrot_escape(Complex::new(1.0, 0.0), 3), Some(2));
}

#[test]
fn origin_never_escapes() {
    for n in [0usize, 1, 2, 10, 100, 1000, 10_000, 20_000] {
        assert_eq!(mandelbrot_escape(Complex::new(0.0, 0.0), n), None);
    }
}

#[test]
fn zero_budget_never_escapes() {
    for c in [Complex::new(0.0f32, 0.0), Complex::new(100.0, -100.0), Complex::new(3.0, 0.0)] {
        assert_eq!(mandelbrot_escape(c, 0), None);
    }
}

#[test]
fn integer_orbit() {
    let r = escape_time(0u64, |z: u64| z + 3, |z: u64| z >= 10, 100);
    assert_eq!(r, Some(3));
    let r = escape_time(0u64, |z: u64| z + 3, |z: u64| z >= 10, 3);
    assert_eq!(r, None);
}

#[test]
fn julia_style_start_at_sample() {
    let k = Complex::new(-0.8f32, 0.156);
    let z0 = Complex::new(2.0f32, 2.0);
    assert_eq!(escape_time(z0, |z: Complex<f32>| z * z + k, |z: Complex<f32>| z.norm_sqr() > 4.0, 10), Some(0));
}

#[test]
fn path_holds_start_and_every_iterate() {
    let (r, path) = escape_time_and_path(0u64, |z: u64| z + 3, |z: u64| z >= 10, 100);
    assert_eq!(r, Some(3));
    assert_eq!(path, vec![0, 3, 6, 9, 12]);

    let (r, path) = escape_time_and_path(0u64, |z: u64| z + 3, |z: u64| z >= 10, 2);
    assert_eq!(r, None);
    assert_eq!(path, vec![0, 3, 6]);

    let (r, path) = escape_time_and_path(5u64, |z: u64| z + 3, |z: u64| z >= 10, 0);
    assert_eq!(r, None);
    assert_eq!(path, vec![5]);
}

#[test]
fn mandelbrot_path_matches_escape_time() {
    let c = Complex::new(0.5f32, 0.0);
    let (r, path) = escape_time_and_path(
        Complex::new(0.0, 0.0),
        |z: Complex<f32>| z * z + c,
        |z: Complex<f32>| z.norm_sqr() > 4.0,
        50,
    );
    assert_eq!(r, mandelbrot_escape(c, 50));
    assert_eq!(path.len(), 6);
    assert_eq!(path[0], Complex::new(0.0, 0.0));
    assert_eq!(path[1], c);
    assert_eq!(path[2], Complex::new(0.75, 0.0));
}
