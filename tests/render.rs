use mandelbrot::{pixel_index, pixel_position, render_grayscale, render_with, Color, RenderError};
use num::Complex;

/// Maps pixels onto the rectangle with corners `top_left` and `bottom_right`.
fn corner_sampler(
    width: usize,
    height: usize,
    top_left: Complex<f32>,
    bottom_right: Complex<f32>,
) -> impl Fn(usize, usize) -> Complex<f32> + Sync + Send {
    let extent = bottom_right - top_left;
    move |x, y| {
        let horizontal_ratio = x as f32 / width as f32;
        let vertical_ratio = y as f32 / height as f32;
        top_left + Complex::new(extent.re * horizontal_ratio, extent.im * vertical_ratio)
    }
}

fn mandelbrot(
    width: usize,
    height: usize,
    top_left: Complex<f32>,
    bottom_right: Complex<f32>,
    iteration_max: usize,
) -> Result<Vec<Color>, RenderError> {
    render_grayscale(
        width,
        height,
        corner_sampler(width, height, top_left, bottom_right),
        Complex::new(0.0f32, 0.0),
        |z: Complex<f32>, c: Complex<f32>| z * z + c,
        |z: Complex<f32>| z.norm_sqr() > 4.0,
        iteration_max,
    )
}

fn gray(n: u8) -> Color {
    Color([n, n, n, 255])
}

#[test]
fn golden_three_by_three() {
    let buf = mandelbrot(3, 3, Complex::new(-2.0, 1.2), Complex::new(0.5, -1.2), 50).unwrap();
    let black = Color([0, 0, 0, 255]);
    let expected = vec![
        gray(0), gray(1), gray(2),
        gray(0), gray(6), black,
        gray(0), gray(6), black,
    ];
    assert_eq!(buf, expected);
}

#[test]
fn far_viewport_escapes_at_once() {
    let center = Complex::new(10.0f32, 10.0);
    let extent = Complex::new(0.5f32, 0.5);
    let top_left = center - extent / 2.0;
    let bottom_right = center + extent / 2.0;
    let buf = mandelbrot(16, 9, top_left, bottom_right, 20).unwrap();
    assert_eq!(buf.len(), 16 * 9);
    for c in buf {
        assert_eq!(c, Color([0, 0, 0, 255]));
    }
}

#[test]
fn zero_budget_renders_black() {
    let buf = mandelbrot(7, 5, Complex::new(-2.0, 1.2), Complex::new(0.5, -1.2), 0).unwrap();
    assert_eq!(buf.len(), 35);
    for c in buf {
        assert_eq!(c.as_array(), [0, 0, 0, 255]);
    }
}

#[test]
fn buffer_has_one_color_per_pixel() {
    let sizes = [1usize, 2, 100, 1920];
    for w in sizes {
        for h in sizes {
            let iteration_max = if w * h > 10_000 { 0 } else { 5 };
            let buf = mandelbrot(w, h, Complex::new(-2.0, 1.2), Complex::new(0.5, -1.2), iteration_max)
                .unwrap();
            assert_eq!(buf.len(), w * h);
        }
    }
}

#[test]
fn renders_are_deterministic() {
    let a = mandelbrot(64, 48, Complex::new(-2.0, 1.2), Complex::new(0.5, -1.2), 200).unwrap();
    let b = mandelbrot(64, 48, Complex::new(-2.0, 1.2), Complex::new(0.5, -1.2), 200).unwrap();
    assert_eq!(a, b);
    let pool = rayon::ThreadPoolBuilder::new().num_threads(1).build().unwrap();
    let c = pool
        .install(|| mandelbrot(64, 48, Complex::new(-2.0, 1.2), Complex::new(0.5, -1.2), 200))
        .unwrap();
    assert_eq!(a, c);
}

#[test]
fn empty_image_is_refused() {
    let r = mandelbrot(0, 10, Complex::new(-2.0, 1.2), Complex::new(0.5, -1.2), 10);
    assert_eq!(r, Err(RenderError::EmptyImage));
    let r = mandelbrot(10, 0, Complex::new(-2.0, 1.2), Complex::new(0.5, -1.2), 10);
    assert_eq!(r, Err(RenderError::EmptyImage));
}

#[test]
fn pixels_laid_out_row_major() {
    let buf = render_with(4, 3, |x: usize, y: usize| (x, y)).unwrap();
    assert_eq!(buf.len(), 12);
    for y in 0..3 {
        for x in 0..4 {
            assert_eq!(buf[y * 4 + x], (x, y));
        }
    }
    assert_eq!(render_with(0, 0, |x: usize, y: usize| x + y), Err(RenderError::EmptyImage));
}

#[test]
fn index_and_position_agree() {
    assert_eq!(pixel_index(3, 2, 4, 3), 11);
    assert_eq!(pixel_index(0, 0, 4, 3), 0);
    assert_eq!(pixel_position(11, 4, 3), (3, 2));
    assert_eq!(pixel_position(5, 4, 3), (1, 1));
    for i in 0..12 {
        let (x, y) = pixel_position(i, 4, 3);
        assert_eq!(pixel_index(x, y, 4, 3), i);
    }
}
