use crate::color::{escape_time_to_grayscale, grayscale_channels, Color};
use crate::escape::{
    escape_outcome, escape_time, is_functional, lemma_escape_outcome_determined,
    lemma_escape_outcome_widen, lemma_first_step_escapes, rule_of, test_of,
};
use crate::grid::{lemma_pixel_of_index, render_with, RenderError};
use vstd::prelude::*;

verus! {

/// The update relation `z -> step(z, c)` for a fixed parameter `c`.
pub open spec fn param_rule_of<Z, S: Fn(Z, Z) -> Z>(step: S, c: Z) -> spec_fn(Z, Z) -> bool {
    |a: Z, b: Z| step.ensures((a, c), b)
}

/// `color` is a color that the pixel in column `x` of row `y` may get: the pixel's
/// sample `c` is drawn by `sample`, the orbit of `z -> step(z, c)` from `start` is
/// evaluated with `escaped` under a budget of `iteration_max`, and its escape result
/// is classified in grayscale.
pub open spec fn is_pixel_color<Z, M: Fn(usize, usize) -> Z, S: Fn(Z, Z) -> Z, E: Fn(Z) -> bool>(
    sample: M,
    start: Z,
    step: S,
    escaped: E,
    iteration_max: usize,
    x: usize,
    y: usize,
    color: Color,
) -> bool {
    exists|c: Z, orbit: Seq<Z>, n: Option<usize>|
        #![trigger sample.ensures((x, y), c), escape_outcome(param_rule_of(step, c), test_of(escaped), orbit, iteration_max, n)]
        {
            &&& sample.ensures((x, y), c)
            &&& orbit[0] == start
            &&& escape_outcome(param_rule_of(step, c), test_of(escaped), orbit, iteration_max, n)
            &&& color@ == grayscale_channels(n)
        }
}

/// `buf` is a grayscale escape-time image `width` by `height`: one color per pixel,
/// in row-major order, each given by `is_pixel_color`.
pub open spec fn is_grayscale_render<Z, M: Fn(usize, usize) -> Z, S: Fn(Z, Z) -> Z, E: Fn(Z) -> bool>(
    width: usize,
    height: usize,
    sample: M,
    start: Z,
    step: S,
    escaped: E,
    iteration_max: usize,
    buf: Seq<Color>,
) -> bool {
    &&& buf.len() == width * height
    &&& forall|x: usize, y: usize|
        x < width && y < height ==> is_pixel_color(
            sample,
            start,
            step,
            escaped,
            iteration_max,
            x,
            y,
            #[trigger] buf[y * width + x],
        )
}

/// `sample` gives at most one sample for each pixel.
pub open spec fn is_deterministic_sampler<Z, M: Fn(usize, usize) -> Z>(sample: M) -> bool {
    forall|x: usize, y: usize, c1: Z, c2: Z|
        #![trigger sample.ensures((x, y), c1), sample.ensures((x, y), c2)]
        sample.ensures((x, y), c1) && sample.ensures((x, y), c2) ==> c1 == c2
}

/// Determinism: with a deterministic sampler, update rule and escape test, two
/// grayscale renders of the same image are identical, color for color, whatever
/// the order in which their pixels were computed.
pub proof fn lemma_render_deterministic<Z, M, S, E>(
    width: usize,
    height: usize,
    sample: M,
    start: Z,
    step: S,
    escaped: E,
    iteration_max: usize,
    buf1: Seq<Color>,
    buf2: Seq<Color>,
) where
    M: Fn(usize, usize) -> Z,
    S: Fn(Z, Z) -> Z,
    E: Fn(Z) -> bool,

    requires
        is_deterministic_sampler(sample),
        forall|c: Z| is_functional(#[trigger] param_rule_of(step, c)),
        is_functional(test_of(escaped)),
        is_grayscale_render(width, height, sample, start, step, escaped, iteration_max, buf1),
        is_grayscale_render(width, height, sample, start, step, escaped, iteration_max, buf2),
    ensures
        buf1 == buf2,
{
    assert forall|i: int| 0 <= i < buf1.len() implies buf1[i] == buf2[i] by {
        let (x, y) = lemma_pixel_of_index(i, width, height);
        let col1 = buf1[y * width + x];
        let col2 = buf2[y * width + x];
        assert(is_pixel_color(sample, start, step, escaped, iteration_max, x, y, col1));
        assert(is_pixel_color(sample, start, step, escaped, iteration_max, x, y, col2));
        let (c1, o1, n1) = choose|c: Z, orbit: Seq<Z>, n: Option<usize>|
            {
                &&& sample.ensures((x, y), c)
                &&& orbit[0] == start
                &&& escape_outcome(param_rule_of(step, c), test_of(escaped), orbit, iteration_max, n)
                &&& col1@ == grayscale_channels(n)
            };
        let (c2, o2, n2) = choose|c: Z, orbit: Seq<Z>, n: Option<usize>|
            {
                &&& sample.ensures((x, y), c)
                &&& orbit[0] == start
                &&& escape_outcome(param_rule_of(step, c), test_of(escaped), orbit, iteration_max, n)
                &&& col2@ == grayscale_channels(n)
            };
        assert(c1 == c2);
        assert(is_functional(param_rule_of(step, c1)));
        lemma_escape_outcome_determined(
            param_rule_of(step, c1),
            test_of(escaped),
            start,
            iteration_max,
            o1,
            n1,
            o2,
            n2,
        );
        assert(col1.0 =~= col2.0);
    }
    assert(buf1 =~= buf2);
}

/// When every value that the update rule can produce from `start` is flagged by the
/// escape test, for the sample of every pixel, and the budget allows at least one
/// application, every pixel escapes at iteration 0: the image is uniformly the
/// color of escape count 0.
pub proof fn lemma_render_all_escape_at_once<Z, M, S, E>(
    width: usize,
    height: usize,
    sample: M,
    start: Z,
    step: S,
    escaped: E,
    iteration_max: usize,
    buf: Seq<Color>,
) where
    M: Fn(usize, usize) -> Z,
    S: Fn(Z, Z) -> Z,
    E: Fn(Z) -> bool,

    requires
        iteration_max >= 1,
        forall|x: usize, y: usize, c: Z, b: Z, t: bool|
            #![trigger sample.ensures((x, y), c), step.ensures((start, c), b), escaped.ensures((b,), t)]
            x < width && y < height && sample.ensures((x, y), c) && step.ensures((start, c), b)
                && escaped.ensures((b,), t) ==> t,
        is_grayscale_render(width, height, sample, start, step, escaped, iteration_max, buf),
    ensures
        forall|i: int| 0 <= i < buf.len() ==> (#[trigger] buf[i])@ == grayscale_channels(Some(0usize)),
{
    assert forall|i: int| 0 <= i < buf.len() implies (#[trigger] buf[i])@ == grayscale_channels(
        Some(0usize),
    ) by {
        let (x, y) = lemma_pixel_of_index(i, width, height);
        let col = buf[y * width + x];
        assert(is_pixel_color(sample, start, step, escaped, iteration_max, x, y, col));
        let (c, orbit, n) = choose|c: Z, orbit: Seq<Z>, n: Option<usize>|
            {
                &&& sample.ensures((x, y), c)
                &&& orbit[0] == start
                &&& escape_outcome(param_rule_of(step, c), test_of(escaped), orbit, iteration_max, n)
                &&& col@ == grayscale_channels(n)
            };
        assert forall|b: Z, t: bool| #![trigger param_rule_of(step, c)(start, b), test_of(escaped)(b, t)]
            param_rule_of(step, c)(start, b) && test_of(escaped)(b, t) implies t by {
            assert(sample.ensures((x, y), c));
            assert(step.ensures((start, c), b));
            assert(escaped.ensures((b,), t));
        }
        lemma_first_step_escapes(
            param_rule_of(step, c),
            test_of(escaped),
            start,
            iteration_max,
            orbit,
            n,
        );
    }
}

/// Renders a grayscale escape-time image: every pixel `(x, y)` gets the sample
/// `c = sample(x, y)`, the orbit of `z -> step(z, c)` from `start` is evaluated with
/// the escape test `escaped` and at most `iteration_max` applications, and the escape
/// result is classified by `escape_time_to_grayscale`. The pixels are computed in
/// parallel and laid out in row-major order.
///
/// For the Mandelbrot set, `start` is zero, `step(z, c)` is `z * z + c`, and
/// `escaped(z)` tells whether the squared magnitude of `z` exceeds 4.
pub fn render_grayscale<Z, M, S, E>(
    width: usize,
    height: usize,
    sample: M,
    start: Z,
    step: S,
    escaped: E,
    iteration_max: usize,
) -> (r: Result<Vec<Color>, RenderError>) where
    Z: Copy + Send + Sync,
    M: Fn(usize, usize) -> Z + Sync + Send,
    S: Fn(Z, Z) -> Z + Sync + Send,
    E: Fn(Z) -> bool + Sync + Send,

    requires
        width * height <= usize::MAX,
        forall|x: usize, y: usize| x < width && y < height ==> sample.requires((x, y)),
        forall|z: Z, c: Z| step.requires((z, c)),
        forall|z: Z| escaped.requires((z,)),
    ensures
        r is Err <==> (width == 0 || height == 0),
        r matches Err(e) ==> e == RenderError::EmptyImage,
        r matches Ok(buf) ==> is_grayscale_render(
            width,
            height,
            sample,
            start,
            step,
            escaped,
            iteration_max,
            buf@,
        ),
        r matches Ok(buf) ==> (iteration_max == 0 ==> forall|i: int|
            0 <= i < buf.len() ==> (#[trigger] buf[i])@ == grayscale_channels(None)),
{
    let sr = &sample;
    let tr = &step;
    let er = &escaped;
    let pixel = |x: usize, y: usize| -> (col: Color)
        requires
            x < width,
            y < height,
        ensures
            is_pixel_color(sr, start, tr, er, iteration_max, x, y, col),
            iteration_max == 0 ==> col@ == grayscale_channels(None),
        {
            let c = sr(x, y);
            let update = |z: Z| -> (next: Z)
                ensures
                    tr.ensures((z, c), next),
                { tr(z, c) };
            let n = escape_time(start, update, er, iteration_max);
            let col = escape_time_to_grayscale(n);
            proof {
                let orbit = choose|orbit: Seq<Z>|
                    orbit[0] == start && #[trigger] escape_outcome(
                        rule_of(update),
                        test_of(er),
                        orbit,
                        iteration_max,
                        n,
                    );
                lemma_escape_outcome_widen(
                    rule_of(update),
                    param_rule_of(tr, c),
                    test_of(er),
                    orbit,
                    iteration_max,
                    n,
                );
                assert(sr.ensures((x, y), c));
            }
            col
        };
    let r = render_with(width, height, pixel);
    proof {
        if r is Ok {
            let buf = r->Ok_0;
            assert forall|x: usize, y: usize| x < width && y < height implies is_pixel_color(
                sample,
                start,
                step,
                escaped,
                iteration_max,
                x,
                y,
                #[trigger] buf[y * width + x],
            ) by {
                let col = buf[y * width + x];
                assert(pixel.ensures((x, y), col));
                let (c, orbit, n) = choose|c: Z, orbit: Seq<Z>, n: Option<usize>|
                    {
                        &&& sr.ensures((x, y), c)
                        &&& orbit[0] == start
                        &&& escape_outcome(param_rule_of(tr, c), test_of(er), orbit, iteration_max, n)
                        &&& col@ == grayscale_channels(n)
                    };
                lemma_escape_outcome_widen(
                    param_rule_of(tr, c),
                    param_rule_of(step, c),
                    test_of(escaped),
                    orbit,
                    iteration_max,
                    n,
                );
                assert(sample.ensures((x, y), c));
            }
            if iteration_max == 0 {
                assert forall|i: int| 0 <= i < buf.len() implies (#[trigger] buf[i])@
                    == grayscale_channels(None) by {
                    let (x, y) = lemma_pixel_of_index(i, width, height);
                    assert(pixel.ensures((x, y), buf[y * width + x]));
                }
            }
        }
    }
    r
}

} // verus!
