use rayon::iter::{IntoParallelIterator, ParallelIterator};
use vstd::arithmetic::div_mod::{lemma_fundamental_div_mod, lemma_fundamental_div_mod_converse};
use vstd::prelude::*;

verus! {

/// Why a render was refused before any pixel was computed.
#[derive(Debug, Clone, Copy, PartialEq, Eq, Structural)]
pub enum RenderError {
    /// The image has no pixel: its width or its height is zero.
    EmptyImage,
    /// The viewport has zero width or zero height on the complex plane.
    DegenerateViewport,
}

/// Row-major layout: the pixel in column `x` of row `y` sits at `y * width + x`,
/// and that index gives back the column and the row.
pub proof fn lemma_row_major(x: int, y: int, width: int, height: int)
    requires
        0 <= x < width,
        0 <= y < height,
    ensures
        0 <= y * width + x < width * height,
        (y * width + x) % width == x,
        (y * width + x) / width == y,
{
    lemma_fundamental_div_mod_converse(y * width + x, width, y, x);
    assert(y * width + x < width * height) by (nonlinear_arith)
        requires
            0 <= x < width,
            0 <= y < height,
    ;
    assert(0 <= y * width) by (nonlinear_arith)
        requires
            0 <= x < width,
            0 <= y,
    ;
}

/// Every row-major index inside a `width` by `height` image is that of one pixel.
pub proof fn lemma_pixel_of_index(i: int, width: usize, height: usize) -> (r: (usize, usize))
    requires
        0 <= i < width * height,
    ensures
        r.0 == i % width as int,
        r.1 == i / width as int,
        r.0 < width,
        r.1 < height,
        r.1 * width + r.0 == i,
{
    assert(width > 0) by (nonlinear_arith)
        requires
            0 <= i < width * height,
    ;
    lemma_fundamental_div_mod(i, width as int);
    let q = i / width as int;
    let m = i % width as int;
    assert(0 <= q < height) by (nonlinear_arith)
        requires
            0 <= i < width * height,
            i == width * q + m,
            0 <= m < width,
    ;
    assert(q * width + m == i) by (nonlinear_arith)
        requires
            i == width * q + m,
    ;
    (m as usize, q as usize)
}

/// The column and the row of the pixel at row-major `index` in an image `width` wide.
pub fn pixel_position(index: usize, width: usize, height: usize) -> (r: (usize, usize))
    requires
        index < width * height,
    ensures
        r.0 == index % width,
        r.1 == index / width,
        r.0 < width,
        r.1 < height,
        r.1 * width + r.0 == index,
{
    proof {
        lemma_pixel_of_index(index as int, width, height);
    }
    (index % width, index / width)
}

/// The row-major index of the pixel in column `x` of row `y`.
pub fn pixel_index(x: usize, y: usize, width: usize, height: usize) -> (r: usize)
    requires
        x < width,
        y < height,
        width * height <= usize::MAX,
    ensures
        r == y * width + x,
        r < width * height,
{
    proof {
        lemma_row_major(x as int, y as int, width as int, height as int);
    }
    y * width + x
}

/// Relies on rayon's `into_par_iter` on `0..len`, `map` and `collect` into a `Vec`:
/// an indexed parallel iterator is collected in index order, one result per index.
#[verifier::external_body]
fn par_map_indices<T: Send, F: Fn(usize) -> T + Sync + Send>(len: usize, f: F) -> (r: Vec<T>)
    requires
        forall|i: usize| i < len ==> f.requires((i,)),
    ensures
        r.len() == len,
        forall|i: int| 0 <= i < len ==> f.ensures((i as usize,), #[trigger] r[i]),
{
    (0..len).into_par_iter().map(f).collect()
}

/// Computes `pixel(x, y)` for every pixel of a `width` by `height` image, in
/// parallel, and lays the results out in row-major order.
pub fn render_with<T: Send, F: Fn(usize, usize) -> T + Sync + Send>(
    width: usize,
    height: usize,
    pixel: F,
) -> (r: Result<Vec<T>, RenderError>)
    requires
        width * height <= usize::MAX,
        forall|x: usize, y: usize| x < width && y < height ==> pixel.requires((x, y)),
    ensures
        r is Err <==> (width == 0 || height == 0),
        r matches Err(e) ==> e == RenderError::EmptyImage,
        r matches Ok(buf) ==> {
            &&& buf.len() == width * height
            &&& forall|x: usize, y: usize|
                x < width && y < height ==> pixel.ensures((x, y), #[trigger] buf[y * width + x])
        },
{
    if width == 0 || height == 0 {
        return Err(RenderError::EmptyImage);
    }
    let len = width * height;
    let p = &pixel;
    let at = |i: usize| -> (v: T)
        requires
            i < len,
        ensures
            p.ensures(((i % width) as usize, (i / width) as usize), v),
        {
            let (x, y) = pixel_position(i, width, height);
            p(x, y)
        };
    let buf = par_map_indices(len, at);
    assert forall|x: usize, y: usize| x < width && y < height implies pixel.ensures(
        (x, y),
        #[trigger] buf[y * width + x],
    ) by {
        lemma_row_major(x as int, y as int, width as int, height as int);
        assert(at.ensures(((y * width + x) as usize,), buf[y * width + x]));
    }
    Ok(buf)
}

} // verus!
