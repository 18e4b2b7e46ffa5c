//! Synthetic grey images for trying the topological signature: a
//! checkerboard, vertical stripes and a reproducible noise. An image is its
//! pixels row by row, `width * height` of them.
use vstd::prelude::*;

verus! {

/// The position of pixel `(x, y)` in a row-by-row image of the given width.
pub open spec fn pixel_index(width: int, x: int, y: int) -> int {
    y * width + x
}

/// The image holds `pixel(x, y)` at each of its positions.
pub open spec fn image_is(img: Seq<u8>, width: int, height: int, pixel: spec_fn(int, int) -> u8) -> bool {
    &&& img.len() == width * height
    &&& forall|x: int, y: int|
        0 <= x < width && 0 <= y < height ==> #[trigger] img[pixel_index(width, x, y)] == pixel(x, y)
}

proof fn lemma_row_start(width: int, y: int)
    requires
        width >= 0,
        y >= 0,
    ensures
        (y + 1) * width == y * width + width,
        y * width >= 0,
{
    assert((y + 1) * width == y * width + width) by (nonlinear_arith);
    assert(y * width >= 0) by (nonlinear_arith)
        requires
            width >= 0,
            y >= 0,
    ;
}

proof fn lemma_earlier_rows(width: int, x: int, y: int, row: int)
    requires
        0 <= x < width,
        0 <= y < row,
    ensures
        pixel_index(width, x, y) + 1 <= row * width,
{
    assert(y * width + x + 1 <= row * width) by (nonlinear_arith)
        requires
            0 <= x < width,
            0 <= y < row,
    ;
}

/// Fills an image row by row from the pixel function of the caller's
/// choice: the common loop of the generators.
fn fill(width: u32, height: u32, pixel: impl Fn(u32, u32) -> u8, Ghost(spec_pixel): Ghost<spec_fn(int, int) -> u8>) -> (r: Vec<u8>)
    requires
        width as int * height as int <= usize::MAX,
        forall|x: u32, y: u32| x < width && y < height ==> call_requires(pixel, (x, y)),
        forall|x: u32, y: u32, v: u8|
            x < width && y < height && call_ensures(pixel, (x, y), v) ==> v == spec_pixel(x as int, y as int),
    ensures
        image_is(r@, width as int, height as int, spec_pixel),
{
    let mut img: Vec<u8> = Vec::new();
    let mut y: u32 = 0;
    let ghost w = width as int;
    while y < height
        invariant
            y <= height,
            w == width as int,
            width as int * height as int <= usize::MAX,
            forall|x: u32, y: u32| x < width && y < height ==> call_requires(pixel, (x, y)),
            forall|x: u32, y: u32, v: u8|
                x < width && y < height && call_ensures(pixel, (x, y), v) ==> v == spec_pixel(x as int, y as int),
            img@.len() == y as int * w,
            forall|px: int, py: int|
                0 <= px < w && 0 <= py < y ==> #[trigger] img@[pixel_index(w, px, py)] == spec_pixel(px, py),
        decreases height - y,
    {
        proof {
            lemma_row_start(w, y as int);
        }
        let mut x: u32 = 0;
        while x < width
            invariant
                x <= width,
                y < height,
                w == width as int,
                forall|x: u32, y: u32| x < width && y < height ==> call_requires(pixel, (x, y)),
                forall|x: u32, y: u32, v: u8|
                    x < width && y < height && call_ensures(pixel, (x, y), v) ==> v == spec_pixel(
                        x as int,
                        y as int,
                    ),
                img@.len() == y as int * w + x,
                forall|px: int, py: int|
                    0 <= px < w && 0 <= py < y ==> #[trigger] img@[pixel_index(w, px, py)] == spec_pixel(px, py),
                forall|px: int| 0 <= px < x ==> #[trigger] img@[pixel_index(w, px, y as int)] == spec_pixel(px, y as int),
            decreases width - x,
        {
            let v = pixel(x, y);
            let ghost before = img@;
            img.push(v);
            proof {
                assert forall|px: int, py: int| 0 <= px < w && 0 <= py < y implies #[trigger] img@[pixel_index(
                    w,
                    px,
                    py,
                )] == spec_pixel(px, py) by {
                    lemma_earlier_rows(w, px, py, y as int);
                    assert(img@[pixel_index(w, px, py)] == before[pixel_index(w, px, py)]);
                }
                assert forall|px: int| 0 <= px < x + 1 implies #[trigger] img@[pixel_index(w, px, y as int)]
                    == spec_pixel(px, y as int) by {
                    if px < x {
                        assert(img@[pixel_index(w, px, y as int)] == before[pixel_index(w, px, y as int)]);
                    }
                }
            }
            x = x + 1;
        }
        assert forall|px: int, py: int| 0 <= px < w && 0 <= py < y + 1 implies #[trigger] img@[pixel_index(
            w,
            px,
            py,
        )] == spec_pixel(px, py) by {
            if py == y as int {
                assert(img@[pixel_index(w, px, y as int)] == spec_pixel(px, y as int));
            }
        }
        y = y + 1;
    }
    assert(height as int * w == w * height as int) by (nonlinear_arith);
    img
}

/// A pixel of the checkerboard: dark (32) on even tiles, light (224) on odd ones.
pub open spec fn checker_pixel(x: int, y: int, tile: int) -> u8 {
    if (x / tile + y / tile) % 2 == 0 { 32 } else { 224 }
}

/// A checkerboard of square tiles of side `tile`.
pub fn generate_checkerboard(width: u32, height: u32, tile: u32) -> (r: Vec<u8>)
    requires
        tile > 0,
        width as int * height as int <= usize::MAX,
    ensures
        image_is(r@, width as int, height as int, |x: int, y: int| checker_pixel(x, y, tile as int)),
{
    let pixel = |x: u32, y: u32| -> (v: u8)
        ensures
            v == checker_pixel(x as int, y as int, tile as int),
        {
            let sum: u64 = (x / tile) as u64 + (y / tile) as u64;
            if sum % 2 == 0 { 32 } else { 224 }
        };
    fill(width, height, pixel, Ghost(|x: int, y: int| checker_pixel(x, y, tile as int)))
}

/// A pixel of the stripes: light (210) on even bands, dark (40) on odd ones.
pub open spec fn stripe_pixel(x: int, period: int) -> u8 {
    if (x / period) % 2 == 0 { 210 } else { 40 }
}

/// Vertical stripes of width `period`.
pub fn generate_stripes(width: u32, height: u32, period: u32) -> (r: Vec<u8>)
    requires
        period > 0,
        width as int * height as int <= usize::MAX,
    ensures
        image_is(r@, width as int, height as int, |x: int, y: int| stripe_pixel(x, period as int)),
{
    let pixel = |x: u32, y: u32| -> (v: u8)
        ensures
            v == stripe_pixel(x as int, period as int),
        {
            if (x / period) % 2 == 0 { 210 } else { 40 }
        };
    fill(width, height, pixel, Ghost(|x: int, y: int| stripe_pixel(x, period as int)))
}

/// The multiplier of the noise generator.
pub const NOISE_MULTIPLIER: u64 = 6364136223846793005;

/// The state of the noise generator after `k` steps: a linear congruential
/// generator modulo 2^64 started at `0x1234_5678`.
pub open spec fn noise_state(k: nat) -> u64
    decreases k,
{
    if k == 0 {
        0x1234_5678u64
    } else {
        vstd::wrapping::u64_specs::wrapping_add(
            vstd::wrapping::u64_specs::wrapping_mul(noise_state((k - 1) as nat), NOISE_MULTIPLIER),
            1,
        )
    }
}

/// The `k`-th pixel of the noise (row by row): bits 24 to 31 of the state
/// after `k + 1` steps.
pub open spec fn noise_pixel(k: nat) -> u8 {
    ((noise_state(k + 1) >> 24u64) & 0xffu64) as u8
}

/// Reproducible noise, pixel after pixel row by row.
pub fn generate_noise(width: u32, height: u32) -> (r: Vec<u8>)
    requires
        width as int * height as int <= usize::MAX,
    ensures
        r@.len() == width as int * height as int,
        forall|k: int| 0 <= k < r@.len() ==> #[trigger] r@[k] == noise_pixel(k as nat),
{
    let n: usize = (width as usize) * (height as usize);
    let mut img: Vec<u8> = Vec::new();
    let mut state: u64 = 0x1234_5678u64;
    let mut k: usize = 0;
    while k < n
        invariant
            k <= n,
            img@.len() == k,
            state == noise_state(k as nat),
            forall|j: int| 0 <= j < k ==> #[trigger] img@[j] == noise_pixel(j as nat),
        decreases n - k,
    {
        state = state.wrapping_mul(NOISE_MULTIPLIER).wrapping_add(1);
        img.push(((state >> 24) & 0xff) as u8);
        k = k + 1;
    }
    img
}

} // verus!
