//! Grayscale image → 1-bit bitmap conversion: scaling and dithering.

use crate::raster::binary32::Binary32;
use crate::raster::bitmap::{Bitmap, WIDTH};
use crate::raster::gray::GrayImage;
use vstd::prelude::*;
#[allow(unused_imports)]
use crate::raster::binary32::{difference, product, scaled_down, sum, whole};
#[allow(unused_imports)]
use crate::raster::bitmap::{blank_row_is_white, row_pixel, rows_fill_the_head, BYTES_PER_ROW};
#[allow(unused_imports)]
use crate::raster::gray::{
    flattened, in_rows, is_image, is_one_shade, is_uniform, lemma_rows_of_flattened,
    lemma_uniform_in_reading_order,
};
#[allow(unused_imports)]
use crate::raster::binary32::SIGNIFICAND_LIMIT;
#[allow(unused_imports)]
use crate::rounding::lemma_short_is_exact;
#[allow(unused_imports)]
use vstd::arithmetic::power2::{lemma2_to64, lemma_pow2_pos, pow2};

verus! {

/// Dithering algorithm used when reducing 8-bit grayscale to 1-bit.
#[derive(Debug, Clone, Copy, PartialEq, Eq, Structural)]
pub enum Dither {
    /// Floyd–Steinberg error diffusion.
    FloydSteinberg,
    /// Atkinson error diffusion, which drops a quarter of the error.
    Atkinson,
    /// Plain threshold at 128.
    Threshold,
}

/// Maximum output height of [`prepare`] in rows: about half a meter of
/// paper at 203 dpi.
pub const MAX_PREPARE_HEIGHT: u64 = 4096;

/// The height that keeps the aspect ratio at the print width, from 1 to 4096.
pub open spec fn prepared_height(width: u32, height: u32) -> int {
    let scaled = (384 * height) / width as int;
    if scaled < 1 {
        1
    } else if scaled > MAX_PREPARE_HEIGHT {
        MAX_PREPARE_HEIGHT as int
    } else {
        scaled
    }
}

/// The factor up to which a side may shrink with the rounding of the filter
/// still below half a shade.
pub const STEADY_SHRINK: u64 = 100;

/// Whether scaling from one size to another keeps flat areas flat: there is
/// something to scale, and neither side shrinks too much.
pub open spec fn is_steady(from: (u32, u32), to: (u32, u32)) -> bool {
    &&& 0 < from.0 <= STEADY_SHRINK * to.0
    &&& 0 < from.1 <= STEADY_SHRINK * to.1
}

/// Whether place `i` of `w` counts for place `x` of `nw` when a side is scaled:
/// the filter reaches no further than five times the coarser of the two pitches.
pub open spec fn is_near(i: int, w: int, x: int, nw: int) -> bool {
    let off = (2 * i + 1) * nw - (2 * x + 1) * w;
    let reach = 10 * if w > nw {
        w
    } else {
        nw
    };
    -reach <= off <= reach
}

/// Whether all pixels that count for the one in column `x` of row `y` of the
/// scaled picture are the same.
pub open spec fn is_flat<T>(
    rows: Seq<Seq<T>>,
    from: (u32, u32),
    to: (u32, u32),
    x: int,
    y: int,
    v: T,
) -> bool {
    forall|i: int, j: int|
        0 <= i < from.0 && 0 <= j < from.1 && is_near(i, from.0 as int, x, to.0 as int) && is_near(
            j,
            from.1 as int,
            y,
            to.1 as int,
        ) ==> #[trigger] rows[j][i] == v
}

/// Whether flat areas keep their shade.
pub open spec fn keeps_flats(
    rows: Seq<Seq<u8>>,
    from: (u32, u32),
    to: (u32, u32),
    out: Seq<Seq<u8>>,
) -> bool {
    forall|x: int, y: int, v: u8|
        0 <= x < to.0 && 0 <= y < to.1 && #[trigger] is_flat(rows, from, to, x, y, v) ==> out[y][x]
            == v
}

/// Whether scaling gray pixels (in reading order) may give `out`: of what the
/// filter gives, some depends on the machine's sine.
pub uninterp spec fn may_scale_to(
    raw: Seq<u8>,
    from: (u32, u32),
    to: (u32, u32),
    out: Seq<u8>,
) -> bool;

/// Whether `out` is a picture of `rows` (of the given width) scaled to the
/// print width. It is what scaling may give; a picture that has the size
/// already keeps its shades, flat areas keep theirs, and a picture without rows
/// comes out black.
pub open spec fn is_prepared(rows: Seq<Seq<u8>>, width: u32, out: Seq<Seq<u8>>) -> bool {
    if width == 0 {
        out == seq![Seq::new(384, |x: int| 255u8)]
    } else {
        let from = (width, rows.len() as u32);
        let to = (384u32, out.len() as u32);
        &&& out.len() == prepared_height(width, rows.len() as u32)
        &&& is_image(out, 384)
        &&& may_scale_to(flattened(rows), from, to, flattened(out))
        &&& width == 384 && rows.len() == out.len() ==> out == rows
        &&& rows.len() == 0 ==> is_uniform(out, 0)
        &&& is_steady(from, to) ==> keeps_flats(rows, from, to, out)
    }
}

/// `DynamicImage::resize_exact` of the `image` crate on an 8-bit grayscale
/// picture given as its pixels in reading order, with the Lanczos3 filter.
///
/// The result has the size asked for; a picture that has it already is copied,
/// and one without pixels comes out black. Each pixel is made of those within
/// three widths of the filter, with weights divided by their sum, so where
/// these have one shade it has that shade too, as long as no side shrinks so far
/// that rounding could add up to half a shade. Of other shades it is only said
/// that they are what scaling these pixels may give: the filter goes through
/// the machine's sine.
#[verifier::external_body]
fn resize_gray(width: u32, height: u32, raw: Vec<u8>, new_width: u32, new_height: u32) -> (out: Vec<
    u8,
>)
    requires
        raw@.len() == width * height,
        0 < new_width <= 384,
        0 < new_height <= 4096,
    ensures
        out@.len() == new_width * new_height,
        width == new_width && height == new_height ==> out@ == raw@,
        may_scale_to(raw@, (width, height), (new_width, new_height), out@),
        width == 0 || height == 0 ==> is_one_shade(out@, 0),
        is_steady((width, height), (new_width, new_height)) ==> keeps_flats(
            in_rows(raw@, width, height),
            (width, height),
            (new_width, new_height),
            in_rows(out@, new_width, new_height),
        ),
{
    let img: image::GrayImage = image::GrayImage::from_raw(width, height, raw).unwrap();
    image::DynamicImage::ImageLuma8(img)
        .resize_exact(new_width, new_height, image::imageops::FilterType::Lanczos3)
        .to_luma8()
        .into_raw()
}

/// The output height of [`prepare`].
pub fn prepare_height(width: u32, height: u32) -> (h: u32)
    requires
        width > 0,
    ensures
        h == prepared_height(width, height),
        1 <= h <= 4096,
{
    let scaled: u64 = (384 * (height as u64)) / (width as u64);
    if scaled < 1 {
        1
    } else if scaled > MAX_PREPARE_HEIGHT {
        MAX_PREPARE_HEIGHT as u32
    } else {
        scaled as u32
    }
}

/// Resize to the 384 px print width, preserving aspect ratio.
///
/// The output height is clamped to 4096 rows (~0.5 m of paper); taller
/// results are squashed to fit rather than erroring. A zero-width input
/// cannot be scaled and yields a 384x1 all-white image.
pub fn prepare(img: &GrayImage) -> (out: GrayImage)
    ensures
        out.spec_width() == 384,
        is_prepared(img@, img.spec_width(), out@),
{
    let width: u32 = img.width();
    let height: u32 = img.height();
    if width == 0 {
        let white: GrayImage = GrayImage::from_pixel(384, 1, 255);
        assert(white@ =~= seq![Seq::new(384, |x: int| 255u8)]);
        return white;
    }
    let new_height: u32 = prepare_height(width, height);
    let raw: Vec<u8> = resize_gray(width, height, img.to_raw(), 384, new_height);
    assert(384 * new_height == new_height * 384);
    let out: Option<GrayImage> = GrayImage::from_raw(384, new_height, raw.as_slice());
    let prepared: GrayImage = out.unwrap();
    proof {
        if width == 384 && img@.len() == new_height {
            crate::raster::gray::flattened_determines_image(prepared@, img@, 384);
        }
        lemma_uniform_in_reading_order(prepared@, 0);
        lemma_rows_of_flattened(img@, width);
    }
    prepared
}

/// A picture of one shade keeps it, unless it shrinks too much.
pub proof fn one_shade_stays(rows: Seq<Seq<u8>>, width: u32, out: Seq<Seq<u8>>, v: u8)
    requires
        is_image(rows, width),
        is_prepared(rows, width, out),
        is_steady((width, rows.len() as u32), (384, out.len() as u32)),
        is_uniform(rows, v),
    ensures
        is_uniform(out, v),
{
    let from = (width, rows.len() as u32);
    let to = (384u32, out.len() as u32);
    assert forall|x: int, y: int|
        0 <= y < out.len() && 0 <= x < out[y].len() implies #[trigger] out[y][x] == v by {
        assert(is_flat(rows, from, to, x, y, v));
    }
}

/// One receiver of a pixel's error: its place and its share.
#[derive(Debug, Clone, Copy)]
pub struct Share {
    pub dx: i64,
    pub dy: u64,
    pub weight: u8,
}

/// Who receives a pixel's error.
pub open spec fn kernel(dither: Dither) -> Seq<Share> {
    match dither {
        Dither::FloydSteinberg => seq![
            Share { dx: 1, dy: 0, weight: 7 },
            Share { dx: -1i64, dy: 1, weight: 3 },
            Share { dx: 0, dy: 1, weight: 5 },
            Share { dx: 1, dy: 1, weight: 1 },
        ],
        Dither::Atkinson => seq![
            Share { dx: 1, dy: 0, weight: 1 },
            Share { dx: 2, dy: 0, weight: 1 },
            Share { dx: -1i64, dy: 1, weight: 1 },
            Share { dx: 0, dy: 1, weight: 1 },
            Share { dx: 1, dy: 1, weight: 1 },
            Share { dx: 0, dy: 2, weight: 1 },
        ],
        Dither::Threshold => seq![],
    }
}

/// The shares are parts of 2^`share_bits`.
pub open spec fn share_bits(dither: Dither) -> nat {
    if dither == Dither::FloydSteinberg {
        4
    } else {
        3
    }
}

/// What a receiver gets of an error.
pub open spec fn part_of(err: int, weight: int, bits: nat) -> int {
    scaled_down(product(err, weight), pow2(bits) as int)
}

/// Whether a receiver lies inside the picture.
pub open spec fn lands(share: Share, w: int, h: int, x: int, y: int) -> bool {
    0 <= x + share.dx < w && y + share.dy < h
}

/// The values once the first `n` receivers have got their part of the error of
/// the pixel in column `x` of row `y`.
pub open spec fn spread(
    values: Seq<int>,
    w: int,
    h: int,
    x: int,
    y: int,
    err: int,
    dither: Dither,
    n: nat,
) -> Seq<int>
    decreases n,
{
    if n == 0 {
        values
    } else {
        let before = spread(values, w, h, x, y, err, dither, (n - 1) as nat);
        let share = kernel(dither)[n - 1];
        if lands(share, w, h, x, y) {
            let at = (y + share.dy) * w + (x + share.dx);
            before.update(
                at,
                sum(before[at], part_of(err, share.weight as int, share_bits(dither))),
            )
        } else {
            before
        }
    }
}

/// The shades of a picture cut to `w` columns, in reading order.
pub open spec fn shades(rows: Seq<Seq<u8>>, w: int) -> Seq<int> {
    Seq::new((rows.len() * w) as nat, |k: int| whole(rows[k / w][k % w] as int))
}

/// Whether a value is nearer to black.
pub open spec fn is_dark(value: int) -> bool {
    value < whole(128)
}

/// The error of a pixel once it is black or white.
pub open spec fn error_of(value: int) -> int {
    difference(
        value,
        if is_dark(value) {
            0
        } else {
            whole(255)
        },
    )
}

/// The values once the first `i` pixels in reading order have been decided.
pub open spec fn diffused(rows: Seq<Seq<u8>>, w: int, dither: Dither, i: nat) -> Seq<int>
    decreases i,
{
    if i == 0 {
        shades(rows, w)
    } else {
        let before = diffused(rows, w, dither, (i - 1) as nat);
        spread(
            before,
            w,
            rows.len() as int,
            (i - 1) % w,
            (i - 1) / w,
            error_of(before[i - 1]),
            dither,
            kernel(dither).len(),
        )
    }
}

/// The columns of a picture that are printed.
pub open spec fn printed_width(width: u32) -> int {
    if width < WIDTH {
        width as int
    } else {
        WIDTH as int
    }
}

/// Whether a pixel of a picture cut to `w` columns is printed black.
pub open spec fn is_black(rows: Seq<Seq<u8>>, w: int, dither: Dither, x: int, y: int) -> bool {
    if dither == Dither::Threshold {
        rows[y][x] < 128
    } else {
        is_dark(diffused(rows, w, dither, (y * w + x) as nat)[y * w + x])
    }
}

/// Whether the packed rows `out` are the 1-bit form of a picture.
pub open spec fn is_dithered(
    rows: Seq<Seq<u8>>,
    width: u32,
    dither: Dither,
    out: Seq<Seq<u8>>,
) -> bool {
    let w = printed_width(width);
    &&& out.len() == rows.len()
    &&& forall|y: int| 0 <= y < out.len() ==> (#[trigger] out[y]).len() == BYTES_PER_ROW
    &&& forall|x: int, y: int|
        0 <= x < WIDTH && 0 <= y < rows.len() ==> #[trigger] row_pixel(out[y], x) == (x < w && is_black(
            rows,
            w,
            dither,
            x,
            y,
        ))
}

fn kernel_of(dither: Dither) -> (shares: Vec<Share>)
    ensures
        shares@ == kernel(dither),
{
    let mut shares: Vec<Share> = Vec::new();
    match dither {
        Dither::FloydSteinberg => {
            shares.push(Share { dx: 1, dy: 0, weight: 7 });
            shares.push(Share { dx: -1, dy: 1, weight: 3 });
            shares.push(Share { dx: 0, dy: 1, weight: 5 });
            shares.push(Share { dx: 1, dy: 1, weight: 1 });
        },
        Dither::Atkinson => {
            shares.push(Share { dx: 1, dy: 0, weight: 1 });
            shares.push(Share { dx: 2, dy: 0, weight: 1 });
            shares.push(Share { dx: -1, dy: 1, weight: 1 });
            shares.push(Share { dx: 0, dy: 1, weight: 1 });
            shares.push(Share { dx: 1, dy: 1, weight: 1 });
            shares.push(Share { dx: 0, dy: 2, weight: 1 });
        },
        Dither::Threshold => {},
    }
    assert(shares@ =~= kernel(dither));
    shares
}

/// The numbers that a buffer holds.
spec fn numbers(buf: Seq<Binary32>) -> Seq<int> {
    Seq::new(buf.len(), |k: int| buf[k]@)
}

/// Whether every number of a buffer is in order and below a bound.
spec fn in_order(buf: Seq<Binary32>, bound: int) -> bool {
    forall|k: int|
        0 <= k < buf.len() ==> (#[trigger] buf[k]).wf() && buf[k].spec_exponent() <= bound
}

proof fn lemma_place(w: int, h: int, x: int, y: int)
    requires
        0 <= x < w,
        0 <= y < h,
    ensures
        0 <= y * w + x < h * w,
        (y * w + x) / w == y,
        (y * w + x) % w == x,
        y * w >= 0,
{
    assert(0 <= y * w && y * w + w <= h * w) by (nonlinear_arith)
        requires
            0 <= y,
            y + 1 <= h,
            0 < w,
    ;
    vstd::arithmetic::div_mod::lemma_fundamental_div_mod_converse(y * w + x, w, y, x);
}

/// Hands the error of one pixel to its receivers.
fn spread_error(
    buf: &mut Vec<Binary32>,
    w: usize,
    h: usize,
    x: usize,
    y: usize,
    err: Binary32,
    dither: Dither,
    shares: &Vec<Share>,
    bound: Ghost<int>,
)
    requires
        dither != Dither::Threshold,
        shares@ == kernel(dither),
        old(buf)@.len() == h * w,
        x < w <= 384,
        y < h <= u32::MAX,
        in_order(old(buf)@, bound@),
        err.wf(),
        err.spec_exponent() <= bound@ + 40,
        0 <= bound@ < 0x0fff_ffff_0000_0000,
    ensures
        numbers(final(buf)@) == spread(
            numbers(old(buf)@),
            w as int,
            h as int,
            x as int,
            y as int,
            err@,
            dither,
            kernel(dither).len(),
        ),
        final(buf)@.len() == old(buf)@.len(),
        in_order(final(buf)@, bound@ + 1000),
{
    let bits: u64 = if dither == Dither::FloydSteinberg {
        4
    } else {
        3
    };
    let ghost start = numbers(buf@);
    let mut n: usize = 0;
    while n < shares.len()
        invariant
            n <= shares@.len(),
            shares@.len() <= 6,
            shares@ == kernel(dither),
            dither != Dither::Threshold,
            bits == share_bits(dither),
            buf@.len() == h * w,
            x < w <= 384,
            y < h <= u32::MAX,
            err.wf(),
            err.spec_exponent() <= bound@ + 40,
            0 <= bound@ < 0x0fff_ffff_0000_0000,
            in_order(buf@, bound@ + 160 * n),
            numbers(buf@) == spread(
                start,
                w as int,
                h as int,
                x as int,
                y as int,
                err@,
                dither,
                n as nat,
            ),
        decreases shares@.len() - n,
    {
        let share: Share = shares[n];
        let ghost before = numbers(buf@);
        assert(share == kernel(dither)[n as int]);
        assert(-1 <= share.dx <= 2 && share.dy <= 2);
        let column: i64 = (x as i64) + share.dx;
        let row: u64 = (y as u64) + share.dy;
        if column >= 0 && column < (w as i64) && row < (h as u64) {
            proof {
                lemma_place(w as int, h as int, column as int, row as int);
            }
            assert(buf@.len() == buf.len());
            let at: usize = (row as usize) * w + (column as usize);
            let part: Binary32 = err.times(share.weight).halved(bits);
            let value: Binary32 = buf[at].plus(part);
            buf.set(at, value);
            assert(numbers(buf@) =~= before.update(at as int, value@));
        }
        n = n + 1;
    }
}

/// The buffer that error diffusion works on.
fn load_shades(img: &GrayImage, w: usize) -> (buf: Vec<Binary32>)
    requires
        w <= img.spec_width(),
        is_image(img@, img.spec_width()),
        w > 0,
    ensures
        numbers(buf@) == shades(img@, w as int),
        in_order(buf@, 149),
        buf@.len() == img@.len() * w,
{
    let h: u32 = img.height();
    let mut buf: Vec<Binary32> = Vec::new();
    let mut y: u32 = 0;
    while y < h
        invariant
            y <= h,
            h == img@.len(),
            0 < w <= img.spec_width(),
            buf@.len() == y * w,
            in_order(buf@, 149),
            forall|k: int|
                0 <= k < buf@.len() ==> (#[trigger] buf@[k])@ == whole(
                    img@[k / w as int][k % w as int] as int,
                ),
        decreases h - y,
    {
        let line: &Vec<u8> = img.row(y);
        let mut x: usize = 0;
        while x < w
            invariant
                x <= w,
                y < h,
                h == img@.len(),
                line@ == img@[y as int],
                line@.len() == img.spec_width(),
                0 < w <= img.spec_width(),
                buf@.len() == y * w + x,
                in_order(buf@, 149),
                forall|k: int|
                    0 <= k < buf@.len() ==> (#[trigger] buf@[k])@ == whole(
                        img@[k / w as int][k % w as int] as int,
                    ),
            decreases w - x,
        {
            proof {
                lemma_place(w as int, h as int, x as int, y as int);
            }
            buf.push(Binary32::from_byte(line[x]));
            x = x + 1;
        }
        assert(y * w + w == (y + 1) * w) by (nonlinear_arith);
        y = y + 1;
    }
    assert(numbers(buf@) =~= shades(img@, w as int));
    buf
}

/// Error diffusion over a picture cut to `w` columns.
fn diffuse(img: &GrayImage, w: usize, dither: Dither) -> (bitmap: Bitmap)
    requires
        0 < w <= 384,
        w <= img.spec_width(),
        is_image(img@, img.spec_width()),
        dither != Dither::Threshold,
    ensures
        bitmap@.len() == img@.len(),
        forall|x: int, y: int|
            0 <= x < WIDTH && 0 <= y < img@.len() ==> #[trigger] bitmap.black(x, y) == (x < w
                && is_black(img@, w as int, dither, x, y)),
{
    let h: usize = img.height() as usize;
    let mut buf: Vec<Binary32> = load_shades(img, w);
    let shares: Vec<Share> = kernel_of(dither);
    let mut bitmap: Bitmap = Bitmap::new(h);
    proof {
        assert forall|x: int, y: int| 0 <= x < WIDTH && 0 <= y < h implies !(
        #[trigger] bitmap.black(x, y)) by {
            blank_row_is_white(x);
        }
    }
    let mut y: usize = 0;
    while y < h
        invariant
            y <= h,
            h == img@.len(),
            h <= u32::MAX,
            0 < w <= 384,
            dither != Dither::Threshold,
            shares@ == kernel(dither),
            buf@.len() == h * w,
            in_order(buf@, 149 + 1000 * (y * w)),
            numbers(buf@) == diffused(img@, w as int, dither, (y * w) as nat),
            bitmap@.len() == h,
            forall|u: int, v: int|
                0 <= u < WIDTH && 0 <= v < h ==> #[trigger] bitmap.black(u, v) == (u < w && v < y
                    && is_black(img@, w as int, dither, u, v)),
        decreases h - y,
    {
        let mut x: usize = 0;
        while x < w
            invariant
                x <= w,
                y < h,
                h == img@.len(),
                h <= u32::MAX,
                0 < w <= 384,
                dither != Dither::Threshold,
                shares@ == kernel(dither),
                buf@.len() == h * w,
                in_order(buf@, 149 + 1000 * (y * w + x)),
                numbers(buf@) == diffused(img@, w as int, dither, (y * w + x) as nat),
                bitmap@.len() == h,
                forall|u: int, v: int|
                    0 <= u < WIDTH && 0 <= v < h ==> #[trigger] bitmap.black(u, v) == (u < w && (v
                        < y || (v == y && u < x)) && is_black(img@, w as int, dither, u, v)),
            decreases w - x,
        {
            let ghost i: nat = (y * w + x) as nat;
            let ghost bound: int = 149 + 1000 * (y * w + x);
            proof {
                lemma_place(w as int, h as int, x as int, y as int);
                assert(i < h * w <= u32::MAX * 384) by (nonlinear_arith)
                    requires
                        i < h * w,
                        h <= u32::MAX,
                        w <= 384,
                ;
            }
            assert(buf@.len() == buf.len());
            let at: usize = y * w + x;
            let value: Binary32 = buf[at];
            assert(value@ == diffused(img@, w as int, dither, i)[i as int]);
            let black: bool = value.is_below_128();
            let ghost drawn = bitmap;
            bitmap.set(x, y, black);
            let target: Binary32 = Binary32::from_byte(
                if black {
                    0
                } else {
                    255
                },
            );
            assert(whole(0) == 0) by (nonlinear_arith);
            let err: Binary32 = value.minus(target);
            assert(err@ == error_of(value@));
            spread_error(&mut buf, w, h, x, y, err, dither, &shares, Ghost(bound));
            proof {
                assert(diffused(img@, w as int, dither, (i + 1) as nat) == numbers(buf@));
                assert forall|u: int, v: int| 0 <= u < WIDTH && 0 <= v < h implies (
                #[trigger] bitmap.black(u, v)) == (u < w && (v < y || (v == y && u < x + 1))
                    && is_black(img@, w as int, dither, u, v)) by {
                    if u != x || v != y {
                        assert(bitmap.black(u, v) == drawn.black(u, v));
                    }
                }
            }
            x = x + 1;
        }
        assert(y * w + w == (y + 1) * w) by (nonlinear_arith);
        y = y + 1;
    }
    bitmap
}

/// Threshold at 128 over a picture cut to `w` columns.
fn threshold(img: &GrayImage, w: usize) -> (bitmap: Bitmap)
    requires
        w <= 384,
        w <= img.spec_width(),
        is_image(img@, img.spec_width()),
    ensures
        bitmap@.len() == img@.len(),
        forall|x: int, y: int|
            0 <= x < WIDTH && 0 <= y < img@.len() ==> #[trigger] bitmap.black(x, y) == (x < w
                && img@[y][x] < 128),
{
    let h: u32 = img.height();
    let mut bitmap: Bitmap = Bitmap::new(h as usize);
    proof {
        assert forall|x: int, y: int| 0 <= x < WIDTH && 0 <= y < h implies !(
        #[trigger] bitmap.black(x, y)) by {
            blank_row_is_white(x);
        }
    }
    let mut y: u32 = 0;
    while y < h
        invariant
            y <= h,
            h == img@.len(),
            w <= 384,
            w <= img.spec_width(),
            bitmap@.len() == h,
            forall|u: int, v: int|
                0 <= u < WIDTH && 0 <= v < h ==> #[trigger] bitmap.black(u, v) == (u < w && v < y
                    && img@[v][u] < 128),
        decreases h - y,
    {
        let line: &Vec<u8> = img.row(y);
        let mut x: usize = 0;
        while x < w
            invariant
                x <= w,
                y < h,
                h == img@.len(),
                w <= 384,
                line@ == img@[y as int],
                w <= line@.len(),
                bitmap@.len() == h,
                forall|u: int, v: int|
                    0 <= u < WIDTH && 0 <= v < h ==> #[trigger] bitmap.black(u, v) == (u < w && (v
                        < y || (v == y && u < x)) && img@[v][u] < 128),
            decreases w - x,
        {
            let ghost drawn = bitmap;
            bitmap.set(x, y as usize, line[x] < 128);
            proof {
                assert forall|u: int, v: int| 0 <= u < WIDTH && 0 <= v < h implies (
                #[trigger] bitmap.black(u, v)) == (u < w && (v < y || (v == y && u < x + 1))
                    && img@[v][u] < 128) by {
                    if u != x || v != y {
                        assert(bitmap.black(u, v) == drawn.black(u, v));
                    }
                }
            }
            x = x + 1;
        }
        y = y + 1;
    }
    bitmap
}

/// Convert a grayscale image to a 1-bit bitmap (bit 1 = black).
///
/// Images narrower than 384 px leave the right margin white. Images wider
/// than 384 px are truncated on the right — call [`prepare`] first to scale.
pub fn image_to_bitmap(img: &GrayImage, dither: Dither) -> (bitmap: Bitmap)
    ensures
        is_dithered(img@, img.spec_width(), dither, bitmap@),
{
    let width: usize = img.width() as usize;
    let w: usize = if width < WIDTH {
        width
    } else {
        WIDTH
    };
    let bitmap: Bitmap = if dither == Dither::Threshold || w == 0 {
        threshold(img, w)
    } else {
        diffuse(img, w, dither)
    };
    proof {
        rows_fill_the_head(&bitmap);
        assert forall|x: int, y: int|
            0 <= x < WIDTH && 0 <= y < img@.len() implies #[trigger] row_pixel(bitmap@[y], x) == (x
            < w && is_black(img@, w as int, dither, x, y)) by {
            assert(bitmap.black(x, y) == row_pixel(bitmap@[y], x));
        }
    }
    bitmap
}

/// Whether every printed pixel of a picture is black or white already.
pub open spec fn is_two_tone(rows: Seq<Seq<u8>>, w: int) -> bool {
    forall|x: int, y: int|
        0 <= x < w && 0 <= y < rows.len() ==> #[trigger] rows[y][x] == 0 || rows[y][x] == 255
}

proof fn lemma_no_error(v: u8, dither: Dither, weight: int)
    requires
        v == 0 || v == 255,
    ensures
        is_dark(whole(v as int)) == (v == 0),
        error_of(whole(v as int)) == 0,
        part_of(0, weight, share_bits(dither)) == 0,
        sum(whole(v as int), 0) == whole(v as int),
{
    lemma_pow2_pos(149);
    lemma_pow2_pos(share_bits(dither));
    lemma_short_is_exact(0, 0, SIGNIFICAND_LIMIT as nat);
    lemma_short_is_exact(v as nat, 149, SIGNIFICAND_LIMIT as nat);
    let one = pow2(149) as int;
    assert(0 * pow2(0) == 0) by (nonlinear_arith);
    assert(0 * one == 0 && 0 * one < 128 * one && 128 * one < 255 * one && 0 <= v * one)
        by (nonlinear_arith)
        requires
            one > 0,
            v >= 0,
    ;
    assert(0 * weight == 0) by (nonlinear_arith);
    let d = pow2(share_bits(dither)) as int;
    assert(0int / d == 0 && 0int % d == 0) by (nonlinear_arith)
        requires
            d > 0,
    ;
}

proof fn lemma_spread_nothing(
    rows: Seq<Seq<u8>>,
    w: int,
    x: int,
    y: int,
    dither: Dither,
    n: nat,
)
    requires
        0 <= x < w,
        0 <= y < rows.len(),
        is_two_tone(rows, w),
        n <= kernel(dither).len(),
    ensures
        spread(shades(rows, w), w, rows.len() as int, x, y, 0, dither, n) == shades(rows, w),
    decreases n,
{
    if n > 0 {
        lemma_spread_nothing(rows, w, x, y, dither, (n - 1) as nat);
        let share = kernel(dither)[n - 1];
        if lands(share, w, rows.len() as int, x, y) {
            let u = x + share.dx;
            let v = y + share.dy;
            lemma_place(w, rows.len() as int, u, v);
            lemma_no_error(rows[v][u], dither, share.weight as int);
            let all = shades(rows, w);
            assert(all[v * w + u] == whole(rows[v][u] as int));
            assert(all.update(v * w + u, all[v * w + u]) =~= all);
        }
    }
}

proof fn lemma_nothing_diffuses(rows: Seq<Seq<u8>>, w: int, dither: Dither, i: nat)
    requires
        w > 0,
        is_two_tone(rows, w),
        i <= rows.len() * w,
    ensures
        diffused(rows, w, dither, i) == shades(rows, w),
    decreases i,
{
    if i > 0 {
        lemma_nothing_diffuses(rows, w, dither, (i - 1) as nat);
        let at = i - 1;
        let x = at % w;
        let y = at / w;
        assert(0 <= x < w && 0 <= y < rows.len() && y * w + x == at) by (nonlinear_arith)
            requires
                w > 0,
                0 <= at < rows.len() * w,
                x == at % w,
                y == at / w,
        ;
        lemma_no_error(rows[y][x], dither, 1);
        lemma_spread_nothing(rows, w, x, y, dither, kernel(dither).len());
    }
}

/// A picture that is black and white already comes out as it is, whichever
/// algorithm is used: there is no error to pass on.
pub proof fn black_and_white_stays(
    rows: Seq<Seq<u8>>,
    width: u32,
    dither: Dither,
    x: int,
    y: int,
)
    requires
        0 <= x < printed_width(width),
        0 <= y < rows.len(),
        is_two_tone(rows, printed_width(width)),
    ensures
        is_black(rows, printed_width(width), dither, x, y) == (rows[y][x] == 0),
{
    let w = printed_width(width);
    if dither != Dither::Threshold {
        lemma_place(w, rows.len() as int, x, y);
        lemma_nothing_diffuses(rows, w, dither, (y * w + x) as nat);
        lemma_no_error(rows[y][x], dither, 1);
    }
}

} // verus!
