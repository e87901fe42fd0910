//! PNG preview export for 1-bit bitmaps.

use crate::raster::bitmap::{Bitmap, WIDTH};
use vstd::prelude::*;
#[allow(unused_imports)]
use crate::raster::bitmap::{pixels_determine_row, row_pixel, rows_fill_the_head};
#[allow(unused_imports)]
use crate::raster::dither::{
    black_and_white_stays, is_dithered, is_prepared, is_two_tone, prepared_height, Dither,
};
#[allow(unused_imports)]
use crate::raster::gray::in_rows;
#[allow(unused_imports)]
use crate::raster::picture::{
    decoded, gray_pixels, is_picture_print, is_prepared_picture, picture_size,
};

verus! {

/// The bytes of an 8-bit grayscale PNG made of the given pixels, in reading
/// order.
pub uninterp spec fn png_bytes(width: u32, height: u32, pixels: Seq<u8>) -> Seq<u8>;

/// How many pixels a PNG may have for it to be said that decoding gives them
/// back: far below what the decoder sets aside memory for.
pub const SMALL_PNG: u64 = 0x400_0000;

/// Whether a file decodes to an 8-bit grayscale picture of the given pixels.
pub open spec fn decodes_to(png: Seq<u8>, width: u32, height: u32, pixels: Seq<u8>) -> bool {
    decoded(png) matches Ok(picture) && picture_size(picture) == (width, height) && gray_pixels(
        picture,
    ) == Some(pixels)
}

/// The rows of a preview: as many as the bitmap has, and one for an empty one.
pub open spec fn preview_height(b: &Bitmap) -> nat {
    if b@.len() == 0 {
        1
    } else {
        b@.len()
    }
}

/// The pixels of a preview in reading order: black is 0, white is 255.
pub open spec fn preview_shades(b: &Bitmap) -> Seq<u8> {
    Seq::new(
        preview_height(b) * 384,
        |i: int|
            if i / 384 < b@.len() && b.black(i % 384, i / 384) {
                0u8
            } else {
                255u8
            },
    )
}

/// `ImageBuffer::write_to` of the `image` crate with the PNG format, into
/// memory, on an 8-bit grayscale buffer. The bytes depend on the size and the
/// pixels alone; encoding to memory fails only for an empty picture. The format
/// loses nothing, so decoding a file that is not too large gives the pixels
/// back.
#[verifier::external_body]
fn encode_png(width: u32, height: u32, pixels: Vec<u8>) -> (png: Vec<u8>)
    requires
        0 < width,
        0 < height,
        pixels@.len() == width * height,
    ensures
        png@ == png_bytes(width, height, pixels@),
        width * height <= SMALL_PNG ==> decodes_to(png@, width, height, pixels@),
{
    let img: image::GrayImage = image::GrayImage::from_raw(width, height, pixels).unwrap();
    let mut out = std::io::Cursor::new(Vec::new());
    img.write_to(&mut out, image::ImageFormat::Png).unwrap();
    out.into_inner()
}

/// The pixels that a preview shows.
pub fn preview_pixels(b: &Bitmap) -> (pixels: Vec<u8>)
    ensures
        pixels@ == preview_shades(b),
{
    let height: usize = if b.height() == 0 {
        1
    } else {
        b.height()
    };
    let mut pixels: Vec<u8> = Vec::new();
    let mut y: usize = 0;
    while y < height
        invariant
            y <= height,
            height == preview_height(b),
            pixels@ == preview_shades(b).take(y * 384),
        decreases height - y,
    {
        let mut x: usize = 0;
        while x < WIDTH
            invariant
                x <= WIDTH,
                y < height,
                height == preview_height(b),
                pixels@ == preview_shades(b).take(y * 384 + x),
            decreases WIDTH - x,
        {
            let ghost i: int = y * 384 + x;
            assert(i / 384 == y && i % 384 == x);
            assert(i < preview_height(b) * 384);
            let black: bool = y < b.height() && b.get(x, y);
            pixels.push(
                if black {
                    0
                } else {
                    255
                },
            );
            assert(pixels@ =~= preview_shades(b).take(i + 1));
            x = x + 1;
        }
        y = y + 1;
    }
    assert(pixels@ =~= preview_shades(b));
    pixels
}

/// Encode a bitmap as an 8-bit grayscale PNG (black = 0, white = 255).
///
/// A zero-height bitmap yields a 384x1 all-white PNG, since the image crate
/// cannot encode zero-height images.
pub fn bitmap_to_png(b: &Bitmap) -> (png: Vec<u8>)
    requires
        b@.len() <= u32::MAX,
    ensures
        png@ == png_bytes(384, preview_height(b) as u32, preview_shades(b)),
        384 * preview_height(b) <= SMALL_PNG ==> decodes_to(
            png@,
            384,
            preview_height(b) as u32,
            preview_shades(b),
        ),
{
    let height: u32 = if b.height() == 0 {
        1
    } else {
        b.height() as u32
    };
    encode_png(384, height, preview_pixels(b))
}

/// Each pixel of a bitmap stands in its preview, black for black.
pub proof fn preview_shows_every_pixel(b: &Bitmap, x: int, y: int)
    requires
        0 <= x < 384,
        0 <= y < b@.len(),
    ensures
        preview_shades(b)[y * 384 + x] == if b.black(x, y) {
            0u8
        } else {
            255u8
        },
{
    let i = y * 384 + x;
    assert(i / 384 == y && i % 384 == x);
}

/// Turning a preview back into a bitmap gives the rows of the bitmap that it
/// shows, by the threshold or by either way of spreading errors.
pub proof fn preview_gives_the_rows_back(b: &Bitmap, dither: Dither, out: Seq<Seq<u8>>)
    requires
        0 < b@.len() <= u32::MAX,
        is_dithered(in_rows(preview_shades(b), 384, b@.len() as u32), 384, dither, out),
    ensures
        out == b@,
{
    let shades = preview_shades(b);
    let rows = in_rows(shades, 384, b@.len() as u32);
    rows_fill_the_head(b);
    assert forall|x: int, y: int| 0 <= x < 384 && 0 <= y < rows.len() implies #[trigger] rows[y][x]
        == if b.black(x, y) {
        0u8
    } else {
        255u8
    } by {
        assert(shades.len() >= y * 384 + 384);
        assert(rows[y] == shades.subrange(y * 384, y * 384 + 384));
        preview_shows_every_pixel(b, x, y);
    }
    assert(is_two_tone(rows, 384));
    assert forall|y: int| 0 <= y < b@.len() implies out[y] == b@[y] by {
        assert forall|x: int| 0 <= x < WIDTH implies #[trigger] row_pixel(out[y], x) == row_pixel(
            b@[y],
            x,
        ) by {
            black_and_white_stays(rows, 384, dither, x, y);
            assert(rows[y][x] == if b.black(x, y) {
                0u8
            } else {
                255u8
            });
        }
        assert(out[y].len() == 48);
        pixels_determine_row(out[y], b@[y]);
    }
    assert(out =~= b@);
}

/// Printing a preview file prints what it shows: a bitmap of up to 4096 rows
/// comes back as it was, whichever way it is dithered.
pub proof fn a_printed_preview_is_the_same_print(
    b: &Bitmap,
    png: Seq<u8>,
    dither: Dither,
    printed: Seq<Seq<u8>>,
)
    requires
        0 < b@.len() <= 4096,
        decodes_to(png, 384, b@.len() as u32, preview_shades(b)),
        is_picture_print(decoded(png)->Ok_0, dither, printed),
    ensures
        printed == b@,
{
    let picture = decoded(png)->Ok_0;
    let shades = choose|shades: Seq<Seq<u8>>|
        is_prepared_picture(picture, shades) && #[trigger] is_dithered(shades, 384, dither, printed);
    let h = b@.len() as u32;
    assert((384 * h) / 384 == h);
    assert(prepared_height(384, h) == h);
    assert(shades == in_rows(preview_shades(b), 384, h));
    preview_gives_the_rows_back(b, dither, printed);
}

} // verus!
