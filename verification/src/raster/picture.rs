//! PNG and JPEG files as printer-ready bitmaps.

use crate::raster::bitmap::Bitmap;
use crate::raster::dither::{image_to_bitmap, prepare, prepare_height, Dither};
use crate::raster::gray::GrayImage;
use vstd::prelude::*;
#[allow(unused_imports)]
use crate::raster::dither::{is_dithered, is_flat, is_prepared, is_steady, prepared_height};
#[allow(unused_imports)]
use crate::raster::gray::{
    flattened, in_rows, is_image, is_one_shade, is_uniform, lemma_uniform_in_reading_order,
};

verus! {

/// A decoded picture of the `image` crate, carried from decoding to scaling.
#[verifier::external_type_specification]
#[verifier::external_body]
pub struct ExDynamicImage(image::DynamicImage);

/// What decoding a PNG or JPEG file comes to: a picture, or why it cannot be
/// decoded.
pub uninterp spec fn decoded(bytes: Seq<u8>) -> Result<image::DynamicImage, Seq<char>>;

/// The columns and the rows of a picture.
pub uninterp spec fn picture_size(picture: image::DynamicImage) -> (u32, u32);

/// The pixels of a picture in reading order, where it is one of 8-bit gray.
pub uninterp spec fn gray_pixels(picture: image::DynamicImage) -> Option<Seq<u8>>;

/// The red, green and blue of a picture's pixels in reading order, where it is
/// one of 8-bit colours.
pub uninterp spec fn colour_pixels(picture: image::DynamicImage) -> Option<Seq<u8>>;

/// Whether scaling colours (in reading order) and turning them gray may give
/// `out`: some of it depends on the machine.
pub uninterp spec fn may_scale_colours_to(
    raw: Seq<u8>,
    from: (u32, u32),
    to: (u32, u32),
    out: Seq<u8>,
) -> bool;

/// Whether scaling a picture and turning it gray may give `out`: some of it
/// depends on the machine.
pub uninterp spec fn may_turn_gray(
    picture: image::DynamicImage,
    to: (u32, u32),
    out: Seq<u8>,
) -> bool;

/// `image::load_from_memory`: the picture, or the wording of the error. Both
/// depend on the bytes alone.
#[verifier::external_body]
fn load_picture(bytes: &[u8]) -> (r: Result<image::DynamicImage, String>)
    ensures
        match r {
            Ok(picture) => decoded(bytes@) == Ok::<image::DynamicImage, Seq<char>>(picture),
            Err(e) => decoded(bytes@) == Err::<image::DynamicImage, Seq<char>>(e@),
        },
{
    match image::load_from_memory(bytes) {
        Ok(picture) => Ok(picture),
        Err(e) => Err(e.to_string()),
    }
}

/// `DynamicImage::dimensions`: the size of the picture.
#[verifier::external_body]
fn size_of_picture(picture: &image::DynamicImage) -> (size: (u32, u32))
    ensures
        size == picture_size(*picture),
{
    image::GenericImageView::dimensions(picture)
}

/// `DynamicImage::as_luma8`, with the pixels in reading order: those of a
/// picture of 8-bit gray as they are, one for each place, and nothing for any
/// other picture.
#[verifier::external_body]
fn gray_of_picture(picture: &image::DynamicImage) -> (raw: Option<Vec<u8>>)
    ensures
        match raw {
            Some(pixels) => gray_pixels(*picture) == Some(pixels@) && pixels@.len()
                == picture_size(*picture).0 * picture_size(*picture).1,
            None => gray_pixels(*picture) is None,
        },
{
    picture.as_luma8().map(|gray| gray.pixels().map(|pixel| pixel.0[0]).collect())
}

/// `DynamicImage::as_rgb8`, with the three parts of each pixel in reading order:
/// those of a picture of 8-bit colours as they are, and nothing for any other
/// picture.
#[verifier::external_body]
fn colours_of_picture(picture: &image::DynamicImage) -> (raw: Option<Vec<u8>>)
    ensures
        match raw {
            Some(parts) => colour_pixels(*picture) == Some(parts@) && parts@.len() == 3 * (
            picture_size(*picture).0 * picture_size(*picture).1),
            None => colour_pixels(*picture) is None,
        },
{
    picture.as_rgb8().map(|rgb| rgb.pixels().flat_map(|pixel| pixel.0).collect())
}

/// The colours of a picture in rows.
pub open spec fn colours_in_rows(raw: Seq<u8>, width: u32, height: u32) -> Seq<
    Seq<(u8, u8, u8)>,
> {
    Seq::new(
        height as nat,
        |y: int|
            Seq::new(
                width as nat,
                |x: int|
                    {
                        let at = 3 * (y * width + x);
                        (raw[at], raw[at + 1], raw[at + 2])
                    },
            ),
    )
}

/// Whether a shade is that of a colour: no more than one off the weighted sum
/// of its parts, and exactly the part that all three are.
pub open spec fn is_shade_of(c: (u8, u8, u8), shade: u8) -> bool {
    let sum = 2126 * c.0 + 7152 * c.1 + 722 * c.2;
    &&& sum - 10_000 <= 10_000 * shade <= sum + 10_000
    &&& c.0 == c.1 && c.1 == c.2 ==> shade == c.0
}

/// Whether every pixel has the shade of its colour.
pub open spec fn are_shades_of(colours: Seq<Seq<(u8, u8, u8)>>, out: Seq<Seq<u8>>) -> bool {
    forall|x: int, y: int|
        0 <= y < out.len() && 0 <= x < out[y].len() ==> is_shade_of(
            colours[y][x],
            #[trigger] out[y][x],
        )
}

/// Whether flat areas come out in the shade of their colour.
pub open spec fn keeps_flat_colours(
    colours: Seq<Seq<(u8, u8, u8)>>,
    from: (u32, u32),
    to: (u32, u32),
    out: Seq<Seq<u8>>,
) -> bool {
    forall|x: int, y: int, c: (u8, u8, u8)|
        0 <= x < to.0 && 0 <= y < to.1 && #[trigger] is_flat(colours, from, to, x, y, c)
            ==> is_shade_of(c, out[y][x])
}

/// `DynamicImage::resize_exact` with the Lanczos3 filter on a picture of 8-bit
/// colours given as the parts of its pixels in reading order, and
/// `DynamicImage::to_luma8` on the result.
///
/// The result has the size asked for. A picture that has it already is only
/// turned gray, and one without pixels comes out black. Each pixel is made of
/// those within three widths of the filter, so where these have one colour it
/// has that colour's shade, as long as no side shrinks so far that rounding
/// could add up to half a shade. Of other shades it is only said that they are
/// what scaling these colours may give: the filter goes through the machine's
/// sine, and the weighting of the colours rounds once or twice as the machine
/// has a fused multiply and add or not.
#[verifier::external_body]
fn resize_colours(width: u32, height: u32, raw: Vec<u8>, new_width: u32, new_height: u32) -> (out:
    Vec<u8>)
    requires
        raw@.len() == 3 * (width * height),
        0 < new_width <= 384,
        0 < new_height <= 4096,
    ensures
        out@.len() == new_width * new_height,
        may_scale_colours_to(raw@, (width, height), (new_width, new_height), out@),
        width == 0 || height == 0 ==> is_one_shade(out@, 0),
        width == new_width && height == new_height ==> are_shades_of(
            colours_in_rows(raw@, width, height),
            in_rows(out@, new_width, new_height),
        ),
        is_steady((width, height), (new_width, new_height)) ==> keeps_flat_colours(
            colours_in_rows(raw@, width, height),
            (width, height),
            (new_width, new_height),
            in_rows(out@, new_width, new_height),
        ),
{
    let img: image::RgbImage = image::RgbImage::from_raw(width, height, raw).unwrap();
    image::DynamicImage::ImageRgb8(img)
        .resize_exact(new_width, new_height, image::imageops::FilterType::Lanczos3)
        .to_luma8()
        .into_raw()
}

/// `DynamicImage::resize_exact` with the Lanczos3 filter and
/// `DynamicImage::to_luma8` on the result, as pixels in reading order, on a
/// picture of any kind. There are as many as the size asks for. Of their shades
/// it is only said that they are what scaling this picture may give: the filter
/// goes through the machine's sine, and the weighting of the colours rounds once
/// or twice as the machine has a fused multiply and add or not.
#[verifier::external_body]
fn resize_to_gray(picture: &image::DynamicImage, width: u32, height: u32) -> (raw: Vec<u8>)
    requires
        0 < width <= 384,
        0 < height <= 4096,
    ensures
        raw@.len() == width * height,
        may_turn_gray(*picture, (width, height), raw@),
{
    picture.resize_exact(width, height, image::imageops::FilterType::Lanczos3).to_luma8().into_raw()
}

/// Why a file could not be turned into a bitmap.
#[derive(Debug, Clone)]
pub enum PictureError {
    /// The bytes are no picture, in the decoder's words.
    Decode(String),
    /// The picture has no columns.
    ZeroWidth,
}

impl PictureError {
    /// The wording of [`PictureError::message`].
    pub open spec fn wording(&self) -> Seq<char> {
        match *self {
            PictureError::Decode(why) => "failed to decode image: "@ + why@,
            PictureError::ZeroWidth => "image has zero width"@,
        }
    }

    /// One line for the user.
    pub fn message(&self) -> (text: String)
        ensures
            text@ == self.wording(),
    {
        match self {
            PictureError::Decode(why) => {
                let mut text: String = "failed to decode image: ".to_owned();
                text.append(why.as_str());
                text
            },
            PictureError::ZeroWidth => "image has zero width".to_owned(),
        }
    }
}

/// Whether `out` is a picture of 8-bit colours scaled to the print width and
/// turned gray. It is what scaling may give; a picture that has the size already
/// and flat areas have the shades of their colours, and a picture without rows
/// comes out black.
pub open spec fn is_prepared_from_colours(
    raw: Seq<u8>,
    from: (u32, u32),
    out: Seq<Seq<u8>>,
) -> bool {
    let to = (384u32, out.len() as u32);
    let colours = colours_in_rows(raw, from.0, from.1);
    &&& may_scale_colours_to(raw, from, to, flattened(out))
    &&& from == to ==> are_shades_of(colours, out)
    &&& from.1 == 0 ==> is_uniform(out, 0)
    &&& is_steady(from, to) ==> keeps_flat_colours(colours, from, to, out)
}

/// Whether `out` is a decoded picture scaled to the print width, of the height
/// that keeps the aspect ratio, in shades of gray.
pub open spec fn is_prepared_picture(picture: image::DynamicImage, out: Seq<Seq<u8>>) -> bool {
    let (width, height) = picture_size(picture);
    &&& out.len() == prepared_height(width, height)
    &&& is_image(out, 384)
    &&& match gray_pixels(picture) {
        Some(raw) => is_prepared(in_rows(raw, width, height), width, out),
        None => match colour_pixels(picture) {
            Some(raw) => is_prepared_from_colours(raw, (width, height), out),
            None => may_turn_gray(picture, (384, out.len() as u32), flattened(out)),
        },
    }
}

/// Whether `printed` is a print of a picture: dithered from its scaled form.
pub open spec fn is_picture_print(
    picture: image::DynamicImage,
    dither: Dither,
    printed: Seq<Seq<u8>>,
) -> bool {
    exists|shades: Seq<Seq<u8>>|
        is_prepared_picture(picture, shades) && #[trigger] is_dithered(
            shades,
            384,
            dither,
            printed,
        )
}

/// Scale a decoded picture to the 384 px print width, in shades of gray.
fn prepare_picture(picture: &image::DynamicImage) -> (out: GrayImage)
    requires
        picture_size(*picture).0 > 0,
    ensures
        out.spec_width() == 384,
        is_prepared_picture(*picture, out@),
{
    let (width, height) = size_of_picture(picture);
    match gray_of_picture(picture) {
        Some(raw) => {
            let gray: GrayImage = GrayImage::from_raw(width, height, raw.as_slice()).unwrap();
            return prepare(&gray);
        },
        None => {},
    }
    let new_height: u32 = prepare_height(width, height);
    let raw: Vec<u8> = match colours_of_picture(picture) {
        Some(parts) => resize_colours(width, height, parts, 384, new_height),
        None => resize_to_gray(picture, 384, new_height),
    };
    let out: GrayImage = GrayImage::from_raw(384, new_height, raw.as_slice()).unwrap();
    proof {
        lemma_uniform_in_reading_order(out@, 0);
    }
    out
}

/// Decode image bytes into a printer-ready bitmap.
pub fn bitmap_from_image_bytes(bytes: &[u8], dither: Dither) -> (out: Result<Bitmap, PictureError>)
    ensures
        match decoded(bytes@) {
            Err(why) => out matches Err(PictureError::Decode(e)) && e@ == why,
            Ok(picture) => if picture_size(picture).0 == 0 {
                out matches Err(PictureError::ZeroWidth)
            } else {
                &&& out matches Ok(b)
                &&& b@.len() == prepared_height(picture_size(picture).0, picture_size(picture).1)
                &&& is_picture_print(picture, dither, b@)
            },
        },
{
    match load_picture(bytes) {
        Err(why) => Err(PictureError::Decode(why)),
        Ok(picture) => {
            if size_of_picture(&picture).0 == 0 {
                return Err(PictureError::ZeroWidth);
            }
            let gray: GrayImage = prepare_picture(&picture);
            let b: Bitmap = image_to_bitmap(&gray, dither);
            assert(is_dithered(gray@, 384, dither, b@));
            Ok(b)
        },
    }
}

} // verus!
