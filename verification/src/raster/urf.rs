//! Apple Raster (URF) decoding.
//!
//! URF is what an AirPrint client sends when the printer advertises
//! `image/urf` and does not advertise PDF: the client rasterises the document
//! itself, which is why this crate needs no PDF renderer.
//!
//! ```text
//! file header   12 B  "UNIRAST\0" | u32be page_count
//! page header   32 B  bpp u8 | colorspace u8 | duplex u8 | quality u8
//!                     | u32be x2 reserved | u32be width | u32be height
//!                     | u32be dpi | 8 B reserved
//! page data           per line: u8 repeat (line appears repeat + 1 times),
//!                     then runs until `width` pixels are covered:
//!                       c  < 128 -> next pixel repeated c + 1 times
//!                       c == 128 -> end of row; the rest of the line is blank
//!                       c  > 128 -> 257 - c literal pixels
//! ```
//!
//! Every pixel is `bpp / 8` bytes wide.

use crate::raster::bitmap::Bitmap;
use crate::raster::dither::{image_to_bitmap, prepare, Dither};
use crate::raster::gray::GrayImage;
use crate::raster::stack::stack_with_gap;
use crate::strings::decimal;
use vstd::prelude::*;
#[allow(unused_imports)]
use crate::raster::gray::{cropped, is_image, lemma_product_fits};
#[allow(unused_imports)]
use crate::raster::dither::{is_dithered, is_prepared, prepared_height};
#[allow(unused_imports)]
use crate::raster::stack::{rows_of, stacked};
#[allow(unused_imports)]
use crate::strings::decimal_digits;

verus! {

/// Run byte 0x80 ends the row early; the rest of the line stays blank.
pub const END_OF_ROW: u8 = 0x80;

/// Refuse absurd geometry before allocating. A4 at 1200 dpi is ~9900 x 14000,
/// so this leaves generous headroom while keeping a hostile or corrupt header
/// from asking for a multi-gigabyte buffer.
pub const MAX_DIMENSION: u32 = 30_000;

/// Total pixels per page, independent of the per-axis cap above.
pub const MAX_PIXELS: u64 = 134_217_728;

/// A print job with more pages than this is not a receipt.
pub const MAX_PAGES: u32 = 1_000;

/// Bytes of a page header.
pub const PAGE_HEADER_LEN: usize = 32;

/// Why a URF stream could not be decoded.
#[derive(Debug, Clone, Copy, PartialEq, Eq)]
pub enum UrfError {
    BadMagic,
    PwgRaster,
    Truncated(&'static str),
    UnsupportedDepth(u8),
    EmptyPage(u32),
    PageTooLarge(u32, u32, u32),
    TooManyPages(u32),
    RowOverrun(u32, u32),
}

impl UrfError {
    /// The wording of [`UrfError::message`].
    pub open spec fn wording(&self) -> Seq<char> {
        match *self {
            UrfError::BadMagic => "not an Apple Raster stream (bad UNIRAST magic)"@,
            UrfError::PwgRaster =>
                "this looks like PWG Raster, which is not supported — only Apple Raster (URF) is"@,
            UrfError::Truncated(what) => "URF stream ended mid-"@ + what@,
            UrfError::UnsupportedDepth(bpp) => "unsupported URF depth: "@ + decimal_digits(
                bpp as nat,
            ) + " bits per pixel (expected 8 or 24)"@,
            UrfError::EmptyPage(page) => "URF page "@ + decimal_digits(page as nat)
                + " has zero width or height"@,
            UrfError::PageTooLarge(page, width, height) => "URF page "@ + decimal_digits(
                page as nat,
            ) + " is "@ + decimal_digits(width as nat) + "x"@ + decimal_digits(height as nat)
                + ", beyond the decoder's limits"@,
            UrfError::TooManyPages(pages) => "URF stream declares "@ + decimal_digits(pages as nat)
                + " pages, more than the 1000 allowed"@,
            UrfError::RowOverrun(page, row) => "URF run overruns row width (page "@
                + decimal_digits(page as nat) + ", row "@ + decimal_digits(row as nat) + ")"@,
        }
    }

    /// One line for the user.
    pub fn message(&self) -> (text: String)
        ensures
            text@ == self.wording(),
    {
        let mut text: String = String::new();
        match *self {
            UrfError::BadMagic => {
                text.append("not an Apple Raster stream (bad UNIRAST magic)");
            },
            UrfError::PwgRaster => {
                text.append(
                    "this looks like PWG Raster, which is not supported — only Apple Raster (URF) is",
                );
            },
            UrfError::Truncated(what) => {
                text.append("URF stream ended mid-");
                text.append(what);
            },
            UrfError::UnsupportedDepth(bpp) => {
                text.append("unsupported URF depth: ");
                text.append(decimal(bpp as u128).as_str());
                text.append(" bits per pixel (expected 8 or 24)");
            },
            UrfError::EmptyPage(page) => {
                text.append("URF page ");
                text.append(decimal(page as u128).as_str());
                text.append(" has zero width or height");
            },
            UrfError::PageTooLarge(page, width, height) => {
                text.append("URF page ");
                text.append(decimal(page as u128).as_str());
                text.append(" is ");
                text.append(decimal(width as u128).as_str());
                text.append("x");
                text.append(decimal(height as u128).as_str());
                text.append(", beyond the decoder's limits");
            },
            UrfError::TooManyPages(pages) => {
                text.append("URF stream declares ");
                text.append(decimal(pages as u128).as_str());
                text.append(" pages, more than the 1000 allowed");
            },
            UrfError::RowOverrun(page, row) => {
                text.append("URF run overruns row width (page ");
                text.append(decimal(page as u128).as_str());
                text.append(", row ");
                text.append(decimal(row as u128).as_str());
                text.append(")");
            },
        }
        assert(text@ =~= self.wording());
        text
    }
}

/// One decoded page, already flattened to 8-bit grayscale.
///
/// `dpi` and the declared pixel dimensions are kept because they are the only
/// clue to the page's physical size; the caller decides whether to scale.
#[derive(Debug)]
pub struct UrfPage {
    /// Pixel width as declared in the page header.
    pub width: u32,
    /// Pixel height as declared in the page header.
    pub height: u32,
    /// Resolution in dots per inch.
    pub dpi: u32,
    /// Decoded pixels, 255 = white.
    pub gray: GrayImage,
}

/// A [`UrfPage`] with its pixels as rows.
#[verifier::ext_equal]
pub struct PageModel {
    pub width: u32,
    pub height: u32,
    pub dpi: u32,
    pub rows: Seq<Seq<u8>>,
}

impl View for UrfPage {
    type V = PageModel;

    open spec fn view(&self) -> PageModel {
        PageModel { width: self.width, height: self.height, dpi: self.dpi, rows: self.gray@ }
    }
}

/// The pages of a list.
pub open spec fn page_models(pages: Seq<UrfPage>) -> Seq<PageModel> {
    Seq::new(pages.len(), |i: int| pages[i]@)
}

/// Rec. 601 luma.
pub open spec fn luma_of(r: u8, g: u8, b: u8) -> u8 {
    ((r * 299 + g * 587 + b * 114) / 1000) as u8
}

/// The shade that the bytes of one pixel stand for.
pub open spec fn shade_of(px: Seq<u8>) -> u8 {
    if px.len() == 1 {
        px[0]
    } else if px.len() == 3 {
        luma_of(px[0], px[1], px[2])
    } else {
        255
    }
}

/// The number four bytes stand for, highest byte first.
pub open spec fn be32_at(bytes: Seq<u8>, pos: int) -> u32 {
    (bytes[pos] * 0x100_0000 + bytes[pos + 1] * 0x1_0000 + bytes[pos + 2] * 0x100 + bytes[pos
        + 3]) as u32
}

/// A line of `width` shades read from position `pos`, given those already
/// `done`, together with the position after it.
pub open spec fn row_from(
    bytes: Seq<u8>,
    pos: int,
    width: int,
    bytes_per_pixel: int,
    page: u32,
    y: u32,
    done: Seq<u8>,
) -> Result<(Seq<u8>, int), UrfError>
    decreases width - done.len(),
{
    if done.len() >= width {
        Ok((done, pos))
    } else if pos + 1 > bytes.len() {
        Err(UrfError::Truncated("run"))
    } else {
        let code = bytes[pos];
        if code == END_OF_ROW {
            Ok((done + Seq::new((width - done.len()) as nat, |i: int| 255u8), pos + 1))
        } else if code < END_OF_ROW {
            let count = code + 1;
            let after = pos + 1 + bytes_per_pixel;
            if done.len() + count > width {
                Err(UrfError::RowOverrun(page, y))
            } else if after > bytes.len() {
                Err(UrfError::Truncated("repeated pixel"))
            } else {
                let shade = shade_of(bytes.subrange(pos + 1, after));
                row_from(
                    bytes,
                    after,
                    width,
                    bytes_per_pixel,
                    page,
                    y,
                    done + Seq::new(count as nat, |i: int| shade),
                )
            }
        } else {
            let count = 257 - code;
            let after = pos + 1 + count * bytes_per_pixel;
            if done.len() + count > width {
                Err(UrfError::RowOverrun(page, y))
            } else if after > bytes.len() {
                Err(UrfError::Truncated("literal pixels"))
            } else {
                row_from(
                    bytes,
                    after,
                    width,
                    bytes_per_pixel,
                    page,
                    y,
                    done + Seq::new(
                        count as nat,
                        |i: int|
                            shade_of(
                                bytes.subrange(
                                    pos + 1 + i * bytes_per_pixel,
                                    pos + 1 + (i + 1) * bytes_per_pixel,
                                ),
                            ),
                    ),
                )
            }
        }
    }
}

/// The lines of a page from position `pos`, given those already `done`. A line
/// appears once more than its repeat byte says, but never past the page's end.
pub open spec fn rows_from(
    bytes: Seq<u8>,
    pos: int,
    width: int,
    height: int,
    bytes_per_pixel: int,
    page: u32,
    done: Seq<Seq<u8>>,
) -> Result<(Seq<Seq<u8>>, int), UrfError>
    decreases height - done.len(),
{
    if done.len() >= height {
        Ok((done, pos))
    } else if pos + 1 > bytes.len() {
        Err(UrfError::Truncated("line repeat"))
    } else {
        match row_from(
            bytes,
            pos + 1,
            width,
            bytes_per_pixel,
            page,
            done.len() as u32,
            Seq::empty(),
        ) {
            Err(e) => Err(e),
            Ok((row, after)) => {
                let copies = if bytes[pos] + 1 <= height - done.len() {
                    bytes[pos] + 1
                } else {
                    height - done.len()
                };
                rows_from(
                    bytes,
                    after,
                    width,
                    height,
                    bytes_per_pixel,
                    page,
                    done + Seq::new(copies as nat, |i: int| row),
                )
            },
        }
    }
}

/// The page whose header starts at `pos`, and the position after its data.
pub open spec fn page_from(bytes: Seq<u8>, pos: int, index: u32) -> Result<
    (PageModel, int),
    UrfError,
> {
    if pos + PAGE_HEADER_LEN > bytes.len() {
        Err(UrfError::Truncated("page header"))
    } else {
        let bpp = bytes[pos];
        let width = be32_at(bytes, pos + 12);
        let height = be32_at(bytes, pos + 16);
        let dpi = be32_at(bytes, pos + 20);
        if bpp != 8 && bpp != 24 {
            Err(UrfError::UnsupportedDepth(bpp))
        } else if width == 0 || height == 0 {
            Err(UrfError::EmptyPage(index))
        } else if width > MAX_DIMENSION || height > MAX_DIMENSION || width * height > MAX_PIXELS {
            Err(UrfError::PageTooLarge(index, width, height))
        } else {
            match rows_from(
                bytes,
                pos + PAGE_HEADER_LEN,
                width as int,
                height as int,
                (bpp / 8) as int,
                index,
                Seq::empty(),
            ) {
                Err(e) => Err(e),
                Ok((rows, after)) => Ok((PageModel { width, height, dpi, rows }, after)),
            }
        }
    }
}

/// Pages number `index` to `count` from position `pos`.
pub open spec fn pages_from(bytes: Seq<u8>, pos: int, index: int, count: int) -> Result<
    Seq<PageModel>,
    UrfError,
>
    decreases count - index,
{
    if index >= count {
        Ok(Seq::empty())
    } else {
        match page_from(bytes, pos, index as u32) {
            Err(e) => Err(e),
            Ok((page, after)) => match pages_from(bytes, after, index + 1, count) {
                Err(e) => Err(e),
                Ok(rest) => Ok(seq![page] + rest),
            },
        }
    }
}

/// The eight bytes at the head of every URF stream.
pub open spec fn urf_magic() -> Seq<u8> {
    seq![0x55u8, 0x4Eu8, 0x49u8, 0x52u8, 0x41u8, 0x53u8, 0x54u8, 0x00u8]
}

/// Whether the stream starts like PWG Raster ("RaS").
pub open spec fn is_pwg(bytes: Seq<u8>) -> bool {
    bytes.len() >= 3 && bytes[0] == 0x52 && bytes[1] == 0x61 && bytes[2] == 0x53
}

/// The pages that a URF stream holds, or why it cannot be decoded.
pub open spec fn urf_document(bytes: Seq<u8>) -> Result<Seq<PageModel>, UrfError> {
    if bytes.len() < 8 {
        Err(UrfError::Truncated("magic"))
    } else if bytes.take(8) != urf_magic() {
        if is_pwg(bytes) {
            Err(UrfError::PwgRaster)
        } else {
            Err(UrfError::BadMagic)
        }
    } else if bytes.len() < 12 {
        Err(UrfError::Truncated("page count"))
    } else {
        let count = be32_at(bytes, 8);
        if count > MAX_PAGES {
            Err(UrfError::TooManyPages(count))
        } else {
            pages_from(bytes, 12, 0, count as int)
        }
    }
}

/// A cursor that turns every short read into [`UrfError::Truncated`].
pub struct Reader<'a> {
    bytes: &'a [u8],
    pos: usize,
}

impl<'a> Reader<'a> {
    /// The whole input.
    pub closed spec fn input(&self) -> Seq<u8> {
        self.bytes@
    }

    /// How far reading has come.
    pub closed spec fn position(&self) -> int {
        self.pos as int
    }

    #[verifier::type_invariant]
    spec fn holds_together(&self) -> bool {
        self.pos <= self.bytes@.len()
    }

    pub fn new(bytes: &'a [u8]) -> (r: Self)
        ensures
            r.input() == bytes@,
            r.position() == 0,
    {
        Reader { bytes, pos: 0 }
    }

    /// The next `n` bytes; on a short read nothing is consumed.
    pub fn take(&mut self, n: usize, what: &'static str) -> (slice: Result<&'a [u8], UrfError>)
        ensures
            final(self).input() == old(self).input(),
            0 <= old(self).position() <= old(self).input().len(),
            slice is Ok <==> old(self).position() + n <= old(self).input().len(),
            slice matches Ok(s) ==> s@ == old(self).input().subrange(
                old(self).position(),
                old(self).position() + n,
            ) && final(self).position() == old(self).position() + n,
            slice matches Err(e) ==> e == UrfError::Truncated(what) && final(self).position()
                == old(self).position(),
    {
        proof {
            use_type_invariant(&*self);
        }
        if n > self.bytes.len() - self.pos {
            return Err(UrfError::Truncated(what));
        }
        let start: usize = self.pos;
        let slice: &'a [u8] = vstd::slice::slice_subrange(self.bytes, start, start + n);
        self.pos = start + n;
        Ok(slice)
    }

    pub fn u8(&mut self, what: &'static str) -> (value: Result<u8, UrfError>)
        ensures
            final(self).input() == old(self).input(),
            0 <= old(self).position() <= old(self).input().len(),
            value is Ok <==> old(self).position() + 1 <= old(self).input().len(),
            value matches Ok(v) ==> v == old(self).input()[old(self).position()]
                && final(self).position() == old(self).position() + 1,
            value matches Err(e) ==> e == UrfError::Truncated(what) && final(self).position()
                == old(self).position(),
    {
        match self.take(1, what) {
            Ok(s) => Ok(s[0]),
            Err(e) => Err(e),
        }
    }

    pub fn u32(&mut self, what: &'static str) -> (value: Result<u32, UrfError>)
        ensures
            final(self).input() == old(self).input(),
            0 <= old(self).position() <= old(self).input().len(),
            value is Ok <==> old(self).position() + 4 <= old(self).input().len(),
            value matches Ok(v) ==> v == be32_at(old(self).input(), old(self).position())
                && final(self).position() == old(self).position() + 4,
            value matches Err(e) ==> e == UrfError::Truncated(what) && final(self).position()
                == old(self).position(),
    {
        match self.take(4, what) {
            Ok(b) => Ok(
                (b[0] as u32) * 0x100_0000 + (b[1] as u32) * 0x1_0000 + (b[2] as u32) * 0x100 + (
                b[3] as u32),
            ),
            Err(e) => Err(e),
        }
    }
}

/// Rec. 601 luma, matching what the `image` crate uses for RGB to grayscale.
pub fn luma(r: u8, g: u8, b: u8) -> (v: u8)
    ensures
        v == luma_of(r, g, b),
{
    (((r as u32) * 299 + (g as u32) * 587 + (b as u32) * 114) / 1000) as u8
}

/// The shade of one pixel given as one or three bytes.
pub fn pixel_luma(px: &[u8]) -> (v: u8)
    ensures
        v == shade_of(px@),
{
    if px.len() == 1 {
        px[0]
    } else if px.len() == 3 {
        luma(px[0], px[1], px[2])
    } else {
        // `bytes_per_pixel` is 1 or 3, so this does not occur; keep a sane
        // value rather than panicking on a logic slip.
        255
    }
}

/// Decode exactly one line's worth of runs.
#[verifier::loop_isolation(false)]
pub fn decode_row(
    r: &mut Reader<'_>,
    width: usize,
    bytes_per_pixel: usize,
    page: u32,
    y: u32,
) -> (row: Result<Vec<u8>, UrfError>)
    requires
        bytes_per_pixel <= 4,
    ensures
        final(r).input() == old(r).input(),
        match row_from(
            old(r).input(),
            old(r).position(),
            width as int,
            bytes_per_pixel as int,
            page,
            y,
            Seq::empty(),
        ) {
            Ok((shades, after)) => row is Ok && row->Ok_0@ == shades && final(r).position()
                == after,
            Err(e) => row is Err && row->Err_0 == e,
        },
{
    let mut row: Vec<u8> = Vec::new();
    let ghost input = r.input();
    let ghost wanted = row_from(
        r.input(),
        r.position(),
        width as int,
        bytes_per_pixel as int,
        page,
        y,
        Seq::empty(),
    );
    assert(row@ =~= Seq::<u8>::empty());
    while row.len() < width
        invariant
            bytes_per_pixel <= 4,
            r.input() == input,
            row@.len() <= width,
            wanted == row_from(
                input,
                r.position(),
                width as int,
                bytes_per_pixel as int,
                page,
                y,
                row@,
            ),
        decreases width - row@.len(),
    {
        let ghost pos = r.position();
        let ghost done = row@;
        let code: u8 = match r.u8("run") {
            Ok(code) => code,
            Err(e) => {
                return Err(e);
            },
        };
        if code == END_OF_ROW {
            // Nothing more is coded for this line; the remainder is blank.
            while row.len() < width
                invariant
                    done.len() <= row@.len() <= width,
                    row@ == done + Seq::new((row@.len() - done.len()) as nat, |i: int| 255u8),
                decreases width - row@.len(),
            {
                row.push(255);
                assert(row@ =~= done + Seq::new(
                    (row@.len() - done.len()) as nat,
                    |i: int| 255u8,
                ));
            }
            return Ok(row);
        }
        if code < END_OF_ROW {
            // Repeat: one pixel, `code + 1` times.
            let count: usize = (code as usize) + 1;
            if count > width - row.len() {
                return Err(UrfError::RowOverrun(page, y));
            }
            let px: &[u8] = match r.take(bytes_per_pixel, "repeated pixel") {
                Ok(px) => px,
                Err(e) => {
                    return Err(e);
                },
            };
            let v: u8 = pixel_luma(px);
            let mut k: usize = 0;
            while k < count
                invariant
                    k <= count,
                    row@ == done + Seq::new(k as nat, |i: int| v),
                decreases count - k,
            {
                row.push(v);
                k = k + 1;
                assert(row@ =~= done + Seq::new(k as nat, |i: int| v));
            }
        } else {
            // Literal: `257 - code` distinct pixels.
            let count: usize = 257 - (code as usize);
            if count > width - row.len() {
                return Err(UrfError::RowOverrun(page, y));
            }
            assert(count * bytes_per_pixel <= 512) by (nonlinear_arith)
                requires
                    count <= 128,
                    bytes_per_pixel <= 4,
            ;
            let px: &[u8] = match r.take(count * bytes_per_pixel, "literal pixels") {
                Ok(px) => px,
                Err(e) => {
                    return Err(e);
                },
            };
            let ghost shades = |i: int|
                shade_of(
                    input.subrange(
                        pos + 1 + i * bytes_per_pixel,
                        pos + 1 + (i + 1) * bytes_per_pixel,
                    ),
                );
            let mut k: usize = 0;
            while k < count
                invariant
                    k <= count,
                    count <= 128,
                    bytes_per_pixel <= 4,
                    px@ == input.subrange(pos + 1, pos + 1 + count * bytes_per_pixel),
                    0 <= pos,
                    pos + 1 + count * bytes_per_pixel <= input.len(),
                    shades == (|i: int|
                        shade_of(
                            input.subrange(
                                pos + 1 + i * bytes_per_pixel,
                                pos + 1 + (i + 1) * bytes_per_pixel,
                            ),
                        )),
                    row@ == done + Seq::new(k as nat, shades),
                decreases count - k,
            {
                assert(0 <= k * bytes_per_pixel && (k + 1) * bytes_per_pixel == k * bytes_per_pixel
                    + bytes_per_pixel && (k + 1) * bytes_per_pixel <= count * bytes_per_pixel
                    && count * bytes_per_pixel <= 512) by (nonlinear_arith)
                    requires
                        k + 1 <= count,
                        count <= 128,
                        bytes_per_pixel <= 4,
                ;
                let chunk: &[u8] = vstd::slice::slice_subrange(
                    px,
                    k * bytes_per_pixel,
                    (k + 1) * bytes_per_pixel,
                );
                assert(chunk@ =~= input.subrange(
                    pos + 1 + k * bytes_per_pixel,
                    pos + 1 + (k + 1) * bytes_per_pixel,
                ));
                row.push(pixel_luma(chunk));
                assert(row@ =~= done + Seq::new((k + 1) as nat, shades));
                k = k + 1;
            }
        }
    }
    Ok(row)
}

/// A copy of one line.
fn copy_row(row: &Vec<u8>) -> (copy: Vec<u8>)
    ensures
        copy@ == row@,
{
    vstd::slice::slice_to_vec(row.as_slice())
}

/// Decode one page, header and data.
#[verifier::loop_isolation(false)]
pub fn decode_page(r: &mut Reader<'_>, index: u32) -> (page: Result<UrfPage, UrfError>)
    ensures
        final(r).input() == old(r).input(),
        match page_from(old(r).input(), old(r).position(), index) {
            Ok((model, after)) => page is Ok && page->Ok_0@ == model && page->Ok_0.gray.spec_width()
                == model.width && final(r).position() == after,
            Err(e) => page is Err && page->Err_0 == e,
        },
{
    let ghost input = r.input();
    let ghost start = r.position();
    let header: &[u8] = match r.take(PAGE_HEADER_LEN, "page header") {
        Ok(header) => header,
        Err(e) => {
            return Err(e);
        },
    };
    let mut fields: Reader<'_> = Reader::new(header);
    let ghost head = fields.input();
    proof {
        assert(head.len() == PAGE_HEADER_LEN);
        assert forall|k: int| 0 <= k <= PAGE_HEADER_LEN - 4 implies #[trigger] be32_at(head, k)
            == be32_at(input, start + k) by {}
    }
    let bpp: u8 = fields.u8("page header")?;
    // colorspace, duplex and quality, then two reserved words
    let _ = fields.take(11, "page header")?;
    let width: u32 = fields.u32("page header")?;
    let height: u32 = fields.u32("page header")?;
    let dpi: u32 = fields.u32("page header")?;
    assert(width == be32_at(input, start + 12));
    assert(height == be32_at(input, start + 16));
    assert(dpi == be32_at(input, start + 20));

    // Only the depths an AirPrint client actually produces for `W8` (8-bit
    // grayscale) and `SRGB24` (24-bit colour). Anything else would be a silent
    // mis-decode, so refuse it loudly.
    let bytes_per_pixel: usize = if bpp == 8 {
        1
    } else if bpp == 24 {
        3
    } else {
        return Err(UrfError::UnsupportedDepth(bpp));
    };
    if width == 0 || height == 0 {
        return Err(UrfError::EmptyPage(index));
    }
    proof {
        lemma_product_fits(width, height);
    }
    if width > MAX_DIMENSION || height > MAX_DIMENSION || (width as u128) * (height as u128)
        > MAX_PIXELS as u128 {
        return Err(UrfError::PageTooLarge(index, width, height));
    }
    let mut rows: Vec<Vec<u8>> = Vec::new();
    let ghost wanted = rows_from(
        input,
        r.position(),
        width as int,
        height as int,
        bytes_per_pixel as int,
        index,
        Seq::empty(),
    );
    let ghost mut lines: Seq<Seq<u8>> = Seq::empty();
    while rows.len() < height as usize
        invariant
            bytes_per_pixel <= 4,
            r.input() == input,
            width <= MAX_DIMENSION,
            height <= MAX_DIMENSION,
            rows@.len() <= height,
            lines.len() == rows@.len(),
            forall|i: int| 0 <= i < rows@.len() ==> (#[trigger] rows@[i])@ == lines[i],
            forall|i: int| 0 <= i < lines.len() ==> (#[trigger] lines[i]).len() == width,
            wanted == rows_from(
                input,
                r.position(),
                width as int,
                height as int,
                bytes_per_pixel as int,
                index,
                lines,
            ),
        decreases height - rows@.len(),
    {
        let ghost before = lines;
        // The repeat byte counts *additional* copies, so a line always appears
        // at least once.
        let repeat: u8 = match r.u8("line repeat") {
            Ok(repeat) => repeat,
            Err(e) => {
                return Err(e);
            },
        };
        let y: u32 = rows.len() as u32;
        proof {
            lemma_row_length(
                input,
                r.position(),
                width as int,
                bytes_per_pixel as int,
                index,
                y,
                Seq::empty(),
            );
        }
        let row: Vec<u8> = match decode_row(r, width as usize, bytes_per_pixel, index, y) {
            Ok(row) => row,
            Err(e) => {
                return Err(e);
            },
        };

        // Clamp rather than reject: a producer that over-repeats the final
        // line should not cost the user a whole print job.
        let wish: u32 = (repeat as u32) + 1;
        let copies: u32 = if wish <= height - y {
            wish
        } else {
            height - y
        };
        let mut k: u32 = 0;
        while k < copies
            invariant
                k <= copies,
                row@.len() == width,
                copies <= height - y,
                lines.len() == rows@.len(),
                rows@.len() == y + k,
                lines == before + Seq::new(k as nat, |i: int| row@),
                forall|i: int| 0 <= i < rows@.len() ==> (#[trigger] rows@[i])@ == lines[i],
                forall|i: int| 0 <= i < lines.len() ==> (#[trigger] lines[i]).len() == width,
            decreases copies - k,
        {
            rows.push(copy_row(&row));
            proof {
                lines = lines.push(row@);
            }
            k = k + 1;
            assert(lines =~= before + Seq::new(k as nat, |i: int| row@));
        }
    }
    let gray: GrayImage = GrayImage::from_rows(width, rows);
    assert(gray@ =~= lines);
    Ok(UrfPage { width, height, dpi, gray })
}

/// A row that decodes has the width asked for.
proof fn lemma_row_length(
    bytes: Seq<u8>,
    pos: int,
    width: int,
    bytes_per_pixel: int,
    page: u32,
    y: u32,
    done: Seq<u8>,
)
    requires
        done.len() <= width,
    ensures
        row_from(bytes, pos, width, bytes_per_pixel, page, y, done) matches Ok(r) ==> r.0.len()
            == width,
    decreases width - done.len(),
{
    if done.len() < width && pos + 1 <= bytes.len() {
        let code = bytes[pos];
        if code < END_OF_ROW {
            let count = code + 1;
            let after = pos + 1 + bytes_per_pixel;
            if done.len() + count <= width && after <= bytes.len() {
                let shade = shade_of(bytes.subrange(pos + 1, after));
                lemma_row_length(
                    bytes,
                    after,
                    width,
                    bytes_per_pixel,
                    page,
                    y,
                    done + Seq::new(count as nat, |i: int| shade),
                );
            }
        } else if code > END_OF_ROW {
            let count = 257 - code;
            let after = pos + 1 + count * bytes_per_pixel;
            if done.len() + count <= width && after <= bytes.len() {
                lemma_row_length(
                    bytes,
                    after,
                    width,
                    bytes_per_pixel,
                    page,
                    y,
                    done + Seq::new(
                        count as nat,
                        |i: int|
                            shade_of(
                                bytes.subrange(
                                    pos + 1 + i * bytes_per_pixel,
                                    pos + 1 + (i + 1) * bytes_per_pixel,
                                ),
                            ),
                    ),
                );
            }
        }
    }
}

/// Decode every page of a URF stream.
///
/// Returns pages in document order. An empty stream (`page_count` of zero) is
/// not an error — it decodes to no pages, and the caller decides whether that
/// is worth printing.
#[verifier::loop_isolation(false)]
pub fn decode_urf(bytes: &[u8]) -> (pages: Result<Vec<UrfPage>, UrfError>)
    ensures
        match urf_document(bytes@) {
            Ok(models) => pages is Ok && pages->Ok_0@.len() == models.len() && forall|i: int|
                0 <= i < models.len() ==> #[trigger] pages->Ok_0@[i]@ == models[i]
                    && pages->Ok_0@[i].gray.spec_width() == models[i].width,
            Err(e) => pages is Err && pages->Err_0 == e,
        },
{
    let mut r: Reader<'_> = Reader::new(bytes);
    let magic: &[u8] = match r.take(8, "magic") {
        Ok(magic) => magic,
        Err(e) => {
            return Err(e);
        },
    };
    assert(magic@ =~= bytes@.take(8));
    let known: bool = magic[0] == 0x55 && magic[1] == 0x4E && magic[2] == 0x49 && magic[3] == 0x52
        && magic[4] == 0x41 && magic[5] == 0x53 && magic[6] == 0x54 && magic[7] == 0x00;
    assert(known <==> magic@ =~= urf_magic());
    if !known {
        // PWG Raster shares URF's run encoding but has a different, larger
        // header, so it would mis-decode rather than fail cleanly if anyone
        // ever wired it up. Naming it is purely for a better error message:
        // an unrecognised prefix still falls through to `BadMagic`.
        if magic[0] == 0x52 && magic[1] == 0x61 && magic[2] == 0x53 {
            return Err(UrfError::PwgRaster);
        }
        return Err(UrfError::BadMagic);
    }
    let page_count: u32 = match r.u32("page count") {
        Ok(count) => count,
        Err(e) => {
            return Err(e);
        },
    };
    if page_count > MAX_PAGES {
        return Err(UrfError::TooManyPages(page_count));
    }
    let mut pages: Vec<UrfPage> = Vec::new();
    let mut index: u32 = 0;
    let ghost mut models: Seq<PageModel> = Seq::empty();
    let ghost wanted = pages_from(bytes@, 12, 0, page_count as int);
    while index < page_count
        invariant
            index <= page_count,
            r.input() == bytes@,
            pages@.len() == index,
            models.len() == index,
            forall|i: int|
                0 <= i < index ==> (#[trigger] pages@[i])@ == models[i]
                    && pages@[i].gray.spec_width() == models[i].width,
            wanted == (match pages_from(bytes@, r.position(), index as int, page_count as int) {
                Err(e) => Err::<Seq<PageModel>, UrfError>(e),
                Ok(rest) => Ok(models + rest),
            }),
        decreases page_count - index,
    {
        let page: UrfPage = match decode_page(&mut r, index) {
            Ok(page) => page,
            Err(e) => {
                return Err(e);
            },
        };
        let ghost rest = pages_from(bytes@, r.position(), index + 1, page_count as int);
        proof {
            if rest is Ok {
                assert(models + (seq![page@] + rest->Ok_0) =~= models.push(page@) + rest->Ok_0);
            }
            models = models.push(page@);
        }
        pages.push(page);
        index = index + 1;
    }
    assert(models + Seq::<PageModel>::empty() =~= models);
    Ok(pages)
}

/// Grey level at or below which a pixel counts as content.
///
/// Not 254: anti-aliased glyph edges and JPEG-ish ringing leave near-white
/// pixels all over an otherwise blank margin, and treating those as ink would
/// make the crop below a no-op on exactly the pages it exists to fix.
pub const INK_THRESHOLD: u8 = 240;

/// White border kept around cropped content, as a fraction of its width: 2 %.
///
/// Applied before scaling so it survives the resize as a proportional margin
/// rather than a handful of pixels.
pub const CROP_MARGIN_RATIO: u32 = 50;

/// Paper this wide or narrower was laid out *for* a receipt printer.
///
/// A client that honours a 48 mm media advertisement sends a page already the
/// width of the paper; one that ignores it sends US Letter at 215.9 mm. The
/// gap between those is enormous, so this only has to fall somewhere sensible
/// in between — 80 mm also covers the common 58 mm and 80 mm receipt widths.
pub const RECEIPT_MAX_WIDTH_MM: u32 = 80;

/// Whether there is content in column `x` of row `y`.
pub open spec fn is_ink(rows: Seq<Seq<u8>>, x: int, y: int) -> bool {
    0 <= y < rows.len() && 0 <= x < rows[y].len() && rows[y][x] <= INK_THRESHOLD
}

/// Whether an image has any content.
pub open spec fn has_ink(rows: Seq<Seq<u8>>) -> bool {
    exists|x: int, y: int| is_ink(rows, x, y)
}

/// Whether column `x` has any content.
pub open spec fn ink_in_column(rows: Seq<Seq<u8>>, x: int) -> bool {
    exists|y: int| is_ink(rows, x, y)
}

/// Whether row `y` has any content.
pub open spec fn ink_in_row(rows: Seq<Seq<u8>>, y: int) -> bool {
    exists|x: int| is_ink(rows, x, y)
}

/// Whether `(x0, y0, x1, y1)`, end-exclusive, is the smallest box around the
/// content: all of it lies inside, and each side touches some.
pub open spec fn is_ink_box(rows: Seq<Seq<u8>>, b: (int, int, int, int)) -> bool {
    &&& forall|x: int, y: int|
        is_ink(rows, x, y) ==> b.0 <= x < b.2 && b.1 <= y < b.3
    &&& ink_in_column(rows, b.0)
    &&& ink_in_row(rows, b.1)
    &&& ink_in_column(rows, b.2 - 1)
    &&& ink_in_row(rows, b.3 - 1)
}

/// The smallest box around the content.
pub open spec fn ink_box(rows: Seq<Seq<u8>>) -> (int, int, int, int) {
    choose|b: (int, int, int, int)| is_ink_box(rows, b)
}

proof fn lemma_columns_inside(rows: Seq<Seq<u8>>, b: (int, int, int, int), x: int)
    requires
        is_ink_box(rows, b),
        ink_in_column(rows, x),
    ensures
        b.0 <= x < b.2,
{
    let y = choose|y: int| is_ink(rows, x, y);
    assert(is_ink(rows, x, y));
}

proof fn lemma_rows_inside(rows: Seq<Seq<u8>>, b: (int, int, int, int), y: int)
    requires
        is_ink_box(rows, b),
        ink_in_row(rows, y),
    ensures
        b.1 <= y < b.3,
{
    let x = choose|x: int| is_ink(rows, x, y);
    assert(is_ink(rows, x, y));
}

/// There is only one smallest box.
pub proof fn ink_box_is_unique(
    rows: Seq<Seq<u8>>,
    a: (int, int, int, int),
    b: (int, int, int, int),
)
    requires
        is_ink_box(rows, a),
        is_ink_box(rows, b),
    ensures
        a == b,
{
    lemma_columns_inside(rows, a, b.0);
    lemma_columns_inside(rows, b, a.0);
    lemma_columns_inside(rows, a, b.2 - 1);
    lemma_columns_inside(rows, b, a.2 - 1);
    lemma_rows_inside(rows, a, b.1);
    lemma_rows_inside(rows, b, a.1);
    lemma_rows_inside(rows, a, b.3 - 1);
    lemma_rows_inside(rows, b, a.3 - 1);
}

/// The page's physical width in whole millimetres, where it declares a
/// resolution; the number is cut to 32 bits.
pub open spec fn page_width_mm(width: u32, dpi: u32) -> Option<u32> {
    if dpi > 0 {
        Some(((width * 254) / (dpi * 10) % 0x1_0000_0000) as u32)
    } else {
        None
    }
}

/// Whether the client laid the page out for a receipt printer.
pub open spec fn is_receipt(width: u32, dpi: u32) -> bool {
    page_width_mm(width, dpi) matches Some(mm) && mm <= RECEIPT_MAX_WIDTH_MM
}

/// What is left of an image when blank rows at the top and bottom go.
pub open spec fn trimmed(rows: Seq<Seq<u8>>, width: int) -> Seq<Seq<u8>> {
    let b = ink_box(rows);
    cropped(rows, 0, b.1, width, b.3)
}

/// The content of an image with a white border of 2 % of its width, at least
/// one pixel, as far as the image reaches.
pub open spec fn cut_to_ink(rows: Seq<Seq<u8>>, width: int) -> Seq<Seq<u8>> {
    let b = ink_box(rows);
    let share = (b.2 - b.0) / 50;
    let margin = if share < 1 {
        1
    } else {
        share
    };
    cropped(
        rows,
        if b.0 < margin {
            0
        } else {
            b.0 - margin
        },
        if b.1 < margin {
            0
        } else {
            b.1 - margin
        },
        if b.2 + margin > width {
            width
        } else {
            b.2 + margin
        },
        if b.3 + margin > rows.len() {
            rows.len() as int
        } else {
            b.3 + margin
        },
    )
}

/// The part of a page that is printed; `None` for a blank page.
pub open spec fn fitted(page: PageModel) -> Option<Seq<Seq<u8>>> {
    let width = page.rows[0].len() as int;
    if !has_ink(page.rows) {
        None
    } else if is_receipt(page.width, page.dpi) {
        Some(trimmed(page.rows, width))
    } else {
        Some(cut_to_ink(page.rows, width))
    }
}

/// Physical page width in millimetres, when the header declares a usable dpi.
pub fn width_mm(page: &UrfPage) -> (mm: Option<u32>)
    ensures
        mm == page_width_mm(page.width, page.dpi),
{
    if page.dpi > 0 {
        let mm: u64 = (page.width as u64) * 254 / ((page.dpi as u64) * 10);
        Some((mm % 0x1_0000_0000) as u32)
    } else {
        None
    }
}

/// Bounding box of non-white pixels as `(x0, y0, x1, y1)`, end-exclusive.
///
/// Returns `None` for a page with no content at all, which the caller should
/// skip rather than print as blank paper.
#[verifier::loop_isolation(false)]
pub fn ink_bounds(img: &GrayImage) -> (bounds: Option<(u32, u32, u32, u32)>)
    ensures
        bounds is Some <==> has_ink(img@),
        bounds matches Some(b) ==> {
            &&& is_ink_box(img@, (b.0 as int, b.1 as int, b.2 as int, b.3 as int))
            &&& ink_box(img@) == (b.0 as int, b.1 as int, b.2 as int, b.3 as int)
            &&& b.0 < b.2 <= img.spec_width()
            &&& b.1 < b.3 <= img@.len()
        },
{
    let width: u32 = img.width();
    let height: u32 = img.height();
    let ghost rows = img@;
    let mut found: bool = false;
    let mut x0: u32 = 0;
    let mut y0: u32 = 0;
    let mut x1: u32 = 0;
    let mut y1: u32 = 0;
    // One point of content on each side of the box.
    let ghost mut left: int = 0;
    let ghost mut top: int = 0;
    let ghost mut right: int = 0;
    let ghost mut bottom: int = 0;
    let mut y: u32 = 0;
    while y < height
        invariant
            y <= height,
            found ==> y0 <= y,
            found ==> is_ink(rows, x0 as int, left) && is_ink(rows, top, y0 as int) && is_ink(
                rows,
                x1 - 1,
                right,
            ) && is_ink(rows, bottom, y1 - 1),
            forall|u: int, v: int|
                is_ink(rows, u, v) && v < y ==> found && x0 <= u < x1 && y0 <= v < y1,
        decreases height - y,
    {
        let line: &Vec<u8> = img.row(y);
        let mut x: u32 = 0;
        while x < width
            invariant
                x <= width,
                found ==> y0 <= y,
                found ==> is_ink(rows, x0 as int, left) && is_ink(rows, top, y0 as int) && is_ink(
                    rows,
                    x1 - 1,
                    right,
                ) && is_ink(rows, bottom, y1 - 1),
                forall|u: int, v: int|
                    is_ink(rows, u, v) && (v < y || (v == y && u < x)) ==> found && x0 <= u < x1
                        && y0 <= v < y1,
            decreases width - x,
        {
            if line[x as usize] <= INK_THRESHOLD {
                assert(is_ink(rows, x as int, y as int));
                if !found {
                    found = true;
                    x0 = x;
                    y0 = y;
                    x1 = x + 1;
                    y1 = y + 1;
                    proof {
                        left = y as int;
                        top = x as int;
                        right = y as int;
                        bottom = x as int;
                    }
                } else {
                    if x < x0 {
                        x0 = x;
                        proof {
                            left = y as int;
                        }
                    }
                    if x + 1 > x1 {
                        x1 = x + 1;
                        proof {
                            right = y as int;
                        }
                    }
                    if y + 1 > y1 {
                        y1 = y + 1;
                        proof {
                            bottom = x as int;
                        }
                    }
                }
            }
            x = x + 1;
        }
        y = y + 1;
    }
    if found {
        let ghost b = (x0 as int, y0 as int, x1 as int, y1 as int);
        proof {
            assert(ink_in_column(rows, x0 as int) && ink_in_column(rows, x1 - 1));
            assert(ink_in_row(rows, y0 as int) && ink_in_row(rows, y1 - 1));
            assert(is_ink_box(rows, b));
            ink_box_is_unique(rows, b, ink_box(rows));
            assert(is_ink(rows, x0 as int, left));
            assert(is_ink(rows, top, y0 as int));
        }
        Some((x0, y0, x1, y1))
    } else {
        None
    }
}

/// Drop entirely blank rows from the top and bottom, keeping the full width.
///
/// The horizontal position is left alone: on a page already sized for this
/// paper, the client's layout *is* the intended layout, and re-centring it
/// would undo that. Only the leading and trailing whitespace goes, because on
/// a continuous roll that whitespace is literally paper.
pub fn trim_blank_rows(img: &GrayImage) -> (part: Option<GrayImage>)
    ensures
        part is Some <==> has_ink(img@),
        part matches Some(p) ==> p@ == trimmed(img@, img.spec_width() as int) && p.spec_width()
            == img.spec_width() && p@.len() > 0,
{
    match ink_bounds(img) {
        None => None,
        Some(b) => Some(img.crop(0, b.1, img.width(), b.3)),
    }
}

/// Crop a page to its content, with a proportional white margin.
pub fn crop_to_ink(img: &GrayImage) -> (part: Option<GrayImage>)
    ensures
        part is Some <==> has_ink(img@),
        part matches Some(p) ==> p@ == cut_to_ink(img@, img.spec_width() as int) && p.spec_width()
            > 0 && p@.len() > 0,
{
    match ink_bounds(img) {
        None => None,
        Some((x0, y0, x1, y1)) => {
            let share: u32 = (x1 - x0) / CROP_MARGIN_RATIO;
            let margin: u32 = if share < 1 {
                1
            } else {
                share
            };
            let left: u32 = x0.saturating_sub(margin);
            let top: u32 = y0.saturating_sub(margin);
            let width: u32 = img.width();
            let height: u32 = img.height();
            let right: u32 = if margin > width - x1 {
                width
            } else {
                x1 + margin
            };
            let bottom: u32 = if margin > height - y1 {
                height
            } else {
                y1 + margin
            };
            Some(img.crop(left, top, right, bottom))
        },
    }
}

/// The part of a page to print.
///
/// How a page is fitted depends on whether the client laid it out for this
/// printer, which the page's own physical width reveals:
///
/// - **Already receipt-width** (see [`RECEIPT_MAX_WIDTH_MM`]) — the client
///   honoured our 48 mm media advertisement, so its layout is authoritative.
///   Only leading and trailing blank rows are trimmed; on a continuous roll
///   those are paper, not margin.
/// - **A full sheet** — the client ignored the advertisement and sent US
///   Letter. Scaling 5100 px whole onto 384 px is a 13x reduction that renders
///   12 pt text about 7 px tall: legible on screen, grey mush on a thermal
///   head. So the page is cropped to its ink and *that* is scaled up, which
///   keeps a short document readable at the cost of making apparent type size
///   depend on how much content the page holds.
pub fn fit_page(page: &UrfPage) -> (part: Option<GrayImage>)
    ensures
        part is Some <==> fitted(page@) is Some,
        part matches Some(p) ==> Some(p@) == fitted(page@) && p.spec_width() > 0 && p@.len() > 0,
{
    let width: u32 = page.gray.width();
    proof {
        if has_ink(page.gray@) {
            let (x, y) = choose|x: int, y: int| is_ink(page.gray@, x, y);
            assert(is_ink(page.gray@, x, y));
            assert(page.gray@[y].len() == width && page.gray@[0].len() == width);
        }
    }
    let receipt: bool = match width_mm(page) {
        Some(mm) => mm <= RECEIPT_MAX_WIDTH_MM,
        None => false,
    };
    if receipt {
        trim_blank_rows(&page.gray)
    } else {
        crop_to_ink(&page.gray)
    }
}

/// Blank rows between the pages of a multi-page job.
pub const PAGE_GAP: usize = 24;

/// The parts of the pages that are printed, in order; blank pages have none.
pub open spec fn fitted_pages(pages: Seq<PageModel>) -> Seq<Seq<Seq<u8>>>
    decreases pages.len(),
{
    if pages.len() == 0 {
        Seq::empty()
    } else {
        let before = fitted_pages(pages.drop_last());
        match fitted(pages.last()) {
            Some(part) => before.push(part),
            None => before,
        }
    }
}

/// Whether `printed` is a print of a part: scaled to the print width and
/// dithered.
pub open spec fn prints_as(
    part: Seq<Seq<u8>>,
    dither: Dither,
    printed: Seq<Seq<u8>>,
) -> bool {
    exists|scaled: Seq<Seq<u8>>|
        is_prepared(part, part[0].len() as u32, scaled) && #[trigger] is_dithered(
            scaled,
            384,
            dither,
            printed,
        )
}

/// Whether `printed` holds a print of each part.
pub open spec fn are_printed(
    parts: Seq<Seq<Seq<u8>>>,
    dither: Dither,
    printed: Seq<Seq<Seq<u8>>>,
) -> bool {
    &&& printed.len() == parts.len()
    &&& forall|i: int| 0 <= i < parts.len() ==> prints_as(parts[i], dither, #[trigger] printed[i])
}

/// Whether `out` is a print of the given parts: each one printed, one below the
/// other with a gap between.
pub open spec fn is_print_of(parts: Seq<Seq<Seq<u8>>>, dither: Dither, out: Seq<Seq<u8>>) -> bool {
    exists|printed: Seq<Seq<Seq<u8>>>|
        #[trigger] are_printed(parts, dither, printed) && out == stacked(printed, PAGE_GAP as nat)
}

/// The rows that a part takes once it is scaled to the print width.
pub open spec fn part_height(part: Seq<Seq<u8>>) -> int {
    prepared_height(part[0].len() as u32, part.len() as u32)
}

/// The rows that a print of some parts takes, with the gaps between them.
pub open spec fn print_height(parts: Seq<Seq<Seq<u8>>>) -> int
    decreases parts.len(),
{
    if parts.len() == 0 {
        0
    } else if parts.len() == 1 {
        part_height(parts[0])
    } else {
        print_height(parts.drop_last()) + PAGE_GAP + part_height(parts.last())
    }
}

proof fn lemma_print_height(
    parts: Seq<Seq<Seq<u8>>>,
    dither: Dither,
    printed: Seq<Seq<Seq<u8>>>,
)
    requires
        are_printed(parts, dither, printed),
        forall|i: int|
            0 <= i < parts.len() ==> (#[trigger] parts[i]).len() > 0 && 0 < parts[i][0].len()
                <= u32::MAX,
    ensures
        stacked(printed, PAGE_GAP as nat).len() == print_height(parts),
    decreases parts.len(),
{
    if parts.len() > 0 {
        let n = parts.len() - 1;
        assert(prints_as(parts[n], dither, printed[n]));
        assert(printed[n].len() == part_height(parts[n]));
        if parts.len() > 1 {
            let shorter = printed.drop_last();
            assert forall|i: int| 0 <= i < n implies prints_as(
                parts.drop_last()[i],
                dither,
                #[trigger] shorter[i],
            ) by {
                assert(shorter[i] == printed[i]);
            }
            lemma_print_height(parts.drop_last(), dither, shorter);
        }
    }
}

/// The parts of the pages to print; blank pages are skipped.
pub fn fit_pages(pages: &[UrfPage]) -> (parts: Vec<GrayImage>)
    ensures
        parts@.len() == fitted_pages(page_models(pages@)).len(),
        parts@.len() <= pages@.len(),
        forall|i: int|
            0 <= i < parts@.len() ==> (#[trigger] parts@[i])@ == fitted_pages(page_models(pages@))[i]
                && parts@[i].spec_width() > 0 && parts@[i]@.len() > 0,
{
    let mut parts: Vec<GrayImage> = Vec::new();
    let mut i: usize = 0;
    while i < pages.len()
        invariant
            i <= pages@.len(),
            parts@.len() == fitted_pages(page_models(pages@).take(i as int)).len(),
            parts@.len() <= i,
            forall|k: int|
                0 <= k < parts@.len() ==> (#[trigger] parts@[k])@ == fitted_pages(
                    page_models(pages@).take(i as int),
                )[k] && parts@[k].spec_width() > 0 && parts@[k]@.len() > 0,
        decreases pages@.len() - i,
    {
        proof {
            let models = page_models(pages@);
            assert(models.take(i + 1).drop_last() =~= models.take(i as int));
        }
        match fit_page(&pages[i]) {
            Some(part) => {
                parts.push(part);
            },
            None => {},
        }
        i = i + 1;
    }
    assert(page_models(pages@).take(i as int) =~= page_models(pages@));
    parts
}

/// Turn decoded URF pages into one printable 384 px bitmap.
///
/// Each page is fitted (see [`fit_page`]), scaled to the print width and
/// dithered. Blank pages are skipped entirely, so a trailing empty page costs
/// no paper.
pub fn pages_to_bitmap(pages: &[UrfPage], dither: Dither) -> (out: Bitmap)
    ensures
        is_print_of(fitted_pages(page_models(pages@)), dither, out@),
        out@.len() == print_height(fitted_pages(page_models(pages@))),
{
    let parts: Vec<GrayImage> = fit_pages(pages);
    let ghost shown = fitted_pages(page_models(pages@));
    let mut bitmaps: Vec<Bitmap> = Vec::new();
    let mut i: usize = 0;
    while i < parts.len()
        invariant
            i <= parts@.len(),
            parts@.len() == shown.len(),
            forall|k: int|
                0 <= k < parts@.len() ==> (#[trigger] parts@[k])@ == shown[k]
                    && parts@[k].spec_width() > 0 && parts@[k]@.len() > 0,
            bitmaps@.len() == i,
            forall|k: int|
                0 <= k < i ==> prints_as(shown[k], dither, (#[trigger] bitmaps@[k])@),
            forall|k: int|
                0 <= k < i ==> (#[trigger] shown[k]).len() > 0 && 0 < shown[k][0].len()
                    <= u32::MAX,
        decreases parts@.len() - i,
    {
        let width: u32 = parts[i].width();
        assert(parts@[i as int]@[0].len() == width);
        let prepared: GrayImage = prepare(&parts[i]);
        let bitmap: Bitmap = image_to_bitmap(&prepared, dither);
        assert(is_dithered(prepared@, 384, dither, bitmap@));
        bitmaps.push(bitmap);
        i = i + 1;
    }
    let out: Bitmap = stack_with_gap(&bitmaps, PAGE_GAP);
    proof {
        let printed = rows_of(bitmaps@);
        assert forall|k: int| 0 <= k < shown.len() implies prints_as(
            shown[k],
            dither,
            #[trigger] printed[k],
        ) by {
            assert(printed[k] == bitmaps@[k]@);
        }
        assert(are_printed(shown, dither, printed));
        lemma_print_height(shown, dither, printed);
    }
    out
}

/// The pages of a list that have any content.
pub open spec fn inked_pages(pages: Seq<PageModel>) -> Seq<PageModel>
    decreases pages.len(),
{
    if pages.len() == 0 {
        Seq::empty()
    } else if has_ink(pages.last().rows) {
        inked_pages(pages.drop_last()).push(pages.last())
    } else {
        inked_pages(pages.drop_last())
    }
}

proof fn lemma_inked_are_fitted(pages: Seq<PageModel>)
    ensures
        inked_pages(pages).len() == fitted_pages(pages).len(),
        forall|i: int|
            0 <= i < inked_pages(pages).len() ==> fitted(#[trigger] inked_pages(pages)[i]) == Some(
                fitted_pages(pages)[i],
            ),
    decreases pages.len(),
{
    if pages.len() > 0 {
        lemma_inked_are_fitted(pages.drop_last());
    }
}

proof fn lemma_single_print(page: PageModel, dither: Dither, out: Seq<Seq<u8>>)
    requires
        fitted(page) is Some,
    ensures
        is_print_of(fitted_pages(seq![page]), dither, out) <==> prints_as(
            fitted(page)->Some_0,
            dither,
            out,
        ),
{
    let part = fitted(page)->Some_0;
    let parts = fitted_pages(seq![page]);
    assert(seq![page].drop_last() =~= Seq::empty());
    reveal_with_fuel(fitted_pages, 2);
    assert(parts =~= seq![part]);
    if is_print_of(parts, dither, out) {
        let printed = choose|printed: Seq<Seq<Seq<u8>>>|
            #[trigger] are_printed(parts, dither, printed) && out == stacked(
                printed,
                PAGE_GAP as nat,
            );
        assert(prints_as(parts[0], dither, printed[0]));
    }
    if prints_as(part, dither, out) {
        assert(are_printed(parts, dither, seq![out]));
    }
}

/// A page prints alike alone and in a stack: the prints of several pages are
/// the prints of the pages that have any content, each printed alone, one below
/// the other with 24 white rows between two neighbours and none before the
/// first or after the last. Blank pages add nothing, and nothing but blank
/// pages prints nothing.
pub proof fn pages_print_alike_alone_and_together(
    pages: Seq<PageModel>,
    dither: Dither,
    out: Seq<Seq<u8>>,
)
    ensures
        is_print_of(fitted_pages(pages), dither, out) <==> exists|alone: Seq<Seq<Seq<u8>>>|
            {
                &&& alone.len() == inked_pages(pages).len()
                &&& forall|i: int|
                    0 <= i < alone.len() ==> is_print_of(
                        fitted_pages(seq![inked_pages(pages)[i]]),
                        dither,
                        #[trigger] alone[i],
                    )
                &&& out == #[trigger] stacked(alone, 24)
            },
        inked_pages(pages).len() == 0 && is_print_of(fitted_pages(pages), dither, out) ==> out.len()
            == 0,
{
    let parts = fitted_pages(pages);
    let inked = inked_pages(pages);
    lemma_inked_are_fitted(pages);
    assert forall|i: int, one: Seq<Seq<u8>>| 0 <= i < inked.len() implies is_print_of(
        fitted_pages(seq![inked[i]]),
        dither,
        one,
    ) == #[trigger] prints_as(parts[i], dither, one) by {
        lemma_single_print(inked[i], dither, one);
    }
    if is_print_of(parts, dither, out) {
        let alone = choose|printed: Seq<Seq<Seq<u8>>>|
            #[trigger] are_printed(parts, dither, printed) && out == stacked(
                printed,
                PAGE_GAP as nat,
            );
        assert forall|i: int| 0 <= i < alone.len() implies is_print_of(
            fitted_pages(seq![inked[i]]),
            dither,
            #[trigger] alone[i],
        ) by {
            assert(prints_as(parts[i], dither, alone[i]));
        }
        assert(out == stacked(alone, 24));
    }
    if exists|alone: Seq<Seq<Seq<u8>>>|
        {
            &&& alone.len() == inked.len()
            &&& forall|i: int|
                0 <= i < alone.len() ==> is_print_of(
                    fitted_pages(seq![inked[i]]),
                    dither,
                    #[trigger] alone[i],
                )
            &&& out == #[trigger] stacked(alone, 24)
        } {
        let alone = choose|alone: Seq<Seq<Seq<u8>>>|
            {
                &&& alone.len() == inked.len()
                &&& forall|i: int|
                    0 <= i < alone.len() ==> is_print_of(
                        fitted_pages(seq![inked[i]]),
                        dither,
                        #[trigger] alone[i],
                    )
                &&& out == #[trigger] stacked(alone, 24)
            };
        assert forall|i: int| 0 <= i < parts.len() implies prints_as(
            parts[i],
            dither,
            #[trigger] alone[i],
        ) by {
            assert(is_print_of(fitted_pages(seq![inked[i]]), dither, alone[i]));
        }
        assert(are_printed(parts, dither, alone));
    }
}

/// Paper is used exactly if some page has content.
pub proof fn only_content_costs_paper(pages: Seq<PageModel>)
    ensures
        print_height(fitted_pages(pages)) > 0 <==> exists|i: int|
            0 <= i < pages.len() && has_ink((#[trigger] pages[i]).rows),
        print_height(fitted_pages(pages)) >= 0,
    decreases pages.len(),
{
    if pages.len() > 0 {
        let before = pages.drop_last();
        only_content_costs_paper(before);
        lemma_height_grows(fitted_pages(before));
        lemma_height_grows(fitted_pages(pages));
        if has_ink(pages.last().rows) {
            assert(fitted(pages.last()) is Some);
            assert(has_ink(pages[pages.len() - 1].rows));
        } else if exists|i: int| 0 <= i < pages.len() && has_ink((#[trigger] pages[i]).rows) {
            let i = choose|i: int| 0 <= i < pages.len() && has_ink((#[trigger] pages[i]).rows);
            assert(has_ink(before[i].rows));
        }
        if exists|i: int| 0 <= i < before.len() && has_ink((#[trigger] before[i]).rows) {
            let i = choose|i: int| 0 <= i < before.len() && has_ink((#[trigger] before[i]).rows);
            assert(has_ink(pages[i].rows));
        }
    }
}

proof fn lemma_height_grows(parts: Seq<Seq<Seq<u8>>>)
    ensures
        print_height(parts) >= parts.len(),
    decreases parts.len(),
{
    if parts.len() > 1 {
        lemma_height_grows(parts.drop_last());
    }
}

/// A blank page costs no paper, wherever it stands: what is printed is the same
/// with it and without it.
pub proof fn blank_page_costs_no_paper(
    before: Seq<PageModel>,
    page: PageModel,
    after: Seq<PageModel>,
)
    requires
        !has_ink(page.rows),
    ensures
        fitted_pages(before + seq![page] + after) == fitted_pages(before + after),
    decreases after.len(),
{
    let whole = before + seq![page] + after;
    if after.len() == 0 {
        assert(whole.drop_last() =~= before);
        assert(before + after =~= before);
    } else {
        assert(whole.drop_last() =~= before + seq![page] + after.drop_last());
        assert((before + after).drop_last() =~= before + after.drop_last());
        blank_page_costs_no_paper(before, page, after.drop_last());
    }
}

/// Every decoded page has the size that its header declares, and the limits
/// hold.
pub proof fn decoded_page_has_declared_size(bytes: Seq<u8>, pos: int, index: u32)
    requires
        page_from(bytes, pos, index) is Ok,
    ensures
        ({
            let page = page_from(bytes, pos, index)->Ok_0.0;
            &&& page.rows.len() == page.height
            &&& is_image(page.rows, page.width)
            &&& 0 < page.width <= MAX_DIMENSION
            &&& 0 < page.height <= MAX_DIMENSION
            &&& page.width * page.height <= MAX_PIXELS
        }),
{
    let width = be32_at(bytes, pos + 12);
    let height = be32_at(bytes, pos + 16);
    lemma_rows_have_size(
        bytes,
        pos + PAGE_HEADER_LEN,
        width as int,
        height as int,
        (bytes[pos] / 8) as int,
        index,
        Seq::empty(),
    );
}

proof fn lemma_rows_have_size(
    bytes: Seq<u8>,
    pos: int,
    width: int,
    height: int,
    bytes_per_pixel: int,
    page: u32,
    done: Seq<Seq<u8>>,
)
    requires
        0 < width,
        done.len() <= height,
        forall|y: int| 0 <= y < done.len() ==> (#[trigger] done[y]).len() == width,
    ensures
        rows_from(bytes, pos, width, height, bytes_per_pixel, page, done) matches Ok(r) ==> {
            &&& r.0.len() == height
            &&& forall|y: int| 0 <= y < height ==> (#[trigger] r.0[y]).len() == width
        },
    decreases height - done.len(),
{
    if done.len() < height && pos + 1 <= bytes.len() {
        lemma_row_length(
            bytes,
            pos + 1,
            width,
            bytes_per_pixel,
            page,
            done.len() as u32,
            Seq::empty(),
        );
        match row_from(
            bytes,
            pos + 1,
            width,
            bytes_per_pixel,
            page,
            done.len() as u32,
            Seq::empty(),
        ) {
            Err(e) => {},
            Ok((row, after)) => {
                let copies = if bytes[pos] + 1 <= height - done.len() {
                    bytes[pos] + 1
                } else {
                    height - done.len()
                };
                lemma_rows_have_size(
                    bytes,
                    after,
                    width,
                    height,
                    bytes_per_pixel,
                    page,
                    done + Seq::new(copies as nat, |i: int| row),
                );
            },
        }
    }
}

/// The end-of-row marker leaves the rest of the line white, whatever stood in
/// the line before it.
pub proof fn end_of_row_blanks_the_remainder(
    bytes: Seq<u8>,
    pos: int,
    width: int,
    bytes_per_pixel: int,
    page: u32,
    y: u32,
    done: Seq<u8>,
)
    requires
        done.len() < width,
        0 <= pos < bytes.len(),
        bytes[pos] == END_OF_ROW,
    ensures
        row_from(bytes, pos, width, bytes_per_pixel, page, y, done) == Ok::<
            (Seq<u8>, int),
            UrfError,
        >((done + Seq::new((width - done.len()) as nat, |i: int| 255u8), pos + 1)),
{
}

/// A gray pixel keeps its shade when it is given as three equal parts.
pub proof fn luma_of_gray_is_itself(v: u8)
    ensures
        luma_of(v, v, v) == v,
{
}

} // verus!
