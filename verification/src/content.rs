//! From content to what goes on paper: the bitmap of a text, a document or a
//! code, and whether it is printed or previewed.

use crate::images::ResolvedImage;
use crate::raster::bitmap::Bitmap;
use crate::raster::faces::Faces;
use crate::raster::markdown::render::render_markdown_with;
use crate::raster::preview::bitmap_to_png;
use crate::raster::qr::render_qr;
use crate::raster::text::render_text;
use crate::strings::is_blank;
use vstd::prelude::*;
#[allow(unused_imports)]
use crate::cli::arg_text;
#[allow(unused_imports)]
use crate::raster::bitmap::blank_rows;
#[allow(unused_imports)]
use crate::raster::markdown::events::{marks_of, words_of};
#[allow(unused_imports)]
use crate::raster::markdown::model::blocks_of;
#[allow(unused_imports)]
use crate::raster::markdown::render::{dests, is_document};
#[allow(unused_imports)]
use crate::raster::preview::{png_bytes, preview_height, preview_shades};
#[allow(unused_imports)]
use crate::raster::qr::{is_captioned, qr_modules};
#[allow(unused_imports)]
use crate::raster::rich::rows_of;
#[allow(unused_imports)]
use crate::raster::text::text_lines;
#[allow(unused_imports)]
use crate::raster::typeset::shows;
#[allow(unused_imports)]
use crate::strings::is_blank_text;

verus! {

/// Whether a bitmap is a markdown document with the images that were resolved.
pub open spec fn is_markdown_print(
    b: &Bitmap,
    md: Seq<char>,
    images: Seq<ResolvedImage>,
    faces: &Faces,
) -> bool {
    is_document(b@, blocks_of(marks_of(md), words_of(md), dests(images)), images, faces)
}

/// Render a markdown document with the images that were resolved for it. There
/// must be something in it.
pub fn markdown_bitmap(text: &str, images: &Vec<ResolvedImage>, faces: &Faces) -> (r: Result<
    Bitmap,
    String,
>)
    ensures
        match r {
            Ok(b) => !is_blank_text(text@) && is_markdown_print(&b, text@, images@, faces),
            Err(e) => is_blank_text(text@) && e@ == "nothing to print"@,
        },
{
    if is_blank(text) {
        return Err("nothing to print".to_owned());
    }
    Ok(render_markdown_with(text, images, faces))
}

/// Render plain text at a size in 64ths of a pixel. There must be something in
/// it.
pub fn text_bitmap(text: &str, size: u32, faces: &Faces) -> (r: Result<Bitmap, String>)
    ensures
        match r {
            Ok(b) => !is_blank_text(text@) && shows(
                &b,
                faces,
                rows_of(faces, text_lines(text@, size)),
            ),
            Err(e) => is_blank_text(text@) && e@ == "nothing to print"@,
        },
{
    if is_blank(text) {
        return Err("nothing to print".to_owned());
    }
    Ok(render_text(text, size, faces))
}

/// Render text that arrived without a file behind it — stdin, `-f -`, or a
/// positional argument.
///
/// `--markdown` is the only way to reach the markdown renderer here: there is
/// no filename, so nothing else could tell a document from literal text.
pub fn inline_bitmap(
    text: &str,
    markdown: bool,
    size: u32,
    images: &Vec<ResolvedImage>,
    faces: &Faces,
) -> (r: Result<Bitmap, String>)
    ensures
        match r {
            Ok(b) => !is_blank_text(text@) && if markdown {
                is_markdown_print(&b, text@, images@, faces)
            } else {
                shows(&b, faces, rows_of(faces, text_lines(text@, size)))
            },
            Err(e) => is_blank_text(text@) && e@ == "nothing to print"@,
        },
{
    if markdown {
        markdown_bitmap(text, images, faces)
    } else {
        text_bitmap(text, size, faces)
    }
}

/// Render a QR code for the `qr` command.
pub fn qr_bitmap(data: &str, caption: Option<&str>, faces: &Faces) -> (r: Result<Bitmap, String>)
    ensures
        match r {
            Ok(b) => qr_modules(data@) matches Some(code) && is_captioned(
                b@,
                code.0 as int,
                code.1,
                arg_text(caption),
                faces,
            ),
            Err(e) => qr_modules(data@) is None && e@ == "cannot render QR code: "@
                + "data too long to fit in a QR code"@,
        },
{
    match render_qr(data, caption, faces) {
        Ok(b) => Ok(b),
        Err(e) => {
            let mut why: String = "cannot render QR code: ".to_owned();
            why.append(e.message().as_str());
            Err(why)
        },
    }
}

/// What becomes of a bitmap.
#[derive(Debug)]
pub enum Dispatch {
    /// Write this PNG, after saying the note.
    Preview { note: Option<String>, png: Vec<u8> },
    /// Hand this on to the print service.
    Print(Bitmap),
}

/// The rows of a preview: the content and the paper feed behind it.
pub open spec fn with_feed(rows: Seq<Seq<u8>>, feed: nat) -> Seq<Seq<u8>> {
    rows + blank_rows(feed)
}

/// Whether PNG bytes show some rows.
pub open spec fn is_png_of(png: Seq<u8>, rows: Seq<Seq<u8>>) -> bool {
    exists|b: Bitmap| #[trigger]
        b@ == rows && png == png_bytes(384, preview_height(&b) as u32, preview_shades(&b))
}

/// The common tail of printing: a preview never reaches a printer, and renders a
/// single copy with its feed; everything else goes to the print service.
pub fn dispatch(bitmap: Bitmap, preview: bool, feed: usize, copies: u16) -> (d: Dispatch)
    requires
        preview ==> bitmap@.len() + feed <= u32::MAX,
    ensures
        match d {
            Dispatch::Preview { note, png } => {
                &&& preview
                &&& is_png_of(png@, with_feed(bitmap@, feed as nat))
                &&& note is Some <==> copies > 1
                &&& note matches Some(text) ==> text@
                    == "note: preview renders a single copy; --copies is ignored"@
            },
            Dispatch::Print(b) => !preview && b@ == bitmap@,
        },
{
    if !preview {
        return Dispatch::Print(bitmap);
    }
    let note: Option<String> = if copies > 1 {
        Some("note: preview renders a single copy; --copies is ignored".to_owned())
    } else {
        None
    };
    let mut shown: Bitmap = bitmap;
    shown.extend_blank(feed);
    assert(shown@ =~= with_feed(bitmap@, feed as nat));
    let png: Vec<u8> = bitmap_to_png(&shown);
    Dispatch::Preview { note, png }
}

/// A preview shows the content unchanged, and behind it as many blank rows as the
/// paper is fed.
pub proof fn previews_show_the_content_and_the_feed(rows: Seq<Seq<u8>>, feed: nat, y: int, k: int)
    requires
        0 <= y < rows.len() + feed,
        0 <= k < 48,
    ensures
        with_feed(rows, feed).len() == rows.len() + feed,
        y < rows.len() ==> with_feed(rows, feed)[y] == rows[y],
        y >= rows.len() ==> with_feed(rows, feed)[y].len() == 48 && with_feed(rows, feed)[y][k] == 0,
{
}

} // verus!
