//! QR code → 1-bit bitmap rendering.
//!
//! The code gets a quiet zone of four modules, is scaled by the largest integer
//! factor that fits 384 px and centered, with [`MARGIN`] px of white above and
//! below. A caption goes below the code, at body size, left-aligned.

use crate::raster::bitmap::{Bitmap, WIDTH};
use crate::raster::faces::Faces;
use crate::raster::rich::BODY_SIZE;
use crate::raster::stack::stack;
use crate::raster::text::render_text;
use vstd::prelude::*;
#[allow(unused_imports)]
use crate::cli::arg_text;
#[allow(unused_imports)]
use crate::raster::bitmap::blank_row_is_white;
#[allow(unused_imports)]
use crate::raster::rich::rows_of as text_rows;
#[allow(unused_imports)]
use crate::raster::stack::{rows_of, stacked};
#[allow(unused_imports)]
use crate::raster::text::text_lines;
#[allow(unused_imports)]
use crate::raster::typeset::shows;

verus! {

/// White rows above and below the code.
pub const MARGIN: usize = 16;

/// Modules of white around the code.
pub const QUIET_MODULES: usize = 4;

/// Errors from QR encoding.
#[derive(Debug, Clone, Copy, PartialEq, Eq, Structural)]
pub enum QrError {
    /// The payload fits no QR version.
    TooLong,
}

impl QrError {
    /// The wording of [`QrError::message`].
    pub open spec fn wording(&self) -> Seq<char> {
        "data too long to fit in a QR code"@
    }

    /// One line for the user.
    pub fn message(&self) -> (text: String)
        ensures
            text@ == self.wording(),
    {
        "data too long to fit in a QR code".to_owned()
    }
}

/// The modules of the code for some data, row by row: the number on a side, and
/// for each whether it is dark. Data that fits no version has none.
pub uninterp spec fn qr_modules(data: Seq<char>) -> Option<(usize, Seq<bool>)>;

/// Whether modules have the form of a code: a square of 21 to 177 on a side.
pub open spec fn is_code(side: usize, modules: Seq<bool>) -> bool {
    21 <= side <= 177 && modules.len() == side * side
}

/// `QrCode::new` of the `qrcode` crate, with the `width` and the colors of the
/// code it returns. The result depends on the data alone. A code is a square of
/// 17 modules and four more for each of its versions 1 to 40; the only failure is
/// data that is too long for version 40. How the modules follow from the data is
/// left unsaid.
#[verifier::external_body]
fn encode_qr(data: &str) -> (code: Option<(usize, Vec<bool>)>)
    ensures
        match code {
            Some(c) => qr_modules(data@) == Some((c.0, c.1@)) && is_code(c.0, c.1@),
            None => qr_modules(data@) is None,
        },
{
    match qrcode::QrCode::new(data) {
        Ok(code) => {
            let side = code.width();
            let colors = code.into_colors();
            Some((side, colors.into_iter().map(|c| c == qrcode::Color::Dark).collect()))
        },
        Err(_) => None,
    }
}

/// Pixels on the side of a module.
pub open spec fn module_scale(side: int) -> int {
    384int / (side + 8)
}

/// Pixels on the side of the code, quiet zone included.
pub open spec fn code_side(side: int) -> int {
    module_scale(side) * (side + 8)
}

/// The column where the modules begin.
pub open spec fn code_left(side: int) -> int {
    (384 - code_side(side)) / 2 + 4 * module_scale(side)
}

/// The row where the modules begin.
pub open spec fn code_top(side: int) -> int {
    16 + 4 * module_scale(side)
}

/// Whether a pixel lies in a dark module.
pub open spec fn is_dark(side: int, modules: Seq<bool>, x: int, y: int) -> bool {
    let scale = module_scale(side);
    let u = x - code_left(side);
    let v = y - code_top(side);
    &&& 0 <= u < scale * side
    &&& 0 <= v < scale * side
    &&& modules[(v / scale) * side + u / scale]
}

/// Whether a bitmap shows a code.
pub open spec fn shows_code(b: &Bitmap, side: int, modules: Seq<bool>) -> bool {
    &&& b@.len() == code_side(side) + 32
    &&& forall|x: int, y: int|
        0 <= x < WIDTH && 0 <= y < b@.len() ==> #[trigger] b.black(x, y) == is_dark(
            side,
            modules,
            x,
            y,
        )
}

proof fn lemma_scale(side: int)
    requires
        21 <= side <= 177,
    ensures
        2 <= module_scale(side) <= 13,
        0 <= code_side(side) <= 384,
        module_scale(side) * side + 8 * module_scale(side) == code_side(side),
{
    let m = side + 8;
    assert(2 <= 384int / m <= 13 && 0 <= (384int / m) * m <= 384) by (nonlinear_arith)
        requires
            29 <= m <= 185,
    ;
    assert((384int / m) * (side + 8) == (384int / m) * side + 8 * (384int / m)) by (nonlinear_arith);
}

proof fn lemma_place(side: int, scale: int, u: int, v: int)
    requires
        0 < side,
        0 < scale,
        0 <= u < scale * side,
        0 <= v < scale * side,
    ensures
        0 <= u / scale < side,
        0 <= v / scale < side,
        0 <= (v / scale) * side + u / scale < side * side,
{
    assert(0 <= u / scale < side) by (nonlinear_arith)
        requires
            0 < scale,
            0 <= u < scale * side,
    ;
    assert(0 <= v / scale < side) by (nonlinear_arith)
        requires
            0 < scale,
            0 <= v < scale * side,
    ;
    let a = u / scale;
    let b = v / scale;
    assert(0 <= b * side + a < side * side) by (nonlinear_arith)
        requires
            0 <= a < side,
            0 <= b < side,
    ;
}

/// Draws the modules of a code.
pub fn draw_modules(side: usize, modules: &[bool]) -> (out: Bitmap)
    requires
        is_code(side, modules@),
    ensures
        shows_code(&out, side as int, modules@),
{
    proof {
        lemma_scale(side as int);
    }
    let scale: usize = WIDTH / (side + 2 * QUIET_MODULES);
    let full: usize = scale * (side + 2 * QUIET_MODULES);
    let left: usize = (WIDTH - full) / 2 + QUIET_MODULES * scale;
    let top: usize = MARGIN + QUIET_MODULES * scale;
    let span: usize = full - 2 * QUIET_MODULES * scale;
    let mut out: Bitmap = Bitmap::new(full + 2 * MARGIN);
    proof {
        assert forall|x: int, y: int| 0 <= x < WIDTH && 0 <= y < out@.len() implies !(
        #[trigger] out.black(x, y)) by {
            blank_row_is_white(x);
        }
    }
    let mut v: usize = 0;
    while v < span
        invariant
            v <= span,
            is_code(side, modules@),
            2 <= scale <= 13,
            scale == module_scale(side as int),
            left == code_left(side as int),
            top == code_top(side as int),
            span == scale * side,
            full == code_side(side as int),
            left + span <= WIDTH,
            top + span <= full + 32,
            full <= 384,
            out@.len() == full + 32,
            forall|x: int, y: int|
                0 <= x < WIDTH && 0 <= y < out@.len() ==> #[trigger] out.black(x, y) == (y - top < v
                    && is_dark(side as int, modules@, x, y)),
        decreases span - v,
    {
        let mut u: usize = 0;
        while u < span
            invariant
                v < span,
                u <= span,
                is_code(side, modules@),
                2 <= scale <= 13,
                scale == module_scale(side as int),
                left == code_left(side as int),
                top == code_top(side as int),
                span == scale * side,
                full == code_side(side as int),
                left + span <= WIDTH,
                top + span <= full + 32,
                full <= 384,
                out@.len() == full + 32,
                forall|x: int, y: int|
                    0 <= x < WIDTH && 0 <= y < out@.len() ==> #[trigger] out.black(x, y) == ((y
                        - top < v || (y - top == v && x - left < u)) && is_dark(
                        side as int,
                        modules@,
                        x,
                        y,
                    )),
            decreases span - u,
        {
            proof {
                lemma_place(side as int, scale as int, u as int, v as int);
                assert(side * side <= 177 * 177) by (nonlinear_arith)
                    requires
                        0 <= side <= 177,
                ;
                assert(0 <= (v as int / scale as int) * side <= 177 * 177) by (nonlinear_arith)
                    requires
                        0 <= (v as int / scale as int) < side,
                        0 <= side <= 177,
                ;
            }
            let k: usize = (v / scale) * side + u / scale;
            assert(is_dark(side as int, modules@, left + u, top + v) == modules@[k as int]);
            if modules[k] {
                let ghost drawn = out;
                out.set(left + u, top + v, true);
                proof {
                    assert forall|x: int, y: int|
                        0 <= x < WIDTH && 0 <= y < out@.len() implies #[trigger] out.black(x, y)
                        == ((y - top < v || (y - top == v && x - left < u + 1)) && is_dark(
                        side as int,
                        modules@,
                        x,
                        y,
                    )) by {
                        if x != left + u || y != top + v {
                            assert(out.black(x, y) == drawn.black(x, y));
                        }
                    }
                }
            }
            u = u + 1;
        }
        v = v + 1;
    }
    out
}

/// Whether some rows are those of a code with a caption below them.
pub open spec fn has_caption(
    rows: Seq<Seq<u8>>,
    code: Seq<Seq<u8>>,
    text: Seq<char>,
    faces: &Faces,
) -> bool {
    exists|below: Bitmap| #[trigger]
        shows(&below, faces, text_rows(faces, text_lines(text, BODY_SIZE))) && rows == code
            + below@
}

/// Whether some rows are a code with a caption, which may be missing, below it.
pub open spec fn is_captioned(
    rows: Seq<Seq<u8>>,
    side: int,
    modules: Seq<bool>,
    caption: Option<Seq<char>>,
    faces: &Faces,
) -> bool {
    exists|code: Bitmap| #[trigger]
        shows_code(&code, side, modules) && match caption {
            None => rows == code@,
            Some(text) => has_caption(rows, code@, text, faces),
        }
}

/// Render `data` as a QR code, with the caption below it.
pub fn render_qr(data: &str, caption: Option<&str>, faces: &Faces) -> (out: Result<
    Bitmap,
    QrError,
>)
    ensures
        match out {
            Ok(b) => qr_modules(data@) matches Some(code) && is_code(code.0, code.1)
                && is_captioned(b@, code.0 as int, code.1, arg_text(caption), faces),
            Err(e) => qr_modules(data@) is None && e == QrError::TooLong,
        },
{
    match encode_qr(data) {
        None => Err(QrError::TooLong),
        Some(found) => {
            let (side, modules) = found;
            let code: Bitmap = draw_modules(side, modules.as_slice());
            match caption {
                None => {
                    assert(is_captioned(code@, side as int, modules@, None, faces));
                    Ok(code)
                },
                Some(text) => {
                    let below: Bitmap = render_text(text, BODY_SIZE, faces);
                    let ghost upper = code;
                    let ghost lower = below;
                    let mut parts: Vec<Bitmap> = Vec::new();
                    parts.push(code);
                    parts.push(below);
                    let out: Bitmap = stack(parts);
                    proof {
                        let rows = rows_of(parts@);
                        assert(rows =~= seq![upper@, lower@]);
                        assert(rows.drop_last() =~= seq![upper@]);
                        assert(stacked(rows.drop_last(), 0) == upper@);
                        assert(stacked(rows, 0) =~= upper@ + lower@);
                        assert(shows(
                            &lower,
                            faces,
                            text_rows(faces, text_lines(text@, BODY_SIZE)),
                        ));
                        assert(shows_code(&upper, side as int, modules@));
                        assert(has_caption(out@, upper@, text@, faces));
                        assert(is_captioned(out@, side as int, modules@, Some(text@), faces));
                    }
                    Ok(out)
                },
            }
        },
    }
}

/// A code keeps its quiet zone: no dark module comes nearer than four modules to
/// an edge of the code's square, and sixteen rows above and below stay white.
pub proof fn quiet_zone_is_white(side: int, modules: Seq<bool>, x: int, y: int)
    requires
        21 <= side <= 177,
        is_dark(side, modules, x, y),
    ensures
        ({
            let margin = (384 - code_side(side)) / 2;
            let quiet = 4 * module_scale(side);
            &&& margin + quiet <= x < margin + code_side(side) - quiet
            &&& 16 + quiet <= y < 16 + code_side(side) - quiet
        }),
{
    lemma_scale(side);
}

/// The scale is the largest that fits: one more pixel a module would be wider
/// than the paper.
pub proof fn scale_fills_the_paper(side: int)
    requires
        21 <= side <= 177,
    ensures
        code_side(side) <= 384 < (module_scale(side) + 1) * (side + 8),
{
    let m = side + 8;
    assert((384int / m) * m <= 384 < (384int / m + 1) * m) by (nonlinear_arith)
        requires
            m > 0,
    ;
}

/// The place of pixel `d` of module `i` across or down, where modules are `scale`
/// pixels wide and the first one begins at `start`.
pub open spec fn module_pixel(start: int, scale: int, i: int, d: int) -> int {
    start + i * scale + d
}

/// Every module is shown: modules are squares as large as the paper allows with
/// four of them left white on every side, and all pixels of a module are black
/// exactly if the module is dark. The code stands in the middle, sixteen rows from
/// the top and the bottom, and all other pixels are white.
pub proof fn every_module_is_shown(b: &Bitmap, side: int, modules: Seq<bool>, scale: int)
    requires
        21 <= side <= 177,
        shows_code(b, side, modules),
        scale * (side + 8) <= 384 < (scale + 1) * (side + 8),
    ensures
        ({
            let left = (384 - scale * (side + 8)) / 2 + 4 * scale;
            let top = 16 + 4 * scale;
            &&& b@.len() == scale * (side + 8) + 32
            &&& forall|i: int, j: int, dx: int, dy: int|
                0 <= i < side && 0 <= j < side && 0 <= dx < scale && 0 <= dy < scale
                    ==> #[trigger] b.black(
                    module_pixel(left, scale, i, dx),
                    module_pixel(top, scale, j, dy),
                ) == modules[j * side + i]
            &&& forall|x: int, y: int|
                0 <= x < 384 && 0 <= y < b@.len() && !(left <= x < left + scale * side && top <= y
                    < top + scale * side) ==> !#[trigger] b.black(x, y)
        }),
{
    lemma_scale(side);
    let m = side + 8;
    assert(scale == 384int / m) by (nonlinear_arith)
        requires
            m > 0,
            scale * m <= 384 < (scale + 1) * m,
    ;
    let left = (384 - scale * (side + 8)) / 2 + 4 * scale;
    let top = 16 + 4 * scale;
    assert forall|i: int, j: int, dx: int, dy: int|
        0 <= i < side && 0 <= j < side && 0 <= dx < scale && 0 <= dy < scale
            implies #[trigger] b.black(
        module_pixel(left, scale, i, dx),
        module_pixel(top, scale, j, dy),
    ) == modules[j * side + i] by {
        let x = module_pixel(left, scale, i, dx);
        let y = module_pixel(top, scale, j, dy);
        assert(0 <= i * scale && i * scale + dx < scale * side) by (nonlinear_arith)
            requires
                0 <= i,
                i + 1 <= side,
                0 <= dx < scale,
        ;
        assert(0 <= j * scale && j * scale + dy < scale * side) by (nonlinear_arith)
            requires
                0 <= j,
                j + 1 <= side,
                0 <= dy < scale,
        ;
        vstd::arithmetic::div_mod::lemma_fundamental_div_mod_converse(i * scale + dx, scale, i, dx);
        vstd::arithmetic::div_mod::lemma_fundamental_div_mod_converse(j * scale + dy, scale, j, dy);
        assert(b.black(x, y) == is_dark(side, modules, x, y));
    }
}

/// A caption stands below the code: the first rows are those of the code alone,
/// the others those of the caption as text.
pub proof fn a_caption_stands_below(
    rows: Seq<Seq<u8>>,
    side: int,
    modules: Seq<bool>,
    text: Seq<char>,
    faces: &Faces,
)
    requires
        is_captioned(rows, side, modules, Some(text), faces),
    ensures
        exists|code: Bitmap, below: Bitmap|
            #![trigger shows_code(&code, side, modules), below@]
            shows_code(&code, side, modules) && shows(
                &below,
                faces,
                text_rows(faces, text_lines(text, 1536)),
            ) && rows.len() == code@.len() + below@.len() && rows.take(code@.len() as int) == code@
                && rows.skip(code@.len() as int) == below@,
{
    let code = choose|code: Bitmap| #[trigger]
        shows_code(&code, side, modules) && has_caption(rows, code@, text, faces);
    let below = choose|below: Bitmap| #[trigger]
        shows(&below, faces, text_rows(faces, text_lines(text, BODY_SIZE))) && rows == code@
            + below@;
    assert(rows.take(code@.len() as int) =~= code@);
    assert(rows.skip(code@.len() as int) =~= below@);
}

} // verus!
