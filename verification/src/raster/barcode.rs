//! Code128 barcode → 1-bit bitmap rendering.
//!
//! Callers pass plain text: the Code128 character-set escape the `barcoders`
//! crate requires is added here. Every barcode starts in character-set **B**
//! (`\u{0181}`, `Ɓ`), which covers all printable ASCII — space (U+0020)
//! through tilde (U+007E), i.e. digits, both letter cases, and punctuation.
//! Anything outside that range (accents, emoji, tabs, newlines) is rejected
//! with [`BarcodeError::Charset`] rather than silently mangled.
//!
//! The encoded bar columns are scaled by the largest integer factor that fits
//! 384 px minus a [`QUIET`] px quiet zone on each side, and centered. Bars are
//! [`BAR_HEIGHT`] px tall with no vertical margin (callers add their own) and
//! no human-readable text below. Because the module width must be at least
//! 1 px, 28 characters is the limit; longer payloads fail with
//! [`BarcodeError::TooLong`].

use crate::raster::bitmap::{Bitmap, WIDTH};
use crate::strings::chars_of;
use vstd::prelude::*;
#[allow(unused_imports)]
use crate::raster::bitmap::blank_row_is_white;

verus! {

/// White quiet zone on each side of the bars, in pixels.
pub const QUIET: usize = 16;

/// Bar height, in pixels.
pub const BAR_HEIGHT: usize = 80;

/// The longest payload whose columns fit the paper.
pub const MAX_CHARS: usize = 28;

/// Code128 character-set B start escape: the only set covering printable ASCII.
pub const CHARSET_B: char = '\u{0181}';

/// Errors from Code128 encoding.
#[derive(Debug, Clone)]
pub enum BarcodeError {
    /// The payload is empty.
    Empty,
    /// The payload contains characters outside printable ASCII.
    Charset,
    /// The encoded symbol needs more than 384 px even at one pixel per module.
    TooLong,
    /// Any other encoding failure from the `barcoders` crate, in its words.
    Encode(String),
}

impl BarcodeError {
    /// The wording of [`BarcodeError::message`].
    pub open spec fn wording(&self) -> Seq<char> {
        match *self {
            BarcodeError::Empty => "barcode data is empty"@,
            BarcodeError::Charset => "barcode data must be printable ASCII"@,
            BarcodeError::TooLong => "barcode data too long to fit the paper"@,
            BarcodeError::Encode(why) => "barcode encoding failed: "@ + why@,
        }
    }

    /// One line for the user.
    pub fn message(&self) -> (text: String)
        ensures
            text@ == self.wording(),
    {
        match self {
            BarcodeError::Empty => "barcode data is empty".to_owned(),
            BarcodeError::Charset => "barcode data must be printable ASCII".to_owned(),
            BarcodeError::TooLong => "barcode data too long to fit the paper".to_owned(),
            BarcodeError::Encode(why) => {
                let mut text: String = "barcode encoding failed: ".to_owned();
                text.append(why.as_str());
                text
            },
        }
    }
}

/// Whether a character is printable ASCII.
pub open spec fn is_printable(c: char) -> bool {
    ' ' <= c && c <= '~'
}

/// Whether all of a text is printable ASCII.
pub open spec fn all_printable(data: Seq<char>) -> bool {
    forall|i: int| 0 <= i < data.len() ==> is_printable(#[trigger] data[i])
}

/// A Code128 payload in character-set B.
pub open spec fn set_b_payload(data: Seq<char>) -> Seq<char> {
    seq![CHARSET_B] + data
}

/// Whether a payload is printable ASCII in character-set B.
pub open spec fn is_set_b(payload: Seq<char>) -> bool {
    payload.len() > 1 && payload[0] == CHARSET_B && all_printable(payload.skip(1))
}

/// Whether some columns have the form of a symbol of `n` characters: eleven
/// columns each and thirty-five more, zeros and ones, a one at both ends.
pub open spec fn is_symbol(columns: Seq<u8>, n: int) -> bool {
    &&& columns.len() == 11 * n + 35
    &&& forall|i: int| 0 <= i < columns.len() ==> columns[i] == 0 || columns[i] == 1
    &&& columns[0] == 1
    &&& columns[columns.len() - 1] == 1
}

/// The bar columns of a Code128 payload: 1 is a bar, 0 a gap.
pub uninterp spec fn code128_columns(payload: Seq<char>) -> Seq<u8>;

/// `Code128::new` of the `barcoders` crate and `Code128::encode` on what it
/// returns. The columns depend on the payload alone. A payload that starts in
/// character-set B and goes on with printable ASCII always encodes, to eleven
/// columns for each character and thirty-five more, of zeros and ones, the first
/// and the last a one. The crate's checksum is a 32-bit sum, which bounds the
/// length.
#[verifier::external_body]
fn encode_code128(payload: &str) -> (columns: Result<Vec<u8>, String>)
    requires
        payload@.len() <= 1000,
    ensures
        columns matches Ok(c) ==> c@ == code128_columns(payload@),
        is_set_b(payload@) ==> columns is Ok,
        columns matches Ok(c) ==> (is_set_b(payload@) ==> is_symbol(c@, payload@.len() - 1)),
{
    match barcoders::sym::code128::Code128::new(payload) {
        Ok(code) => Ok(code.encode()),
        Err(e) => Err(e.to_string()),
    }
}

/// The width of one column in pixels.
pub open spec fn bar_scale(columns: int) -> int {
    352int / columns
}

/// The left edge of the first column.
pub open spec fn bar_left(columns: int) -> int {
    (384 - bar_scale(columns) * columns) / 2
}

/// Whether pixel column `x` is part of a bar.
pub open spec fn is_bar(columns: Seq<u8>, x: int) -> bool {
    let n = columns.len() as int;
    let left = bar_left(n);
    let scale = bar_scale(n);
    left <= x < left + scale * n && columns[(x - left) / scale] == 1
}

/// Draws bar columns, each as wide as fits, centered.
pub fn draw_columns(columns: &[u8]) -> (out: Result<Bitmap, BarcodeError>)
    requires
        columns@.len() > 0,
    ensures
        out is Ok <==> columns@.len() <= 352,
        out matches Err(e) ==> e is TooLong,
        out matches Ok(b) ==> {
            &&& b@.len() == BAR_HEIGHT
            &&& forall|x: int, y: int|
                0 <= x < WIDTH && 0 <= y < BAR_HEIGHT ==> #[trigger] b.black(x, y) == is_bar(
                    columns@,
                    x,
                )
        },
{
    // One bar column per encoded module, scaled to fill the quiet-zone budget.
    let n: usize = columns.len();
    let scale: usize = (WIDTH - 2 * QUIET) / n;
    proof {
        lemma_scale(n as int);
    }
    if scale == 0 {
        return Err(BarcodeError::TooLong);
    }
    let x0: usize = (WIDTH - scale * n) / 2;
    let mut out: Bitmap = Bitmap::new(BAR_HEIGHT);
    proof {
        assert forall|x: int, y: int| 0 <= x < WIDTH && 0 <= y < BAR_HEIGHT implies !(
        #[trigger] out.black(x, y)) by {
            blank_row_is_white(x);
        }
    }
    let mut x: usize = 0;
    while x < WIDTH
        invariant
            x <= WIDTH,
            n == columns@.len(),
            0 < n <= 352,
            scale == bar_scale(n as int),
            scale > 0,
            scale * n <= 352,
            x0 == bar_left(n as int),
            out@.len() == BAR_HEIGHT,
            forall|u: int, v: int|
                0 <= u < WIDTH && 0 <= v < BAR_HEIGHT ==> #[trigger] out.black(u, v) == (u < x
                    && is_bar(columns@, u)),
        decreases WIDTH - x,
    {
        let inside: bool = x0 <= x && x < x0 + scale * n;
        if inside {
            let i: usize = (x - x0) / scale;
            proof {
                assert(i < n) by (nonlinear_arith)
                    requires
                        i == (x - x0) / (scale as int),
                        0 <= x - x0 < scale * n,
                        scale > 0,
                ;
            }
            if columns[i] == 1 {
                let mut y: usize = 0;
                while y < BAR_HEIGHT
                    invariant
                        y <= BAR_HEIGHT,
                        x < WIDTH,
                        out@.len() == BAR_HEIGHT,
                        is_bar(columns@, x as int),
                        forall|u: int, v: int|
                            0 <= u < WIDTH && 0 <= v < BAR_HEIGHT ==> #[trigger] out.black(u, v)
                                == ((u < x || (u == x && v < y)) && is_bar(columns@, u)),
                    decreases BAR_HEIGHT - y,
                {
                    let ghost drawn = out;
                    out.set(x, y, true);
                    y = y + 1;
                    proof {
                        assert forall|u: int, v: int|
                            0 <= u < WIDTH && 0 <= v < BAR_HEIGHT implies #[trigger] out.black(u, v)
                            == ((u < x || (u == x && v < y)) && is_bar(columns@, u)) by {
                            if u != x || v != y - 1 {
                                assert(out.black(u, v) == drawn.black(u, v));
                            }
                        }
                    }
                }
            }
        }
        x = x + 1;
    }
    Ok(out)
}

proof fn lemma_scale(n: int)
    requires
        n > 0,
    ensures
        0 <= bar_scale(n) * n <= 352,
        bar_scale(n) > 0 <==> n <= 352,
        bar_scale(n) >= 0,
        bar_left(n) >= 16,
{
    assert(0 <= (352int / n) * n <= 352 && 0 <= 352int / n) by (nonlinear_arith)
        requires
            n > 0,
    ;
    assert(352int / n > 0 <==> n <= 352) by (nonlinear_arith)
        requires
            n > 0,
    ;
}

/// Render `data` as a Code128 barcode, centered on a [`BAR_HEIGHT`] px bitmap.
pub fn render_barcode(data: &str) -> (out: Result<Bitmap, BarcodeError>)
    ensures
        out is Ok <==> 0 < data@.len() <= MAX_CHARS && all_printable(data@),
        out matches Err(e) ==> {
            &&& e is Empty <==> data@.len() == 0
            &&& e is Charset <==> !all_printable(data@)
            &&& e is TooLong <==> all_printable(data@) && data@.len() > MAX_CHARS
            &&& !(e is Encode)
        },
        out matches Ok(b) ==> {
            let columns = code128_columns(set_b_payload(data@));
            &&& is_symbol(columns, data@.len() as int)
            &&& b@.len() == BAR_HEIGHT
            &&& forall|x: int, y: int|
                0 <= x < WIDTH && 0 <= y < BAR_HEIGHT ==> #[trigger] b.black(x, y) == is_bar(
                    columns,
                    x,
                )
        },
{
    let chars: Vec<char> = chars_of(data);
    if chars.len() == 0 {
        return Err(BarcodeError::Empty);
    }
    let mut payload: String = String::new();
    payload.push(CHARSET_B);
    let mut i: usize = 0;
    while i < chars.len()
        invariant
            i <= chars@.len(),
            chars@ == data@,
            forall|k: int| 0 <= k < i ==> is_printable(#[trigger] data@[k]),
            payload@ == set_b_payload(data@.take(i as int)),
        decreases chars@.len() - i,
    {
        let c: char = chars[i];
        if !(c >= ' ' && c <= '~') {
            assert(!is_printable(data@[i as int]));
            return Err(BarcodeError::Charset);
        }
        payload.push(c);
        i = i + 1;
        assert(payload@ =~= set_b_payload(data@.take(i as int)));
    }
    assert(data@.take(i as int) =~= data@);
    // Eleven columns a character and thirty-five more do not fit 352 pixels.
    if chars.len() > MAX_CHARS {
        return Err(BarcodeError::TooLong);
    }
    assert(payload@.skip(1) =~= data@);
    match encode_code128(payload.as_str()) {
        Ok(columns) => draw_columns(columns.as_slice()),
        Err(why) => Err(BarcodeError::Encode(why)),
    }
}

/// The quiet zone stays white: every bar keeps sixteen pixels from both edges.
pub proof fn quiet_zone_is_white(columns: Seq<u8>, x: int)
    requires
        0 < columns.len() <= 352,
        is_bar(columns, x),
    ensures
        QUIET <= x < WIDTH - QUIET,
{
    lemma_scale(columns.len() as int);
}

/// The symbol is centered: the margins left and right differ by one pixel at
/// most.
pub proof fn symbol_is_centered(n: int)
    requires
        0 < n <= 352,
    ensures
        ({
            let right = 384 - (bar_left(n) + bar_scale(n) * n);
            0 <= right - bar_left(n) <= 1
        }),
{
    lemma_scale(n);
}

/// Every module is shown: the modules are as wide as the paper between the quiet
/// zones allows, and the pixel columns of each one are black from top to bottom
/// exactly if the module is a bar. All other pixels are white.
pub proof fn every_module_is_shown(b: &Bitmap, columns: Seq<u8>, scale: int, left: int)
    requires
        0 < columns.len() <= 352,
        forall|x: int, y: int|
            0 <= x < WIDTH && 0 <= y < BAR_HEIGHT ==> #[trigger] b.black(x, y) == is_bar(
                columns,
                x,
            ),
        // The largest scale that fits, and the place that leaves as much room on
        // the left as on the right, or a pixel less.
        scale * columns.len() <= 352 < (scale + 1) * columns.len(),
        2 * left <= 384 - scale * columns.len() <= 2 * left + 1,
    ensures
        scale >= 1,
        forall|i: int, dx: int, y: int|
            0 <= i < columns.len() && 0 <= dx < scale && 0 <= y < 80 ==> #[trigger] b.black(
                module_column(left, scale, i, dx),
                y,
            ) == (columns[i] == 1),
        forall|x: int, y: int|
            0 <= x < 384 && 0 <= y < 80 && (x < left || x >= left + scale * columns.len())
                ==> !#[trigger] b.black(x, y),
{
    let n = columns.len() as int;
    lemma_scale(n);
    assert(scale == 352int / n) by (nonlinear_arith)
        requires
            n > 0,
            scale * n <= 352 < (scale + 1) * n,
    ;
    assert forall|i: int, dx: int, y: int|
        0 <= i < n && 0 <= dx < scale && 0 <= y < 80 implies #[trigger] b.black(
        module_column(left, scale, i, dx),
        y,
    ) == (columns[i] == 1) by {
        let x = left + i * scale + dx;
        assert(0 <= i * scale && i * scale + dx < scale * n) by (nonlinear_arith)
            requires
                0 <= i,
                i + 1 <= n,
                0 <= dx < scale,
        ;
        vstd::arithmetic::div_mod::lemma_fundamental_div_mod_converse(
            i * scale + dx,
            scale,
            i,
            dx,
        );
        assert(b.black(x, y) == is_bar(columns, x));
    }
}

/// The pixel column `dx` of module `i`, where modules are `scale` pixels wide.
pub open spec fn module_column(left: int, scale: int, i: int, dx: int) -> int {
    left + i * scale + dx
}

/// Two symbols of one length that differ anywhere look different: the modules can
/// be read back from the bitmap.
pub proof fn different_modules_look_different(
    a: &Bitmap,
    b: &Bitmap,
    first: Seq<u8>,
    second: Seq<u8>,
    i: int,
)
    requires
        0 < first.len() <= 352,
        second.len() == first.len(),
        forall|x: int, y: int|
            0 <= x < WIDTH && 0 <= y < BAR_HEIGHT ==> #[trigger] a.black(x, y) == is_bar(first, x),
        forall|x: int, y: int|
            0 <= x < WIDTH && 0 <= y < BAR_HEIGHT ==> #[trigger] b.black(x, y) == is_bar(
                second,
                x,
            ),
        0 <= i < first.len(),
        (first[i] == 1) != (second[i] == 1),
    ensures
        exists|x: int| 0 <= x < 384 && #[trigger] a.black(x, 0) != b.black(x, 0),
{
    let n = first.len() as int;
    let scale = 352int / n;
    let left = (384 - scale * n) / 2;
    lemma_scale(n);
    assert(scale * n <= 352 < (scale + 1) * n) by (nonlinear_arith)
        requires
            n > 0,
            scale == 352int / n,
    ;
    every_module_is_shown(a, first, scale, left);
    every_module_is_shown(b, second, scale, left);
    let x = module_column(left, scale, i, 0);
    assert(a.black(x, 0) == (first[i] == 1));
    assert(b.black(x, 0) == (second[i] == 1));
    assert(0 <= i * scale && i * scale < scale * n) by (nonlinear_arith)
        requires
            0 <= i,
            i + 1 <= n,
            0 < scale,
    ;
}

} // verus!
