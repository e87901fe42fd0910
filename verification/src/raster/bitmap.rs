//! 1-bit bitmap for the 384 px wide print head, MSB-first, bit 1 = black.

use vstd::prelude::*;
#[allow(unused_imports)]
use crate::protocol::packets::zeros;

verus! {

/// Width of the print head in pixels.
pub const WIDTH: usize = 384;

/// Bytes in one packed row.
pub const BYTES_PER_ROW: usize = 48;

/// Bytes in a packet's worth of two packed rows.
pub const BYTES_PER_PAIR: usize = 96;

/// Bit `i` of a byte, counted from the most significant one.
pub open spec fn msb_bit(b: u8, i: u8) -> bool {
    b & (0x80u8 >> i) != 0
}

/// Pixel `x` of a packed row.
pub open spec fn row_pixel(row: Seq<u8>, x: int) -> bool {
    msb_bit(row[x / 8], (x % 8) as u8)
}

/// The two rows of payload `i`, the second one blank where there is none.
pub open spec fn payload_of(rows: Seq<Seq<u8>>, i: int) -> Seq<u8> {
    rows[2 * i] + if 2 * i + 1 < rows.len() {
        rows[2 * i + 1]
    } else {
        zeros(BYTES_PER_ROW as nat)
    }
}

/// Every row packed two to a payload.
pub open spec fn payloads_of(rows: Seq<Seq<u8>>) -> Seq<Seq<u8>> {
    Seq::new((rows.len() + 1) / 2, |i: int| payload_of(rows, i))
}

/// Some rows of white.
pub open spec fn blank_rows(n: nat) -> Seq<Seq<u8>> {
    Seq::new(n, |y: int| zeros(BYTES_PER_ROW as nat))
}

/// A 1-bit image as wide as the print head.
#[derive(Debug)]
pub struct Bitmap {
    rows: Vec<[u8; BYTES_PER_ROW]>,
}

/// The packed rows, top to bottom.
impl View for Bitmap {
    type V = Seq<Seq<u8>>;

    closed spec fn view(&self) -> Seq<Seq<u8>> {
        Seq::new(self.rows@.len(), |y: int| self.rows@[y]@)
    }
}

impl Bitmap {
    /// Whether the pixel in column `x` of row `y` is black.
    pub open spec fn black(&self, x: int, y: int) -> bool {
        row_pixel(self@[y], x)
    }

    /// A white bitmap.
    pub fn new(height: usize) -> (b: Self)
        ensures
            b@ == Seq::new(height as nat, |y: int| zeros(BYTES_PER_ROW as nat)),
    {
        let mut b: Bitmap = Bitmap { rows: Vec::new() };
        b.extend_blank(height);
        assert(b@ =~= Seq::new(height as nat, |y: int| zeros(BYTES_PER_ROW as nat)));
        b
    }

    pub fn height(&self) -> (h: usize)
        ensures
            h == self@.len(),
    {
        self.rows.len()
    }

    /// Row `y` as packed bytes.
    pub fn row(&self, y: usize) -> (row: &[u8; BYTES_PER_ROW])
        requires
            y < self@.len(),
        ensures
            row@ == self@[y as int],
    {
        &self.rows[y]
    }

    /// Set pixel; x < 384, bit 1 = black, MSB-first within each byte.
    pub fn set(&mut self, x: usize, y: usize, black: bool)
        requires
            x < WIDTH,
            y < old(self)@.len(),
        ensures
            final(self)@.len() == old(self)@.len(),
            final(self).black(x as int, y as int) == black,
            forall|u: int, v: int|
                0 <= u < WIDTH && 0 <= v < old(self)@.len() && (u != x || v != y)
                    ==> #[trigger] final(self).black(u, v) == old(self).black(u, v),
    {
        let mut row: [u8; BYTES_PER_ROW] = self.rows[y];
        let ghost before = row@;
        let k: usize = x / 8;
        let s: u8 = (x % 8) as u8;
        let mask: u8 = 0x80u8 >> s;
        let byte: u8 = row[k];
        row[k] = if black {
            byte | mask
        } else {
            byte & !mask
        };
        self.rows.set(y, row);
        proof {
            lemma_bit_write(byte, s);
            assert(self@ =~= old(self)@.update(y as int, row@));
            assert(row@ =~= before.update(k as int, row@[k as int]));
            assert forall|u: int, v: int|
                0 <= u < WIDTH && 0 <= v < old(self)@.len() && (u != x || v
                    != y) implies #[trigger] self.black(u, v) == old(self).black(u, v) by {
                if v == y {
                    if u / 8 == k {
                        assert(u % 8 != x % 8);
                    }
                }
            }
        }
    }

    /// Whether a pixel is black.
    pub fn get(&self, x: usize, y: usize) -> (black: bool)
        requires
            x < WIDTH,
            y < self@.len(),
        ensures
            black == self.black(x as int, y as int),
    {
        let row: &[u8; BYTES_PER_ROW] = &self.rows[y];
        let s: u8 = (x % 8) as u8;
        row[x / 8] & (0x80u8 >> s) != 0
    }

    /// Append `rows` blank (white) rows at the bottom, e.g. for feed lines.
    pub fn extend_blank(&mut self, rows: usize)
        requires
            old(self)@.len() + rows <= usize::MAX,
        ensures
            final(self)@ == old(self)@ + Seq::new(
                rows as nat,
                |y: int| zeros(BYTES_PER_ROW as nat),
            ),
    {
        let ghost blank = zeros(BYTES_PER_ROW as nat);
        let mut i: usize = 0;
        while i < rows
            invariant
                i <= rows,
                blank == zeros(BYTES_PER_ROW as nat),
                self@ == old(self)@ + Seq::new(i as nat, |y: int| blank),
            decreases rows - i,
        {
            let line: [u8; BYTES_PER_ROW] = [0u8; BYTES_PER_ROW];
            let ghost start = self@;
            self.rows.push(line);
            i = i + 1;
            proof {
                assert(line@ =~= blank);
                assert(self@ =~= start.push(blank));
                assert(self@ =~= old(self)@ + Seq::new(i as nat, |y: int| blank));
            }
        }
        assert(self@ =~= old(self)@ + Seq::new(rows as nat, |y: int| zeros(BYTES_PER_ROW as nat)));
    }

    /// Append one packed row.
    pub(crate) fn push_row(&mut self, row: &[u8; BYTES_PER_ROW])
        ensures
            final(self)@ == old(self)@.push(row@),
    {
        self.rows.push(*row);
        assert(self@ =~= old(self)@.push(row@));
    }

    /// 96-byte payloads for raster packets: two rows each, zero-padded.
    pub fn to_raster_payloads(&self) -> (chunks: Vec<[u8; BYTES_PER_PAIR]>)
        ensures
            chunks@.len() == (self@.len() + 1) / 2,
            forall|i: int| 0 <= i < chunks@.len() ==> #[trigger] chunks@[i]@ == payload_of(self@, i),
    {
        let h: usize = self.rows.len();
        let mut chunks: Vec<[u8; BYTES_PER_PAIR]> = Vec::new();
        let mut y: usize = 0;
        while y < h
            invariant
                h == self@.len(),
                h == self.rows@.len(),
                chunks@.len() == (y + 1) / 2,
                y == 2 * chunks@.len() || (y == h && y + 1 == 2 * chunks@.len()),
                y <= h,
                forall|i: int|
                    0 <= i < chunks@.len() ==> #[trigger] chunks@[i]@ == payload_of(self@, i),
            decreases h - y,
        {
            let mut chunk: [u8; BYTES_PER_PAIR] = [0u8; BYTES_PER_PAIR];
            let two: bool = h - y >= 2;
            let mut k: usize = 0;
            while k < BYTES_PER_ROW
                invariant
                    k <= BYTES_PER_ROW,
                    y < h,
                    h == self.rows@.len(),
                    two == (h - y >= 2),
                    forall|j: int| 0 <= j < k ==> #[trigger] chunk@[j] == self.rows@[y as int]@[j],
                    forall|j: int|
                        k <= j < BYTES_PER_ROW || BYTES_PER_ROW + k <= j < BYTES_PER_PAIR
                            ==> #[trigger] chunk@[j] == 0,
                    forall|j: int|
                        BYTES_PER_ROW <= j < BYTES_PER_ROW + k ==> #[trigger] chunk@[j] == if two {
                            self.rows@[y + 1]@[j - BYTES_PER_ROW]
                        } else {
                            0
                        },
                decreases BYTES_PER_ROW - k,
            {
                chunk[k] = self.rows[y][k];
                if two {
                    chunk[k + BYTES_PER_ROW] = self.rows[y + 1][k];
                }
                k = k + 1;
            }
            assert(chunk@ =~= payload_of(self@, chunks@.len() as int));
            chunks.push(chunk);
            y = if two {
                y + 2
            } else {
                y + 1
            };
        }
        chunks
    }
}

impl Clone for Bitmap {
    fn clone(&self) -> (copy: Self)
        ensures
            copy@ == self@,
    {
        let mut rows: Vec<[u8; BYTES_PER_ROW]> = Vec::new();
        let mut y: usize = 0;
        while y < self.rows.len()
            invariant
                y <= self.rows@.len(),
                rows@ == self.rows@.take(y as int),
            decreases self.rows@.len() - y,
        {
            rows.push(self.rows[y]);
            y = y + 1;
            assert(rows@ =~= self.rows@.take(y as int));
        }
        let copy: Bitmap = Bitmap { rows };
        assert(copy@ =~= self@);
        copy
    }
}

/// Setting or clearing one bit of a byte leaves the other seven alone.
proof fn lemma_bit_write(b: u8, s: u8)
    requires
        s < 8,
    ensures
        msb_bit(b | (0x80u8 >> s), s),
        !msb_bit(b & !(0x80u8 >> s), s),
        forall|t: u8| t < 8 && t != s ==> #[trigger] msb_bit(b | (0x80u8 >> s), t) == msb_bit(b, t),
        forall|t: u8|
            t < 8 && t != s ==> #[trigger] msb_bit(b & !(0x80u8 >> s), t) == msb_bit(b, t),
{
    assert((b | (0x80u8 >> s)) & (0x80u8 >> s) != 0 && (b & !(0x80u8 >> s)) & (0x80u8 >> s) == 0)
        by (bit_vector)
        requires
            s < 8,
    ;
    assert forall|t: u8| t < 8 && t != s implies #[trigger] msb_bit(b | (0x80u8 >> s), t)
        == msb_bit(b, t) && msb_bit(b & !(0x80u8 >> s), t) == msb_bit(b, t) by {
        assert(msb_bit(b | (0x80u8 >> s), t) == msb_bit(b, t) && msb_bit(b & !(0x80u8 >> s), t)
            == msb_bit(b, t)) by (bit_vector)
            requires
                s < 8,
                t < 8,
                t != s,
        ;
    }
    assert forall|t: u8| t < 8 && t != s implies #[trigger] msb_bit(b & !(0x80u8 >> s), t)
        == msb_bit(b, t) by {
        assert(msb_bit(b | (0x80u8 >> s), t) == msb_bit(b, t));
    }
}

/// Every row of a bitmap is 48 bytes long.
pub proof fn rows_fill_the_head(b: &Bitmap)
    ensures
        forall|y: int| 0 <= y < b@.len() ==> (#[trigger] b@[y]).len() == BYTES_PER_ROW,
{
}

/// A blank row has no black pixel.
pub proof fn blank_row_is_white(x: int)
    requires
        0 <= x < WIDTH,
    ensures
        !row_pixel(zeros(BYTES_PER_ROW as nat), x),
{
    let i = (x % 8) as u8;
    assert(0u8 & (0x80u8 >> i) == 0) by (bit_vector);
}

/// A byte is known from its eight bits.
pub proof fn bits_determine_byte(a: u8, b: u8)
    requires
        forall|i: u8| i < 8 ==> #[trigger] msb_bit(a, i) == msb_bit(b, i),
    ensures
        a == b,
{
    assert(msb_bit(a, 0) == msb_bit(b, 0) && msb_bit(a, 1) == msb_bit(b, 1) && msb_bit(a, 2)
        == msb_bit(b, 2) && msb_bit(a, 3) == msb_bit(b, 3) && msb_bit(a, 4) == msb_bit(b, 4)
        && msb_bit(a, 5) == msb_bit(b, 5) && msb_bit(a, 6) == msb_bit(b, 6) && msb_bit(a, 7)
        == msb_bit(b, 7));
    assert(a == b) by (bit_vector)
        requires
            msb_bit(a, 0) == msb_bit(b, 0),
            msb_bit(a, 1) == msb_bit(b, 1),
            msb_bit(a, 2) == msb_bit(b, 2),
            msb_bit(a, 3) == msb_bit(b, 3),
            msb_bit(a, 4) == msb_bit(b, 4),
            msb_bit(a, 5) == msb_bit(b, 5),
            msb_bit(a, 6) == msb_bit(b, 6),
            msb_bit(a, 7) == msb_bit(b, 7),
    ;
}

/// Two packed rows that show the same 384 pixels hold the same bytes.
pub proof fn pixels_determine_row(a: Seq<u8>, b: Seq<u8>)
    requires
        a.len() == BYTES_PER_ROW,
        b.len() == BYTES_PER_ROW,
        forall|x: int| 0 <= x < WIDTH ==> #[trigger] row_pixel(a, x) == row_pixel(b, x),
    ensures
        a == b,
{
    assert forall|k: int| 0 <= k < BYTES_PER_ROW implies a[k] == b[k] by {
        assert forall|i: u8| i < 8 implies #[trigger] msb_bit(a[k], i) == msb_bit(b[k], i) by {
            let x = 8 * k + i;
            assert(row_pixel(a, x) == row_pixel(b, x));
            assert(x / 8 == k && x % 8 == i);
        }
        bits_determine_byte(a[k], b[k]);
    }
    assert(a =~= b);
}

/// Two bitmaps of one height that show the same pixels are the same bitmap.
pub proof fn pixels_determine_bitmap(a: &Bitmap, b: &Bitmap)
    requires
        a@.len() == b@.len(),
        forall|x: int, y: int|
            0 <= x < WIDTH && 0 <= y < a@.len() ==> #[trigger] a.black(x, y) == b.black(x, y),
    ensures
        a@ == b@,
{
    rows_fill_the_head(a);
    rows_fill_the_head(b);
    assert forall|y: int| 0 <= y < a@.len() implies a@[y] == b@[y] by {
        assert forall|x: int| 0 <= x < WIDTH implies #[trigger] row_pixel(a@[y], x) == row_pixel(
            b@[y],
            x,
        ) by {
            assert(a.black(x, y) == b.black(x, y));
        }
        pixels_determine_row(a@[y], b@[y]);
    }
    assert(a@ =~= b@);
}

/// Nothing is lost in the packing: each row stands in the half of a payload
/// that belongs to it.
pub proof fn payloads_hold_every_row(b: &Bitmap, y: int)
    requires
        0 <= y < b@.len(),
    ensures
        y / 2 < payloads_of(b@).len(),
        b@[y] == payloads_of(b@)[y / 2].subrange(
            BYTES_PER_ROW * (y % 2),
            BYTES_PER_ROW * (y % 2) + BYTES_PER_ROW,
        ),
{
    rows_fill_the_head(b);
    let p = payloads_of(b@)[y / 2];
    if y % 2 == 0 {
        assert(2 * (y / 2) == y);
        assert(p.subrange(0, BYTES_PER_ROW as int) =~= b@[y]);
    } else {
        assert(2 * (y / 2) + 1 == y);
        assert(b@[2 * (y / 2)].len() == BYTES_PER_ROW);
        assert(p.subrange(BYTES_PER_ROW as int, 2 * BYTES_PER_ROW as int) =~= b@[y]);
    }
}

} // verus!
