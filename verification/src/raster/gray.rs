//! 8-bit grayscale images, the form in which pictures reach the dithering.

use vstd::prelude::*;

verus! {

/// A grayscale image; 0 is black, 255 is white.
#[derive(Debug)]
pub struct GrayImage {
    width: u32,
    rows: Vec<Vec<u8>>,
}

/// The rows of pixels, top to bottom.
impl View for GrayImage {
    type V = Seq<Seq<u8>>;

    closed spec fn view(&self) -> Seq<Seq<u8>> {
        Seq::new(self.rows@.len(), |y: int| self.rows@[y]@)
    }
}

/// Whether every row is `width` pixels long and the height fits 32 bits.
pub open spec fn is_image(rows: Seq<Seq<u8>>, width: u32) -> bool {
    &&& rows.len() <= u32::MAX
    &&& forall|y: int| 0 <= y < rows.len() ==> (#[trigger] rows[y]).len() == width
}

/// A part of an image: the rows from `y0` to `y1`, each from `x0` to `x1`,
/// both without the end.
pub open spec fn cropped(rows: Seq<Seq<u8>>, x0: int, y0: int, x1: int, y1: int) -> Seq<Seq<u8>> {
    Seq::new((y1 - y0) as nat, |y: int| rows[y0 + y].subrange(x0, x1))
}

/// An image from its pixels in reading order.
pub open spec fn in_rows(raw: Seq<u8>, width: u32, height: u32) -> Seq<Seq<u8>> {
    Seq::new(height as nat, |y: int| raw.subrange(y * width, y * width + width))
}

/// Whether every pixel of an image has the shade `v`.
pub open spec fn is_uniform(rows: Seq<Seq<u8>>, v: u8) -> bool {
    forall|x: int, y: int|
        0 <= y < rows.len() && 0 <= x < rows[y].len() ==> #[trigger] rows[y][x] == v
}

/// Whether every one of some pixels has the shade `v`.
pub open spec fn is_one_shade(pixels: Seq<u8>, v: u8) -> bool {
    forall|i: int| 0 <= i < pixels.len() ==> #[trigger] pixels[i] == v
}

/// The pixels of an image in reading order.
pub open spec fn flattened(rows: Seq<Seq<u8>>) -> Seq<u8>
    decreases rows.len(),
{
    if rows.len() == 0 {
        Seq::empty()
    } else {
        flattened(rows.drop_last()) + rows.last()
    }
}

impl GrayImage {
    /// The width that the image was made with.
    pub closed spec fn spec_width(&self) -> u32 {
        self.width
    }

    #[verifier::type_invariant]
    spec fn holds_together(&self) -> bool {
        is_image(self@, self.width)
    }

    /// An image from its rows.
    pub fn from_rows(width: u32, rows: Vec<Vec<u8>>) -> (img: Self)
        requires
            rows@.len() <= u32::MAX,
            forall|y: int| 0 <= y < rows@.len() ==> (#[trigger] rows@[y])@.len() == width,
        ensures
            img@ == Seq::new(rows@.len(), |y: int| rows@[y]@),
            img.spec_width() == width,
            is_image(img@, width),
    {
        GrayImage { width, rows }
    }

    /// An image of one shade.
    pub fn from_pixel(width: u32, height: u32, value: u8) -> (img: Self)
        ensures
            img@ == Seq::new(height as nat, |y: int| Seq::new(width as nat, |x: int| value)),
            img.spec_width() == width,
            is_image(img@, width),
    {
        let ghost line = Seq::new(width as nat, |x: int| value);
        let mut rows: Vec<Vec<u8>> = Vec::new();
        let mut y: u32 = 0;
        while y < height
            invariant
                y <= height,
                rows@.len() == y,
                line == Seq::new(width as nat, |x: int| value),
                forall|i: int| 0 <= i < y ==> (#[trigger] rows@[i])@ == line,
            decreases height - y,
        {
            let mut row: Vec<u8> = Vec::new();
            let mut x: u32 = 0;
            while x < width
                invariant
                    x <= width,
                    row@ == Seq::new(x as nat, |i: int| value),
                decreases width - x,
            {
                row.push(value);
                x = x + 1;
                assert(row@ =~= Seq::new(x as nat, |i: int| value));
            }
            rows.push(row);
            y = y + 1;
        }
        let img: GrayImage = GrayImage::from_rows(width, rows);
        assert(img@ =~= Seq::new(height as nat, |y: int| line));
        img
    }

    /// An image from its pixels in reading order; `None` unless there are
    /// exactly `width * height` of them.
    pub fn from_raw(width: u32, height: u32, raw: &[u8]) -> (img: Option<Self>)
        ensures
            img is Some <==> raw@.len() == width * height,
            img matches Some(i) ==> {
                &&& i.spec_width() == width
                &&& i@.len() == height
                &&& is_image(i@, width)
                &&& flattened(i@) == raw@
                &&& i@ == in_rows(raw@, width, height)
            },
    {
        proof {
            lemma_product_fits(width, height);
        }
        if raw.len() as u128 != (width as u128) * (height as u128) {
            return None;
        }
        let mut rows: Vec<Vec<u8>> = Vec::new();
        let mut done: usize = 0;
        let mut y: u32 = 0;
        while y < height
            invariant
                y <= height,
                raw@.len() == width * height,
                rows@.len() == y,
                done == y * width,
                done <= raw@.len(),
                forall|i: int| 0 <= i < y ==> (#[trigger] rows@[i])@.len() == width,
                flattened(Seq::new(rows@.len(), |i: int| rows@[i]@)) == raw@.take(done as int),
                forall|i: int|
                    0 <= i < y ==> (#[trigger] rows@[i])@ == in_rows(raw@, width, height)[i],
            decreases height - y,
        {
            assert((y + 1) * width == y * width + width) by (nonlinear_arith);
            assert((y + 1) * width <= height * width) by (nonlinear_arith)
                requires
                    y + 1 <= height,
            ;
            assert(height * width == width * height) by (nonlinear_arith);
            let mut row: Vec<u8> = Vec::new();
            let mut x: u32 = 0;
            let ghost start = done as int;
            while x < width
                invariant
                    x <= width,
                    done == start + x,
                    start >= 0,
                    start + width <= raw@.len(),
                    row@ == raw@.subrange(start, start + x),
                decreases width - x,
            {
                row.push(raw[done]);
                done = done + 1;
                x = x + 1;
                assert(row@ =~= raw@.subrange(start, start + x));
            }
            let ghost before = Seq::new(rows@.len(), |i: int| rows@[i]@);
            rows.push(row);
            y = y + 1;
            proof {
                let after = Seq::new(rows@.len(), |i: int| rows@[i]@);
                assert(after.drop_last() =~= before);
                assert(flattened(after) =~= raw@.take(done as int));
                assert(rows@[y - 1]@ == in_rows(raw@, width, height)[y - 1]);
            }
        }
        assert(height * width == width * height) by (nonlinear_arith);
        assert(raw@.take(done as int) =~= raw@);
        let img: GrayImage = GrayImage::from_rows(width, rows);
        assert(img@ =~= in_rows(raw@, width, height));
        Some(img)
    }

    /// The pixels in reading order.
    pub fn to_raw(&self) -> (raw: Vec<u8>)
        ensures
            raw@ == flattened(self@),
            raw@.len() == self.spec_width() * self@.len(),
    {
        proof {
            use_type_invariant(self);
        }
        let mut raw: Vec<u8> = Vec::new();
        let mut y: usize = 0;
        while y < self.rows.len()
            invariant
                y <= self.rows@.len(),
                raw@ == flattened(self@.take(y as int)),
                raw@.len() == self.width * y,
                is_image(self@, self.width),
                self@.len() == self.rows@.len(),
            decreases self.rows@.len() - y,
        {
            raw.extend_from_slice(self.rows[y].as_slice());
            proof {
                assert(self@[y as int].len() == self.width);
                assert(self@.take(y + 1).drop_last() =~= self@.take(y as int));
                assert(raw@ =~= flattened(self@.take(y as int)) + self@[y as int]);
                assert(self.width * (y + 1) == self.width * y + self.width) by (nonlinear_arith);
            }
            y = y + 1;
        }
        assert(self@.take(y as int) =~= self@);
        raw
    }

    pub fn width(&self) -> (w: u32)
        ensures
            w == self.spec_width(),
            is_image(self@, w),
    {
        proof {
            use_type_invariant(self);
        }
        self.width
    }

    pub fn height(&self) -> (h: u32)
        ensures
            h == self@.len(),
            is_image(self@, self.spec_width()),
    {
        proof {
            use_type_invariant(self);
            assert(self@.len() == self.rows@.len());
        }
        self.rows.len() as u32
    }

    /// The pixel in column `x` of row `y`.
    pub fn get_pixel(&self, x: u32, y: u32) -> (value: u8)
        requires
            x < self.spec_width(),
            y < self@.len(),
        ensures
            value == self@[y as int][x as int],
    {
        proof {
            use_type_invariant(self);
            assert(self@[y as int].len() == self.width);
        }
        self.rows[y as usize][x as usize]
    }

    /// Row `y`.
    pub fn row(&self, y: u32) -> (row: &Vec<u8>)
        requires
            y < self@.len(),
        ensures
            row@ == self@[y as int],
            row@.len() == self.spec_width(),
    {
        proof {
            use_type_invariant(self);
            assert(self@[y as int].len() == self.width);
        }
        &self.rows[y as usize]
    }

    /// Replace one pixel.
    pub fn put_pixel(&mut self, x: u32, y: u32, value: u8)
        requires
            x < old(self).spec_width(),
            y < old(self)@.len(),
        ensures
            final(self)@ == old(self)@.update(
                y as int,
                old(self)@[y as int].update(x as int, value),
            ),
            final(self).spec_width() == old(self).spec_width(),
    {
        proof {
            use_type_invariant(&*self);
            assert(self@[y as int].len() == self.width);
        }
        let ghost before = self@;
        let mut rows: Vec<Vec<u8>> = Vec::new();
        std::mem::swap(&mut rows, &mut self.rows);
        let mut row: Vec<u8> = Vec::new();
        let ghost whole = rows@;
        std::mem::swap(&mut row, &mut rows[y as usize]);
        row.set(x as usize, value);
        rows.set(y as usize, row);
        proof {
            let after = Seq::new(rows@.len(), |i: int| rows@[i]@);
            assert(after =~= before.update(y as int, before[y as int].update(x as int, value)));
        }
        self.rows = rows;
    }

    /// The part from `x0` to `x1` and `y0` to `y1`, without the ends.
    pub fn crop(&self, x0: u32, y0: u32, x1: u32, y1: u32) -> (part: Self)
        requires
            x0 <= x1 <= self.spec_width(),
            y0 <= y1 <= self@.len(),
        ensures
            part@ == cropped(self@, x0 as int, y0 as int, x1 as int, y1 as int),
            part.spec_width() == x1 - x0,
            is_image(part@, (x1 - x0) as u32),
    {
        proof {
            use_type_invariant(self);
        }
        let mut rows: Vec<Vec<u8>> = Vec::new();
        let mut y: u32 = y0;
        while y < y1
            invariant
                y0 <= y <= y1,
                x0 <= x1 <= self.width,
                y1 <= self@.len(),
                is_image(self@, self.width),
                rows@.len() == y - y0,
                forall|i: int|
                    0 <= i < rows@.len() ==> (#[trigger] rows@[i])@ == self@[y0 + i].subrange(
                        x0 as int,
                        x1 as int,
                    ),
            decreases y1 - y,
        {
            let line: &Vec<u8> = self.row(y);
            let mut row: Vec<u8> = Vec::new();
            let mut x: u32 = x0;
            while x < x1
                invariant
                    x0 <= x <= x1,
                    x1 <= line@.len(),
                    row@ == line@.subrange(x0 as int, x as int),
                decreases x1 - x,
            {
                row.push(line[x as usize]);
                x = x + 1;
                assert(row@ =~= line@.subrange(x0 as int, x as int));
            }
            rows.push(row);
            y = y + 1;
        }
        let part: GrayImage = GrayImage::from_rows(x1 - x0, rows);
        assert(part@ =~= cropped(self@, x0 as int, y0 as int, x1 as int, y1 as int));
        part
    }
}

/// A product of two 32-bit numbers fits 64 bits.
pub proof fn lemma_product_fits(a: u32, b: u32)
    ensures
        0 <= a * b <= u64::MAX,
{
    assert(0 <= a * b <= u64::MAX) by (nonlinear_arith);
}

/// An image has one shade exactly if its pixels in reading order do.
pub proof fn lemma_uniform_in_reading_order(rows: Seq<Seq<u8>>, v: u8)
    ensures
        is_uniform(rows, v) <==> is_one_shade(flattened(rows), v),
    decreases rows.len(),
{
    if rows.len() > 0 {
        let before = rows.drop_last();
        let head = flattened(before);
        let all = flattened(rows);
        lemma_uniform_in_reading_order(before, v);
        if is_uniform(rows, v) {
            assert forall|x: int, y: int|
                0 <= y < before.len() && 0 <= x < before[y].len() implies #[trigger] before[y][x]
                == v by {
                assert(rows[y][x] == v);
            }
            assert forall|i: int| 0 <= i < all.len() implies #[trigger] all[i] == v by {
                if i < head.len() {
                    assert(all[i] == head[i]);
                } else {
                    assert(rows[rows.len() - 1][i - head.len()] == v);
                }
            }
        }
        if is_one_shade(all, v) {
            assert forall|i: int| 0 <= i < head.len() implies #[trigger] head[i] == v by {
                assert(all[i] == v);
            }
            assert forall|x: int, y: int|
                0 <= y < rows.len() && 0 <= x < rows[y].len() implies #[trigger] rows[y][x]
                == v by {
                if y < before.len() {
                    assert(before[y][x] == v);
                } else {
                    assert(all[head.len() + x] == v);
                }
            }
        }
    }
}

/// Pixels in reading order are put back into the rows that they came from.
pub proof fn lemma_rows_of_flattened(rows: Seq<Seq<u8>>, width: u32)
    requires
        is_image(rows, width),
    ensures
        in_rows(flattened(rows), width, rows.len() as u32) == rows,
        flattened(rows).len() == rows.len() * width,
    decreases rows.len(),
{
    if rows.len() > 0 {
        let before = rows.drop_last();
        let n = before.len();
        assert(is_image(before, width));
        lemma_rows_of_flattened(before, width);
        let all = flattened(rows);
        let w = width as int;
        assert((n + 1) * w == n * w + w) by (nonlinear_arith);
        assert(rows.last().len() == w);
        assert forall|y: int| 0 <= y < rows.len() implies #[trigger] all.subrange(
            y * w,
            y * w + w,
        ) == rows[y] by {
            if y < n {
                assert(0 <= y * w && y * w + w <= n * w) by (nonlinear_arith)
                    requires
                        0 <= y,
                        y + 1 <= n,
                        0 <= w,
                ;
                let head = flattened(before);
                assert(all.subrange(y * w, y * w + w) =~= head.subrange(y * w, y * w + w));
                assert(in_rows(head, width, n as u32)[y] == rows[y]);
            } else {
                assert(all.subrange(y * w, y * w + w) =~= rows.last());
            }
        }
    }
    assert(in_rows(flattened(rows), width, rows.len() as u32) =~= rows);
}

/// An image is known from its width and its pixels in reading order.
pub proof fn flattened_determines_image(a: Seq<Seq<u8>>, b: Seq<Seq<u8>>, width: u32)
    requires
        is_image(a, width),
        is_image(b, width),
        a.len() == b.len(),
        flattened(a) == flattened(b),
    ensures
        a == b,
    decreases a.len(),
{
    if a.len() > 0 {
        let p = flattened(a.drop_last());
        let q = flattened(b.drop_last());
        assert(is_image(a.drop_last(), width));
        assert(is_image(b.drop_last(), width));
        assert(a.last().len() == width && b.last().len() == width);
        assert(p =~= flattened(a).take(p.len() as int));
        assert(q =~= flattened(b).take(q.len() as int));
        assert(a.last() =~= flattened(a).skip(p.len() as int));
        assert(b.last() =~= flattened(b).skip(q.len() as int));
        flattened_determines_image(a.drop_last(), b.drop_last(), width);
        assert(a =~= a.drop_last().push(a.last()));
        assert(b =~= b.drop_last().push(b.last()));
    }
}

} // verus!
