//! An oversampled 1-bit drawing surface.
//!
//! Arcs and diagonals thresholded straight to 1 bit look ragged. Each pattern
//! is drawn into a threefold oversampled buffer and collapsed by majority vote,
//! so a stroke lands within a third of a pixel of where the maths puts it.

use crate::raster::bitmap::{Bitmap, WIDTH};
use crate::raster::wagara::shapes::{bounds, is_covered, Shape};
use vstd::prelude::*;
#[allow(unused_imports)]
use crate::raster::wagara::shapes::{box_of, covers, is_moderate, unit_of};

verus! {

/// Supersampling factor: each printed pixel is drawn as a 3×3 block and
/// collapsed by majority vote.
pub const SS: usize = 3;

/// Width of the oversampled buffer, in samples.
pub const SS_WIDTH: usize = 1152;

/// The tallest oversampled buffer, in samples.
pub const SS_HEIGHT: usize = 1200;

/// An oversampled 1-bit drawing surface, three times the printed resolution.
#[derive(Debug)]
pub struct Canvas {
    /// Height in samples.
    pub height: usize,
    pub ink: Vec<bool>,
}

/// One for an inked sample.
pub open spec fn vote(inked: bool) -> int {
    if inked {
        1
    } else {
        0
    }
}

impl Canvas {
    /// Every sample of the surface has its place.
    pub open spec fn wf(&self) -> bool {
        &&& self.height <= SS_HEIGHT
        &&& self.ink@.len() == 1152 * self.height
    }

    /// Whether a sample is inked.
    pub open spec fn at(&self, sx: int, sy: int) -> bool {
        self.ink@[sy * 1152 + sx]
    }

    /// How many samples of a printed pixel are inked.
    pub open spec fn votes(&self, x: int, y: int) -> int {
        vote(self.at(3 * x, 3 * y)) + vote(self.at(3 * x + 1, 3 * y)) + vote(
            self.at(3 * x + 2, 3 * y),
        ) + vote(self.at(3 * x, 3 * y + 1)) + vote(self.at(3 * x + 1, 3 * y + 1)) + vote(
            self.at(3 * x + 2, 3 * y + 1),
        ) + vote(self.at(3 * x, 3 * y + 2)) + vote(self.at(3 * x + 1, 3 * y + 2)) + vote(
            self.at(3 * x + 2, 3 * y + 2),
        )
    }

    /// A blank surface.
    pub fn new(height_px: usize) -> (canvas: Self)
        requires
            height_px <= 400,
        ensures
            canvas.wf(),
            canvas.height == 3 * height_px,
            forall|sx: int, sy: int|
                0 <= sx < SS_WIDTH && 0 <= sy < canvas.height ==> !#[trigger] canvas.at(sx, sy),
    {
        let height: usize = height_px * SS;
        let total: usize = SS_WIDTH * height;
        let mut ink: Vec<bool> = Vec::new();
        let mut i: usize = 0;
        while i < total
            invariant
                i <= total,
                ink@.len() == i,
                forall|k: int| 0 <= k < i ==> !#[trigger] ink@[k],
            decreases total - i,
        {
            ink.push(false);
            i = i + 1;
        }
        Canvas { height, ink }
    }

    /// Set one sample.
    pub fn put(&mut self, sx: usize, sy: usize, value: bool)
        requires
            old(self).wf(),
            sx < SS_WIDTH,
            sy < old(self).height,
        ensures
            final(self).wf(),
            final(self).height == old(self).height,
            forall|x: int, y: int|
                0 <= x < SS_WIDTH && 0 <= y < old(self).height ==> #[trigger] final(self).at(x, y)
                    == if x == sx && y == sy {
                    value
                } else {
                    old(self).at(x, y)
                },
    {
        let place: usize = sy * SS_WIDTH + sx;
        let ghost previous = *self;
        self.ink.set(place, value);
        assert forall|x: int, y: int|
            0 <= x < SS_WIDTH && 0 <= y < previous.height && !(x == sx && y
                == sy) implies #[trigger] self.at(x, y) == previous.at(x, y) by {
            assert(y * 1152 + x != place);
        }
    }

    /// The samples along one axis that may lie within a span.
    fn samples(lo: i64, hi: i64, m: i64, limit: usize) -> (r: (usize, usize))
        requires
            1 <= m <= 0x100_0000,
            -0x200_0000_0000 <= lo <= 0x200_0000_0000,
            -0x200_0000_0000 <= hi <= 0x200_0000_0000,
            limit <= 1200,
        ensures
            r.1 <= limit,
            forall|s: int|
                0 <= s < limit && !(r.0 <= s < r.1) ==> !(lo <= #[trigger] ((2 * s + 1) * m) <= hi),
    {
        let first: usize = if lo <= 0 {
            0
        } else {
            let q: i64 = (lo / m) / 2;
            if q > 1200 {
                1200
            } else {
                q as usize
            }
        };
        let end: usize = if hi < 0 {
            0
        } else {
            let q: i64 = (hi / m) / 2;
            if q >= 1200 {
                limit
            } else if (q as usize) + 1 > limit {
                limit
            } else {
                q as usize + 1
            }
        };
        proof {
            assert forall|s: int| 0 <= s < limit && !(first <= s < end) implies !(lo
                <= #[trigger] ((2 * s + 1) * m) <= hi) by {
                if s < first {
                    let q = lo as int / m as int;
                    vstd::arithmetic::div_mod::lemma_fundamental_div_mod(lo as int, m as int);
                    assert((2 * s + 1) * m < lo) by (nonlinear_arith)
                        requires
                            2 * s + 1 < q,
                            lo == m * q + lo as int % m as int,
                            lo as int % m as int >= 0,
                            m >= 1,
                    ;
                } else if hi < 0 {
                    assert((2 * s + 1) * m >= 0) by (nonlinear_arith)
                        requires
                            s >= 0,
                            m >= 1,
                    ;
                } else {
                    let q = hi as int / m as int;
                    vstd::arithmetic::div_mod::lemma_fundamental_div_mod(hi as int, m as int);
                    assert((2 * s + 1) * m > hi) by (nonlinear_arith)
                        requires
                            2 * s + 1 > q,
                            hi == m * q + hi as int % m as int,
                            hi as int % (m as int) < m,
                            m >= 1,
                    ;
                }
            }
        }
        (first, end)
    }

    /// Set every sample that a shape covers to `value`.
    pub fn paint(&mut self, shape: Shape, value: bool)
        requires
            old(self).wf(),
            is_moderate(shape),
        ensures
            final(self).wf(),
            final(self).height == old(self).height,
            forall|sx: int, sy: int|
                0 <= sx < SS_WIDTH && 0 <= sy < old(self).height ==> #[trigger] final(self).at(
                    sx,
                    sy,
                ) == if covers(shape, 2 * sx + 1, 2 * sy + 1) {
                    value
                } else {
                    old(self).at(sx, sy)
                },
    {
        let b: (i64, i64, i64, i64, i64) = bounds(shape);
        let xs: (usize, usize) = Self::samples(b.0, b.1, b.4, SS_WIDTH);
        let ys: (usize, usize) = Self::samples(b.2, b.3, b.4, self.height);
        let ghost height = self.height;
        let ghost before = *self;
        let mut sy: usize = ys.0;
        while sy < ys.1
            invariant
                self.wf(),
                self.height == height,
                before.height == height,
                is_moderate(shape),
                (b.0 as int, b.1 as int, b.2 as int, b.3 as int) == box_of(shape),
                b.4 == unit_of(shape),
                ys.1 <= height,
                xs.1 <= SS_WIDTH,
                forall|s: int|
                    0 <= s < SS_WIDTH && !(xs.0 <= s < xs.1) ==> !(b.0 <= #[trigger] ((2 * s + 1)
                        * b.4) <= b.1),
                forall|s: int|
                    0 <= s < height && !(ys.0 <= s < ys.1) ==> !(b.2 <= #[trigger] ((2 * s + 1)
                        * b.4) <= b.3),
                ys.0 <= sy,
                forall|x: int, y: int|
                    0 <= x < SS_WIDTH && 0 <= y < height ==> #[trigger] self.at(x, y) == if y < sy
                        && covers(shape, 2 * x + 1, 2 * y + 1) {
                        value
                    } else {
                        before.at(x, y)
                    },
            decreases ys.1 - sy,
        {
            let mut sx: usize = xs.0;
            while sx < xs.1
                invariant
                    self.wf(),
                    self.height == height,
                    before.height == height,
                    is_moderate(shape),
                    sy < height,
                    xs.1 <= SS_WIDTH,
                    xs.0 <= sx,
                    forall|s: int|
                        0 <= s < SS_WIDTH && !(xs.0 <= s < xs.1) ==> !(b.0 <= #[trigger] ((2 * s
                            + 1) * b.4) <= b.1),
                    (b.0 as int, b.1 as int, b.2 as int, b.3 as int) == box_of(shape),
                    b.4 == unit_of(shape),
                    forall|x: int, y: int|
                        0 <= x < SS_WIDTH && 0 <= y < height ==> #[trigger] self.at(x, y) == if (y
                            < sy || (y == sy && x < sx)) && covers(shape, 2 * x + 1, 2 * y + 1) {
                            value
                        } else {
                            before.at(x, y)
                        },
                decreases xs.1 - sx,
            {
                if is_covered(shape, 2 * (sx as i64) + 1, 2 * (sy as i64) + 1) {
                    self.put(sx, sy, value);
                }
                sx = sx + 1;
            }
            assert forall|x: int, y: int| 0 <= x < SS_WIDTH && 0 <= y < height implies #[trigger] self.at(
                x,
                y,
            ) == if y < sy + 1 && covers(shape, 2 * x + 1, 2 * y + 1) {
                value
            } else {
                before.at(x, y)
            } by {
                if y == sy && x >= xs.1 {
                    assert(!(b.0 <= (2 * x + 1) * b.4 <= b.1));
                }
                if y == sy && x < xs.0 {
                    assert(!(b.0 <= (2 * x + 1) * b.4 <= b.1));
                }
            }
            sy = sy + 1;
        }
        assert forall|x: int, y: int| 0 <= x < SS_WIDTH && 0 <= y < height implies #[trigger] self.at(
            x,
            y,
        ) == if covers(shape, 2 * x + 1, 2 * y + 1) {
            value
        } else {
            before.at(x, y)
        } by {
            if y >= ys.1 || y < ys.0 {
                assert(!(b.2 <= (2 * y + 1) * b.4 <= b.3));
            }
        }
    }

    fn vote_at(&self, sx: usize, sy: usize) -> (v: usize)
        requires
            self.wf(),
            sx < SS_WIDTH,
            sy < self.height,
        ensures
            v == vote(self.at(sx as int, sy as int)),
    {
        if self.ink[sy * SS_WIDTH + sx] {
            1
        } else {
            0
        }
    }

    /// Collapse the oversampled buffer to 1 bit: a printed pixel is black when
    /// at least half its samples are inked.
    pub fn into_bitmap(self) -> (out: Bitmap)
        requires
            self.wf(),
        ensures
            out@.len() == self.height / 3,
            forall|x: int, y: int|
                0 <= x < WIDTH && 0 <= y < out@.len() ==> #[trigger] out.black(x, y) == (2
                    * self.votes(x, y) >= 9),
    {
        let height_px: usize = self.height / SS;
        let mut out: Bitmap = Bitmap::new(height_px);
        let mut y: usize = 0;
        proof {
            assert forall|px: int, py: int| 0 <= px < WIDTH && 0 <= py < height_px implies !#[trigger] out.black(
                px,
                py,
            ) by {
                crate::raster::bitmap::blank_row_is_white(px);
            }
        }
        while y < height_px
            invariant
                self.wf(),
                height_px == self.height / 3,
                y <= height_px,
                out@.len() == height_px,
                forall|px: int, py: int|
                    0 <= px < WIDTH && 0 <= py < height_px ==> #[trigger] out.black(px, py) == (py
                        < y && 2 * self.votes(px, py) >= 9),
            decreases height_px - y,
        {
            let mut x: usize = 0;
            while x < WIDTH
                invariant
                    self.wf(),
                    height_px == self.height / 3,
                    y < height_px,
                    x <= WIDTH,
                    out@.len() == height_px,
                    forall|px: int, py: int|
                        0 <= px < WIDTH && 0 <= py < height_px ==> #[trigger] out.black(px, py) == ((
                        py < y || (py == y && px < x)) && 2 * self.votes(px, py) >= 9),
                decreases WIDTH - x,
            {
                let sx: usize = SS * x;
                let sy: usize = SS * y;
                let votes: usize = self.vote_at(sx, sy) + self.vote_at(sx + 1, sy) + self.vote_at(
                    sx + 2,
                    sy,
                ) + self.vote_at(sx, sy + 1) + self.vote_at(sx + 1, sy + 1) + self.vote_at(
                    sx + 2,
                    sy + 1,
                ) + self.vote_at(sx, sy + 2) + self.vote_at(sx + 1, sy + 2) + self.vote_at(
                    sx + 2,
                    sy + 2,
                );
                assert(votes == self.votes(x as int, y as int));
                if 2 * votes >= SS * SS {
                    out.set(x, y, true);
                }
                x = x + 1;
            }
            y = y + 1;
        }
        out
    }
}

} // verus!
