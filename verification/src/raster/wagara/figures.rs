//! The geometry of each motif.
//!
//! **Tiling.** A band is a separator, so it must run edge to edge with no
//! margin and no half-eaten motif at the paper's edge. Every pattern therefore
//! picks a horizontal period that divides the roll exactly, and draws one motif
//! past each edge.
//!
//! **Band height.** Where the vertical rhythm is free — checks, scales,
//! feathers, swells — the band's height is divided by the whole number of
//! repeats nearest the traditional proportion, so the band always ends on a
//! motif boundary and always shows at least one whole repeat. The lattices
//! cannot do that without shearing, so they centre a row on the band instead.
//!
//! **Occlusion.** Seigaiha is the only pattern whose motifs overlap. Real
//! seigaiha is layered like fish scales — a lower fan hides the bottom of the
//! one above — so each row erases its own half-discs before stroking its arcs.

use crate::raster::wagara::shapes::Shape;
use vstd::prelude::*;
#[allow(unused_imports)]
use crate::raster::wagara::shapes::{covers, is_moderate};

verus! {

/// The motifs.
#[derive(Debug, Clone, Copy, PartialEq, Eq, Structural)]
pub enum Pattern {
    /// 麻の葉 — the hemp leaf: a hexagonal lattice with all three long
    /// diagonals, and a three-armed spur to the centroid of each of the six
    /// triangles those diagonals cut.
    Asanoha,
    /// 市松 — a checkerboard of solid blocks.
    Ichimatsu,
    /// 鹿の子 — fawn spots: open squares with a centre dot on a triangular
    /// lattice.
    Kanoko,
    /// 亀甲 — a plain hexagonal honeycomb outline.
    Kikkou,
    /// 紗綾形 — the key fret woven from interlocking 卍.
    Sayagata,
    /// 青海波 — concentric half-circle fans laid like fish scales.
    Seigaiha,
    /// 七宝 — equal circles on a square lattice, overlapping into four-petal
    /// flowers.
    Shippou,
    /// 立涌 — rising steam: columns of paired wavy lines that swell and pinch.
    Tatewaku,
    /// 鱗 — fish scales: rows of solid triangles, every other row offset by
    /// half a triangle.
    Uroko,
    /// 矢絣 — arrow fletching: columns of chevrons, half a feather out of step,
    /// with every second pair of columns flipped over.
    Yagasuri,
}

/// A pattern fitted to a band.
#[derive(Debug, Clone, Copy)]
pub struct Figure {
    pub pattern: Pattern,
    /// How many motifs run across the roll.
    pub n: i64,
    /// The width of a motif, in samples.
    pub pitch: i64,
    /// The height of the band, in samples.
    pub h: i64,
}

/// Whether a number is odd.
pub open spec fn is_odd(k: int) -> bool {
    k % 2 == 1
}

impl Figure {
    /// The motifs fill the roll, and the band is of a permitted height.
    pub open spec fn wf(self) -> bool {
        &&& 2 <= self.n <= 16
        &&& self.n * self.pitch == 1152
        &&& 72 <= self.pitch <= 576
        &&& self.pitch % 6 == 0
        &&& self.pattern == Pattern::Kanoko || self.pattern == Pattern::Tatewaku ==> self.pitch
            <= 288
        &&& 48 <= self.h <= 1200
    }

    /// Lattice rows run from `-rows` to `rows`, with row 0 on the band's
    /// centre line.
    pub open spec fn rows(self) -> int {
        match self.pattern {
            Pattern::Seigaiha => 2 * self.h as int / self.pitch as int + 4,
            Pattern::Sayagata => 6 * self.h as int / self.pitch as int + 2,
            Pattern::Tatewaku => 0,
            _ => self.h as int / self.pitch as int + 3,
        }
    }

    /// The first lattice column: one motif past the left edge.
    pub open spec fn first(self) -> int {
        if self.pattern == Pattern::Sayagata {
            -2
        } else {
            -1
        }
    }

    /// How many lattice columns there are, one past each edge included.
    pub open spec fn columns(self) -> int {
        match self.pattern {
            Pattern::Kikkou => 2 * self.n + 3,
            Pattern::Sayagata => 12 * self.n + 5,
            _ => self.n + 3,
        }
    }

    /// How many strokes there are to a motif.
    pub open spec fn edges(self) -> int {
        match self.pattern {
            Pattern::Asanoha => 27,
            Pattern::Kanoko => 5,
            Pattern::Kikkou => 6,
            Pattern::Sayagata => 2,
            Pattern::Seigaiha => 3,
            Pattern::Shippou => 1,
            Pattern::Tatewaku => 2 * steps(self),
            _ => 0,
        }
    }
}

/// The corners of a hexagon with a corner at the top, seen from its centre:
/// the column, and the multiple of √3 in the height. The unit is a sixth of a
/// sample.
pub open spec fn leaf_corner(p: int, e: int) -> (int, int) {
    if e == 0 {
        (0, -2 * p)
    } else if e == 1 {
        (3 * p, -p)
    } else if e == 2 {
        (3 * p, p)
    } else if e == 3 {
        (0, 2 * p)
    } else if e == 4 {
        (-3 * p, p)
    } else {
        (-3 * p, -p)
    }
}

/// The centroids of the six triangles about a hexagon's centre.
pub open spec fn leaf_centroid(p: int, t: int) -> (int, int) {
    if t == 0 {
        (p, -p)
    } else if t == 1 {
        (2 * p, 0)
    } else if t == 2 {
        (p, p)
    } else if t == 3 {
        (-p, p)
    } else if t == 4 {
        (-2 * p, 0)
    } else {
        (-p, -p)
    }
}

/// The ends of the strokes of a hemp leaf: six sides, three diagonals, and
/// three spurs to each of six centroids.
pub open spec fn leaf_ends(p: int, e: int) -> ((int, int), (int, int)) {
    if e < 6 {
        (leaf_corner(p, e), leaf_corner(p, (e + 1) % 6))
    } else if e < 9 {
        (leaf_corner(p, e - 6), leaf_corner(p, e - 3))
    } else {
        let t = (e - 9) / 3;
        (
            leaf_centroid(p, t),
            if (e - 9) % 3 == 0 {
                (0, 0)
            } else if (e - 9) % 3 == 1 {
                leaf_corner(p, t)
            } else {
                leaf_corner(p, (t + 1) % 6)
            },
        )
    }
}

/// The corners of a hexagon with a side at the top.
pub open spec fn shell_corner(p: int, e: int) -> (int, int) {
    if e == 0 {
        (2 * p, 0)
    } else if e == 1 {
        (p, p)
    } else if e == 2 {
        (-p, p)
    } else if e == 3 {
        (-2 * p, 0)
    } else if e == 4 {
        (-p, -p)
    } else {
        (p, -p)
    }
}

/// The corners of a fawn spot, about a quarter of a pitch from its centre; the
/// speck in the middle is a stroke of no length.
pub open spec fn spot_corner(p: int, e: int) -> (int, int) {
    if e == 0 {
        (-13 * p, -13 * p)
    } else if e == 1 {
        (13 * p, -13 * p)
    } else if e == 2 {
        (13 * p, 13 * p)
    } else {
        (-13 * p, 13 * p)
    }
}

/// Edges of the key fret that leave the lattice point `(u, v)` along `+u`: bit
/// `u` of row `v`. The figures are transcribed from a public-domain seamless
/// tile rather than derived: sayagata is a specific historical linkage of 卍
/// forms, not a lattice with a closed-form rule.
pub open spec fn fret_u() -> Seq<u16> {
    seq![
        0x1fc,
        0x9fc,
        0x575,
        0x38a,
        0x386,
        0xd45,
        0xf07,
        0xf27,
        0xd55,
        0x28e,
        0x18e,
        0x175,
    ]
}

/// Edges of the key fret that leave the lattice point `(u, v)` along `+v`.
pub open spec fn fret_v() -> Seq<u16> {
    seq![
        0xc03,
        0xe07,
        0xdfb,
        0xb6d,
        0xef7,
        0x1f8,
        0x0f0,
        0x1f8,
        0xef7,
        0xb6d,
        0xdfb,
        0xe07,
    ]
}

/// Bit `b` of a table entry.
pub open spec fn has_bit(word: u16, b: int) -> bool {
    (word as int / pow2_small(b)) % 2 == 1
}

/// Powers of two up to the width of a table entry.
pub open spec fn pow2_small(b: int) -> int
    decreases b,
{
    if b <= 0 {
        1
    } else {
        2 * pow2_small(b - 1)
    }
}

/// Whether the key fret has a stroke from the point in column `s` and row `t`
/// of the lattice turned 45°, to the right and down (`e` of 0) or up.
pub open spec fn fret_has(s: int, t: int, e: int) -> bool {
    &&& (s + t) % 2 == 0
    &&& {
        let u = ((s + t) / 2) % 12;
        let v = ((s - t) / 2) % 12;
        has_bit(
            if e == 0 {
                fret_u()[v]
            } else {
                fret_v()[v]
            },
            u,
        )
    }
}

/// How many units of a wavy line's own make up half a sample.
pub const FINE: i64 = 0x10_0000;

/// The cosine's own unit.
pub const COS_ONE: i64 = 0x100_0000_0000;

/// A full turn, in units of [`COS_ONE`].
pub const COS_TURN: i64 = 6_908_435_304_715;

/// The tail of the cosine's series, from the term `term` of order `2 * j` on,
/// with `x2` the squared angle.
pub open spec fn cos_tail(term: int, x2: int, j: int) -> int
    decreases 12 - j,
{
    if j >= 12 {
        0
    } else {
        term - cos_tail(term * x2 / (COS_ONE as int) / ((2 * j + 1) * (2 * j + 2)), x2, j + 1)
    }
}

/// The cosine of `num / den` of a turn, within the first quarter.
pub open spec fn cos_quarter(num: int, den: int) -> int {
    let x = COS_TURN * num / den;
    let c = cos_tail(COS_ONE as int, x * x / (COS_ONE as int), 0);
    if c < 0 {
        0
    } else if c > COS_ONE {
        COS_ONE as int
    } else {
        c
    }
}

/// The cosine of `num / den` of a turn, in units of [`COS_ONE`].
pub open spec fn cosine(num: int, den: int) -> int {
    let a = num % den;
    let b = if 2 * a > den {
        den - a
    } else {
        a
    };
    if 4 * b > den {
        -cos_quarter(den - 2 * b, 2 * den)
    } else {
        cos_quarter(b, den)
    }
}

/// How many swells a wavy line has: each is about one and a third pitches tall.
pub open spec fn swells(fig: Figure) -> int {
    let c = (20 * fig.h + 13 * fig.pitch) / (26 * fig.pitch);
    if c < 1 {
        1
    } else {
        c
    }
}

/// How many pieces a wavy line is drawn in, from one swell above the band to
/// one below: none is longer than a stroke's half-width.
pub open spec fn steps(fig: Figure) -> int {
    let c = swells(fig);
    let s = (fig.h * (c + 2) + 3 * c - 1) / (3 * c);
    if s < 8 {
        8
    } else {
        s
    }
}

/// The height of a joint of a wavy line.
pub open spec fn joint_y(fig: Figure, s: int) -> int {
    let c = swells(fig);
    2 * FINE * fig.h * ((c + 2) * s - steps(fig)) / (c * steps(fig))
}

/// How far a joint of a wavy line lies from the column's centre: the half-width
/// runs between 0.15 and 0.39 of a pitch as a cosine of the height, widest on
/// the band's centre line.
pub open spec fn joint_x(fig: Figure, s: int) -> int {
    let c = swells(fig);
    let n = steps(fig);
    fig.pitch * FINE * 27 / 50 + fig.pitch * FINE * 6 / 25 * cosine(
        2 * (c + 2) * s - c * n,
        2 * n,
    ) / (COS_ONE as int)
}

/// The stroke `e` of the motif in row `k` and column `i`.
pub open spec fn stroke_of(fig: Figure, k: int, i: int, e: int) -> Shape {
    let p = fig.pitch as int;
    let h = fig.h as int;
    match fig.pattern {
        Pattern::Asanoha => {
            let cx = 6 * (i * p) + if is_odd(k) {
                3 * p
            } else {
                0
            };
            let cv = 3 * (k * p);
            let ends = leaf_ends(p, e);
            Shape::Slant {
                m: 3,
                ax: (cx + ends.0.0) as i64,
                au: (3 * h) as i64,
                av: (cv + ends.0.1) as i64,
                dx: (ends.1.0 - ends.0.0) as i64,
                du: 0,
                dv: (ends.1.1 - ends.0.1) as i64,
            }
        },
        Pattern::Kanoko => {
            let cx = 50 * (i * p) + if is_odd(k) {
                25 * p
            } else {
                0
            };
            let cv = 25 * (k * p);
            let a = if e == 4 {
                (0, 0)
            } else {
                spot_corner(p, e)
            };
            let b = if e == 4 {
                (0, 0)
            } else {
                spot_corner(p, (e + 1) % 4)
            };
            Shape::Slant {
                m: 25,
                ax: (cx + a.0) as i64,
                au: (25 * h + a.1) as i64,
                av: cv as i64,
                dx: (b.0 - a.0) as i64,
                du: (b.1 - a.1) as i64,
                dv: 0,
            }
        },
        Pattern::Kikkou => {
            let cx = 3 * (i * p);
            let cv = 2 * (k * p) + if is_odd(i) {
                p
            } else {
                0
            };
            let a = shell_corner(p, e);
            let b = shell_corner(p, (e + 1) % 6);
            Shape::Slant {
                m: 3,
                ax: (cx + a.0) as i64,
                au: (3 * h) as i64,
                av: (cv + a.1) as i64,
                dx: (b.0 - a.0) as i64,
                du: 0,
                dv: (b.1 - a.1) as i64,
            }
        },
        Pattern::Sayagata => if fret_has(i, k, e) {
            Shape::Line {
                m: 1,
                ax: (i * (p / 6)) as i64,
                ay: (k * (p / 6) + h) as i64,
                dx: (p / 6) as i64,
                dy: if e == 0 {
                    (p / 6) as i64
                } else {
                    (-(p / 6)) as i64
                },
            }
        } else {
            Shape::Nothing
        },
        Pattern::Seigaiha => {
            let r = (e + 1) * (p / 3);
            Shape::Ring {
                cx: (2 * (i * p) + if is_odd(k) {
                    p
                } else {
                    0
                }) as i64,
                cy: (h + k * (p / 2)) as i64,
                r2: (r * r) as i64,
                reach: (r + 6) as i64,
                upper: true,
            }
        },
        Pattern::Shippou => Shape::Ring {
            cx: (2 * (i * p)) as i64,
            cy: (h + 2 * (k * p)) as i64,
            r2: (2 * (p * p)) as i64,
            reach: (p + p / 2 + 6) as i64,
            upper: false,
        },
        Pattern::Tatewaku => {
            let cx = 2 * FINE * (i * p);
            let near = joint_x(fig, e / 2);
            let far = joint_x(fig, e / 2 + 1);
            let ax = if e % 2 == 0 {
                cx - near
            } else {
                cx + near
            };
            let bx = if e % 2 == 0 {
                cx - far
            } else {
                cx + far
            };
            let ay = joint_y(fig, e / 2);
            Shape::Line {
                m: FINE,
                ax: ax as i64,
                ay: ay as i64,
                dx: (bx - ax) as i64,
                dy: (joint_y(fig, e / 2 + 1) - ay) as i64,
            }
        },
        _ => Shape::Nothing,
    }
}

/// What the motif in row `k` and column `i` hides of the rows above it.
pub open spec fn fan_of(fig: Figure, k: int, i: int) -> Shape {
    let p = fig.pitch as int;
    match fig.pattern {
        Pattern::Seigaiha => Shape::Fan {
            cx: (2 * (i * p) + if is_odd(k) {
                p
            } else {
                0
            }) as i64,
            cy: (fig.h + k * (p / 2)) as i64,
            r2: (p * p) as i64,
            reach: p as i64,
        },
        _ => Shape::Nothing,
    }
}

/// Whether a sample lies under the stroke at place `q` of a row, counted motif
/// by motif from the left.
#[verifier::opaque]
pub open spec fn stroke_covers(fig: Figure, k: int, q: int, x: int, y: int) -> bool {
    covers(stroke_of(fig, k, fig.first() + q / fig.edges(), q % fig.edges()), x, y)
}

/// Whether a sample lies under the fan at place `q` of a row.
#[verifier::opaque]
pub open spec fn fan_covers(fig: Figure, k: int, q: int, x: int, y: int) -> bool {
    covers(fan_of(fig, k, fig.first() + q), x, y)
}

/// Whether a sample lies under one of the first `count` strokes of a row.
pub open spec fn row_strokes(fig: Figure, k: int, count: int, x: int, y: int) -> bool {
    exists|q: int| 0 <= q < count && #[trigger] stroke_covers(fig, k, q, x, y)
}

/// Whether a sample lies under one of the first `count` fans of a row.
pub open spec fn row_hides(fig: Figure, k: int, count: int, x: int, y: int) -> bool {
    exists|q: int| 0 <= q < count && #[trigger] fan_covers(fig, k, q, x, y)
}

/// Whether a sample is inked once the rows up to `k` are drawn.
pub open spec fn lattice_ink(fig: Figure, k: int, x: int, y: int) -> bool
    decreases k + fig.rows() + 1,
{
    if k < -fig.rows() {
        false
    } else if row_strokes(fig, k, fig.columns() * fig.edges(), x, y) {
        true
    } else if row_hides(fig, k, fig.columns(), x, y) {
        false
    } else {
        lattice_ink(fig, k - 1, x, y)
    }
}

/// How many rows of checks there are: as near to square as the band allows.
pub open spec fn check_rows(fig: Figure) -> int {
    let c = (4 * fig.h + fig.pitch) / (2 * fig.pitch);
    if c < 1 {
        1
    } else {
        c
    }
}

/// Whether a sample is inked in a checkerboard.
pub open spec fn check_ink(fig: Figure, x: int, y: int) -> bool {
    (x / fig.pitch as int + y * check_rows(fig) / (2 * fig.h)) % 2 == 0
}

/// Whether `c` rows of triangles come nearest to equilateral ones.
pub open spec fn is_scale_rows(fig: Figure, c: int) -> bool {
    let p2 = fig.pitch * fig.pitch;
    let h2 = fig.h * fig.h;
    &&& c >= 1
    &&& c == 1 || 3 * ((2 * c - 1) * (2 * c - 1)) * p2 <= 16 * h2
    &&& 3 * ((2 * c + 1) * (2 * c + 1)) * p2 > 16 * h2
}

/// Whether a sample is inked in a band of `c` rows of scales: half-width grows
/// linearly from nothing at the apex to half a base at the foot.
pub open spec fn scale_ink(fig: Figure, c: int, x: int, y: int) -> bool {
    let p = fig.pitch as int;
    let h = fig.h as int;
    let j = y * c / (2 * h);
    let depth = y * c - 2 * h * j;
    let z = (x + if is_odd(j) {
        p
    } else {
        0
    }) % (2 * p);
    let off = if z <= p {
        z
    } else {
        2 * p - z
    };
    off * (2 * h) <= depth * p
}

/// Whether a sample is inked in a band of fletching. A hairline is left
/// unprinted down each column's centre for the arrow's shaft.
pub open spec fn feather_ink(fig: Figure, x: int, y: int) -> bool {
    let p = fig.pitch as int;
    let h = fig.h as int;
    let c = check_rows(fig);
    let i = 2 * x / p;
    let from_shaft = 4 * x - (2 * p * i + p);
    let reach = if from_shaft < 0 {
        -from_shaft
    } else {
        from_shaft
    };
    let edge = if (i / 2) % 2 == 1 {
        reach - p
    } else {
        p - reach
    };
    let z = (2 * c * (4 * y - edge) - if is_odd(i) {
        8 * h
    } else {
        0
    }) % (16 * h);
    reach >= 24 && z < 8 * h
}

/// Whether a figure inks the sample at `(x, y)`.
pub open spec fn inked(fig: Figure, x: int, y: int) -> bool {
    match fig.pattern {
        Pattern::Ichimatsu => check_ink(fig, x, y),
        Pattern::Uroko => exists|c: int| #[trigger] is_scale_rows(fig, c) && scale_ink(fig, c, x, y),
        Pattern::Yagasuri => feather_ink(fig, x, y),
        _ => lattice_ink(fig, fig.rows(), x, y),
    }
}

} // verus!
