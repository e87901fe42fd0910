//! The figures that the motifs are made of.
//!
//! Heights are given as a plain part and a multiple of √3, so the square of a
//! length is `x² + u² + 3v² + 2uv√3`. Where one of the two parts is zero it is a
//! whole number.

use vstd::prelude::*;
#[allow(unused_imports)]
use crate::raster::wagara::figures::{
    check_ink,
    fan_of,
    is_odd,
    leaf_corner,
    shell_corner,
    spot_corner,
    stroke_of,
    Figure,
    Pattern,
};
#[allow(unused_imports)]
use crate::raster::wagara::options::{
    default_options,
    first_place,
    option_line,
    option_lines,
    WagaraOptions,
};
#[allow(unused_imports)]
use crate::raster::wagara::render::fitted;
#[allow(unused_imports)]
use crate::raster::wagara::shapes::Shape;
#[allow(unused_imports)]
use crate::strings::{number_in, small_letters, trimmed};

verus! {

/// Whether a place in the lattice is one that can be drawn.
pub open spec fn is_place(fig: Figure, k: int, i: int) -> bool {
    fig.wf() && -300 <= k <= 300 && -300 <= i <= 300
}

/// Where a slanted stroke begins: the column, and the two parts of the height.
pub open spec fn slant_start(s: Shape) -> (int, int, int) {
    (s->Slant_ax as int, s->Slant_au as int, s->Slant_av as int)
}

/// Where a slanted stroke ends.
pub open spec fn slant_end(s: Shape) -> (int, int, int) {
    (
        s->Slant_ax + s->Slant_dx,
        s->Slant_au + s->Slant_du,
        s->Slant_av + s->Slant_dv,
    )
}

/// The squared distance of two points whose heights differ in one of the parts
/// alone.
pub open spec fn distance2(a: (int, int, int), b: (int, int, int)) -> int {
    let x = a.0 - b.0;
    let u = a.1 - b.1;
    let v = a.2 - b.2;
    x * x + u * u + 3 * (v * v)
}

proof fn lemma_distance(a: (int, int, int), b: (int, int, int), x: int, u: int, v: int)
    requires
        a.0 - b.0 == x,
        a.1 - b.1 == u,
        a.2 - b.2 == v,
    ensures
        distance2(a, b) == x * x + u * u + 3 * (v * v),
{
}

proof fn lemma_products(fig: Figure, k: int, i: int)
    requires
        is_place(fig, k, i),
    ensures
        -172_800 <= i * fig.pitch <= 172_800,
        -172_800 <= k * fig.pitch <= 172_800,
{
    let p = fig.pitch as int;
    assert(-172_800 <= i * p <= 172_800 && -172_800 <= k * p <= 172_800) by (nonlinear_arith)
        requires
            72 <= p <= 576,
            -300 <= i <= 300,
            -300 <= k <= 300,
    ;
}

/// A tortoise shell is a regular hexagon: its six strokes close, each begins as
/// far from the centre as it is long, and that is two thirds of the pitch.
pub proof fn a_shell_is_a_regular_hexagon(fig: Figure, k: int, i: int, e: int)
    requires
        is_place(fig, k, i),
        fig.pattern == Pattern::Kikkou,
        0 <= e < 6,
    ensures
        ({
            let stroke = stroke_of(fig, k, i, e);
            let next = stroke_of(fig, k, i, (e + 1) % 6);
            let p = fig.pitch as int;
            let centre = (
                3 * (i * p),
                3 * fig.h as int,
                2 * (k * p) + if is_odd(i) {
                    p
                } else {
                    0
                },
            );
            &&& stroke is Slant && stroke->Slant_m == 3
            &&& slant_end(stroke) == slant_start(next)
            &&& distance2(slant_start(stroke), centre) == (2 * p) * (2 * p)
            &&& distance2(slant_start(stroke), slant_end(stroke)) == (2 * p) * (2 * p)
        }),
{
    lemma_products(fig, k, i);
    let p = fig.pitch as int;
    let a = shell_corner(p, e);
    let b = shell_corner(p, (e + 1) % 6);
    assert(a.0 * a.0 + 3 * (a.1 * a.1) == (2 * p) * (2 * p) && (b.0 - a.0) * (b.0 - a.0) + 3 * ((b.1
        - a.1) * (b.1 - a.1)) == (2 * p) * (2 * p) && (a.0 - b.0) * (a.0 - b.0) + 3 * ((a.1 - b.1)
        * (a.1 - b.1)) == (2 * p) * (2 * p)) by (nonlinear_arith)
        requires
            a == shell_corner(p, e),
            b == shell_corner(p, (e + 1) % 6),
            0 <= e < 6,
    ;
    let stroke = stroke_of(fig, k, i, e);
    let centre = (
        3 * (i * p),
        3 * fig.h as int,
        2 * (k * p) + if is_odd(i) {
            p
        } else {
            0
        },
    );
    lemma_distance(slant_start(stroke), centre, a.0, 0, a.1);
    lemma_distance(slant_start(stroke), slant_end(stroke), a.0 - b.0, 0, a.1 - b.1);
}

/// A hemp leaf is a regular hexagon with its three long diagonals.
pub proof fn a_leaf_is_a_regular_hexagon(fig: Figure, k: int, i: int, e: int)
    requires
        is_place(fig, k, i),
        fig.pattern == Pattern::Asanoha,
        0 <= e < 6,
    ensures
        ({
            let stroke = stroke_of(fig, k, i, e);
            let next = stroke_of(fig, k, i, (e + 1) % 6);
            let opposite = stroke_of(fig, k, i, (e + 3) % 6);
            let diagonal = stroke_of(fig, k, i, 6 + e % 3);
            let p = fig.pitch as int;
            let centre = (
                6 * (i * p) + if is_odd(k) {
                    3 * p
                } else {
                    0
                },
                3 * fig.h as int,
                3 * (k * p),
            );
            &&& stroke is Slant && stroke->Slant_m == 3 && diagonal is Slant
                && diagonal->Slant_m == 3
            &&& slant_end(stroke) == slant_start(next)
            &&& distance2(slant_start(stroke), centre) == 12 * (p * p)
            &&& distance2(slant_start(stroke), slant_end(stroke)) == 12 * (p * p)
            // The diagonals join opposite corners.
            &&& e < 3 ==> slant_start(diagonal) == slant_start(stroke) && slant_end(diagonal)
                == slant_start(opposite)
        }),
{
    lemma_products(fig, k, i);
    let p = fig.pitch as int;
    let a = leaf_corner(p, e);
    let b = leaf_corner(p, (e + 1) % 6);
    assert(a.0 * a.0 + 3 * (a.1 * a.1) == 12 * (p * p) && (a.0 - b.0) * (a.0 - b.0) + 3 * ((a.1
        - b.1) * (a.1 - b.1)) == 12 * (p * p)) by (nonlinear_arith)
        requires
            a == leaf_corner(p, e),
            b == leaf_corner(p, (e + 1) % 6),
            0 <= e < 6,
    ;
    let stroke = stroke_of(fig, k, i, e);
    let centre = (
        6 * (i * p) + if is_odd(k) {
            3 * p
        } else {
            0
        },
        3 * fig.h as int,
        3 * (k * p),
    );
    lemma_distance(slant_start(stroke), centre, a.0, 0, a.1);
    lemma_distance(slant_start(stroke), slant_end(stroke), a.0 - b.0, 0, a.1 - b.1);
}

/// In each of the six triangles that the diagonals of a hemp leaf cut, three
/// strokes run from the middle to the corners.
pub proof fn a_leaf_has_a_spur_to_every_corner(fig: Figure, k: int, i: int, t: int)
    requires
        is_place(fig, k, i),
        fig.pattern == Pattern::Asanoha,
        0 <= t < 6,
    ensures
        ({
            let a = stroke_of(fig, k, i, 9 + 3 * t);
            let b = stroke_of(fig, k, i, 10 + 3 * t);
            let c = stroke_of(fig, k, i, 11 + 3 * t);
            let middle = slant_start(a);
            let p = fig.pitch as int;
            &&& a is Slant && b is Slant && c is Slant && a->Slant_m == 3 && b->Slant_m == 3
                && c->Slant_m == 3
            &&& slant_start(b) == middle && slant_start(c) == middle
            &&& slant_end(a) == (
                6 * (i * p) + if is_odd(k) {
                    3 * p
                } else {
                    0
                },
                3 * fig.h as int,
                3 * (k * p),
            )
            &&& slant_end(b) == slant_start(stroke_of(fig, k, i, t))
            &&& slant_end(c) == slant_end(stroke_of(fig, k, i, t))
            // The middle is the mean of the corners.
            &&& 3 * middle.0 == slant_end(a).0 + slant_end(b).0 + slant_end(c).0
            &&& 3 * middle.2 == slant_end(a).2 + slant_end(b).2 + slant_end(c).2
        }),
{
    lemma_products(fig, k, i);
    assert((9 + 3 * t - 9) / 3 == t && (9 + 3 * t - 9) % 3 == 0);
    assert((10 + 3 * t - 9) / 3 == t && (10 + 3 * t - 9) % 3 == 1);
    assert((11 + 3 * t - 9) / 3 == t && (11 + 3 * t - 9) % 3 == 2);
}

/// A fawn spot is a square with a speck in its middle: its four strokes close, are
/// level or upright in turn, and are 0.52 of the pitch long.
pub proof fn a_spot_is_a_square_with_a_speck(fig: Figure, k: int, i: int, e: int)
    requires
        is_place(fig, k, i),
        fig.pattern == Pattern::Kanoko,
        0 <= e < 4,
    ensures
        ({
            let stroke = stroke_of(fig, k, i, e);
            let next = stroke_of(fig, k, i, (e + 1) % 4);
            let speck = stroke_of(fig, k, i, 4);
            let far = stroke_of(fig, k, i, (e + 2) % 4);
            let p = fig.pitch as int;
            &&& stroke is Slant && stroke->Slant_m == 25 && speck is Slant
                && speck->Slant_m == 25
            &&& slant_end(stroke) == slant_start(next)
            &&& slant_start(stroke).2 == slant_end(stroke).2
            &&& e % 2 == 0 ==> slant_start(stroke).1 == slant_end(stroke).1
            &&& e % 2 == 1 ==> slant_start(stroke).0 == slant_end(stroke).0
            &&& distance2(slant_start(stroke), slant_end(stroke)) == (26 * p) * (26 * p)
            &&& slant_start(speck) == slant_end(speck)
            // The speck is halfway between opposite corners.
            &&& 2 * slant_start(speck).0 == slant_start(stroke).0 + slant_start(far).0
            &&& 2 * slant_start(speck).1 == slant_start(stroke).1 + slant_start(far).1
            &&& slant_start(speck) == (
                50 * (i * p) + if is_odd(k) {
                    25 * p
                } else {
                    0
                },
                25 * fig.h as int,
                25 * (k * p),
            )
        }),
{
    lemma_products(fig, k, i);
    let p = fig.pitch as int;
    let a = spot_corner(p, e);
    let b = spot_corner(p, (e + 1) % 4);
    assert((a.0 - b.0) * (a.0 - b.0) + (a.1 - b.1) * (a.1 - b.1) == (26 * p) * (26 * p))
        by (nonlinear_arith)
        requires
            a == spot_corner(p, e),
            b == spot_corner(p, (e + 1) % 4),
            0 <= e < 4,
    ;
    let stroke = stroke_of(fig, k, i, e);
    lemma_distance(slant_start(stroke), slant_end(stroke), a.0 - b.0, a.1 - b.1, 0);
}

/// Waves are fans of three half-circles about one centre, at a third, two thirds
/// and the whole of the pitch, that hide what they stand before; rows follow each
/// other at a quarter of the width of a fan, every other one shifted by half of it.
pub proof fn waves_are_fans_of_three_rings(fig: Figure, k: int, i: int, e: int)
    requires
        is_place(fig, k, i),
        fig.pattern == Pattern::Seigaiha,
        0 <= e < 3,
    ensures
        ({
            let ring = stroke_of(fig, k, i, e);
            let fan = fan_of(fig, k, i);
            let below = stroke_of(fig, k + 1, i, e);
            let p = fig.pitch as int;
            &&& ring is Ring && fan is Fan && below is Ring
            &&& ring->Ring_upper
            &&& 9 * ring->Ring_r2 == (e + 1) * (e + 1) * (p * p)
            &&& fan->Fan_cx == ring->Ring_cx && fan->Fan_cy == ring->Ring_cy
            &&& fan->Fan_r2 == p * p
            &&& ring->Ring_cx == 2 * (i * p) + if is_odd(k) {
                p
            } else {
                0
            }
            &&& 2 * (below->Ring_cy - ring->Ring_cy) == p
            &&& below->Ring_cx - ring->Ring_cx == if is_odd(k) {
                -p
            } else {
                p
            }
        }),
{
    lemma_products(fig, k, i);
    let p = fig.pitch as int;
    let t = p / 3;
    let r = (e + 1) * t;
    assert(p == 3 * t);
    assert(9 * (r * r) == (e + 1) * (e + 1) * (p * p)) by (nonlinear_arith)
        requires
            r == (e + 1) * t,
            p == 3 * t,
    ;
    assert(0 <= r <= 576 && 0 <= r * r <= 331_776 && 0 <= p * p <= 331_776) by (nonlinear_arith)
        requires
            r == (e + 1) * t,
            0 <= e <= 2,
            0 <= t <= 192,
            0 <= p <= 576,
    ;
    assert((k + 1) * (p / 2) == k * (p / 2) + p / 2) by (nonlinear_arith);
    assert(-86_400 <= k * (p / 2) <= 86_400) by (nonlinear_arith)
        requires
            -300 <= k <= 300,
            0 <= p / 2 <= 288,
    ;
}

/// The circles of the seven treasures meet: each passes through the points halfway
/// between its centre's neighbours along and across.
pub proof fn treasures_meet(fig: Figure, k: int, i: int)
    requires
        is_place(fig, k, i),
        fig.pattern == Pattern::Shippou,
    ensures
        ({
            let ring = stroke_of(fig, k, i, 0);
            let right = stroke_of(fig, k, i + 1, 0);
            let below = stroke_of(fig, k + 1, i, 0);
            let x = (right->Ring_cx - ring->Ring_cx) / 2;
            let y = (below->Ring_cy - ring->Ring_cy) / 2;
            &&& ring is Ring && right is Ring && below is Ring
            &&& !ring->Ring_upper
            &&& right->Ring_cy == ring->Ring_cy && below->Ring_cx == ring->Ring_cx
            &&& x == fig.pitch && y == fig.pitch
            &&& ring->Ring_r2 == x * x + y * y
        }),
{
    lemma_products(fig, k, i);
    let p = fig.pitch as int;
    assert((i + 1) * p == i * p + p && (k + 1) * p == k * p + p) by (nonlinear_arith);
    assert(0 <= p * p <= 331_776) by (nonlinear_arith)
        requires
            0 <= p <= 576,
    ;
}

/// The checks of a board alternate along a row: one pitch further the colour is
/// the other one.
pub proof fn checks_alternate(fig: Figure, x: int, y: int)
    requires
        fig.wf(),
        fig.pattern == Pattern::Ichimatsu,
    ensures
        check_ink(fig, x + fig.pitch, y) == !check_ink(fig, x, y),
{
    let p = fig.pitch as int;
    vstd::arithmetic::div_mod::lemma_div_plus_one(x, p);
    assert((p + x) / p == x / p + 1);
    assert(x + p == p + x);
}

/// The heights and scales that a band can have.
pub proof fn bands_keep_their_ranges(opts: WagaraOptions)
    ensures
        default_options() == (WagaraOptions { height: 56, scale: 1 }),
        16 <= opts.height <= 400 ==> fitted(opts).height == opts.height,
        opts.height < 16 ==> fitted(opts).height == 16,
        opts.height > 400 ==> fitted(opts).height == 400,
        1 <= opts.scale <= 4 ==> fitted(opts).scale == opts.scale,
        opts.scale < 1 ==> fitted(opts).scale == 1,
        opts.scale > 4 ==> fitted(opts).scale == 4,
{
}

proof fn lemma_colon(key: Seq<char>, rest: Seq<char>)
    requires
        !key.contains(':'),
    ensures
        first_place(key.push(':') + rest, ':') == key.len(),
    decreases key.len(),
{
    let text = key.push(':') + rest;
    if key.len() > 0 {
        let less = key.skip(1);
        assert(key[0] != ':') by {
            assert(key.contains(key[0]));
        }
        if less.contains(':') {
            let k = choose|k: int| 0 <= k < less.len() && less[k] == ':';
            assert(key[k + 1] == ':');
        }
        lemma_colon(less, rest);
        assert(text.skip(1) =~= less.push(':') + rest);
        assert(text[0] == key[0]);
    } else {
        assert(text[0] == ':');
    }
}

/// An option is a line with its name, a colon and a whole number in its range, and
/// changes that option alone; all else is refused.
pub proof fn an_option_changes_what_it_names(
    opts: WagaraOptions,
    key: Seq<char>,
    value: Seq<char>,
)
    requires
        !key.contains(':'),
    ensures
        ({
            let name = small_letters(trimmed(key));
            let number = number_in(trimmed(value));
            let after = option_line(opts, key.push(':') + value);
            &&& name == "height"@ && (number matches Some(n) && 16 <= n <= 400) ==> after == Ok::<
                WagaraOptions,
                Seq<char>,
            >(WagaraOptions { height: number->0 as u32, scale: opts.scale })
            &&& name == "scale"@ && (number matches Some(n) && 1 <= n <= 4) ==> after == Ok::<
                WagaraOptions,
                Seq<char>,
            >(WagaraOptions { height: opts.height, scale: number->0 as u32 })
            &&& name != "height"@ && name != "scale"@ ==> after is Err
            &&& number is None ==> after is Err
            &&& name == "height"@ && (number matches Some(n) && !(16 <= n <= 400)) ==> after is Err
            &&& name == "scale"@ && (number matches Some(n) && !(1 <= n <= 4)) ==> after is Err
        }),
        option_line(opts, Seq::empty()) == Ok::<WagaraOptions, Seq<char>>(opts),
{
    let line = key.push(':') + value;
    lemma_colon(key, value);
    assert(line.take(key.len() as int) =~= key);
    assert(line.skip(key.len() as int + 1) =~= value);
    reveal_strlit("height");
    reveal_strlit("scale");
    assert("height"@.len() == 6 && "scale"@.len() == 5);
}

/// The options of a band are those of its lines, one after the other, from the
/// usual ones on.
pub proof fn options_go_line_by_line(lines: Seq<Seq<char>>, line: Seq<char>)
    ensures
        option_lines(lines.push(line)) == match option_lines(lines) {
            Ok(opts) => option_line(opts, trimmed(line)),
            Err(why) => Err(why),
        },
        option_lines(Seq::<Seq<char>>::empty()) == Ok::<WagaraOptions, Seq<char>>(
            WagaraOptions { height: 56, scale: 1 },
        ),
{
    assert(lines.push(line).drop_last() =~= lines);
}

} // verus!
