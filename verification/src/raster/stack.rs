//! Putting bitmaps one below the other.

use crate::raster::bitmap::{Bitmap, BYTES_PER_ROW};
use vstd::prelude::*;
#[allow(unused_imports)]
use crate::protocol::packets::zeros;
#[allow(unused_imports)]
use crate::raster::bitmap::blank_rows;

verus! {

/// The rows of several bitmaps one below the other, with `gap` blank rows
/// between neighbours.
pub open spec fn stacked(parts: Seq<Seq<Seq<u8>>>, gap: nat) -> Seq<Seq<u8>>
    decreases parts.len(),
{
    if parts.len() == 0 {
        Seq::empty()
    } else if parts.len() == 1 {
        parts[0]
    } else {
        stacked(parts.drop_last(), gap) + blank_rows(gap) + parts.last()
    }
}

/// The rows of each bitmap of a list.
pub open spec fn rows_of(bitmaps: Seq<Bitmap>) -> Seq<Seq<Seq<u8>>> {
    Seq::new(bitmaps.len(), |i: int| bitmaps[i]@)
}

/// The rows above part `i`, gaps included.
pub open spec fn top_of(parts: Seq<Seq<Seq<u8>>>, gap: nat, i: int) -> int
    decreases i,
{
    if i <= 0 {
        0
    } else {
        top_of(parts, gap, i - 1) + parts[i - 1].len() + gap
    }
}

/// Appends the rows of `part`.
pub(crate) fn append_rows(out: &mut Bitmap, part: &Bitmap)
    ensures
        final(out)@ == old(out)@ + part@,
{
    let mut y: usize = 0;
    while y < part.height()
        invariant
            y <= part@.len(),
            out@ == old(out)@ + part@.take(y as int),
        decreases part@.len() - y,
    {
        let ghost before = out@;
        out.push_row(part.row(y));
        y = y + 1;
        proof {
            assert(part@.take(y as int) =~= part@.take(y - 1).push(part@[y - 1]));
            assert(out@ =~= old(out)@ + part@.take(y as int));
        }
    }
    assert(part@.take(y as int) =~= part@);
}

/// Appends `n` blank rows.
pub(crate) fn append_blank(out: &mut Bitmap, n: usize)
    ensures
        final(out)@ == old(out)@ + blank_rows(n as nat),
{
    let line: [u8; BYTES_PER_ROW] = [0u8; BYTES_PER_ROW];
    assert(line@ =~= zeros(BYTES_PER_ROW as nat));
    let mut i: usize = 0;
    while i < n
        invariant
            i <= n,
            line@ == zeros(BYTES_PER_ROW as nat),
            out@ == old(out)@ + blank_rows(i as nat),
        decreases n - i,
    {
        out.push_row(&line);
        i = i + 1;
        assert(out@ =~= old(out)@ + blank_rows(i as nat));
    }
}

/// Stack bitmaps vertically with `gap` blank rows between them.
pub fn stack_with_gap(bitmaps: &Vec<Bitmap>, gap: usize) -> (out: Bitmap)
    ensures
        out@ == stacked(rows_of(bitmaps@), gap as nat),
{
    let mut out: Bitmap = Bitmap::new(0);
    assert(out@ =~= stacked(rows_of(bitmaps@.take(0)), gap as nat));
    let mut i: usize = 0;
    while i < bitmaps.len()
        invariant
            i <= bitmaps@.len(),
            out@ == stacked(rows_of(bitmaps@.take(i as int)), gap as nat),
        decreases bitmaps@.len() - i,
    {
        let ghost done = rows_of(bitmaps@.take(i as int));
        let ghost next = rows_of(bitmaps@.take(i + 1));
        proof {
            assert(next.drop_last() =~= done);
        }
        if i > 0 {
            append_blank(&mut out, gap);
        }
        append_rows(&mut out, &bitmaps[i]);
        i = i + 1;
        proof {
            if i == 1 {
                assert(out@ =~= next[0]);
            } else {
                assert(out@ =~= stacked(done, gap as nat) + blank_rows(gap as nat) + next.last());
            }
        }
    }
    assert(bitmaps@.take(i as int) =~= bitmaps@);
    out
}

/// Stack bitmaps vertically into one bitmap.
pub fn stack(bitmaps: Vec<Bitmap>) -> (out: Bitmap)
    ensures
        out@ == stacked(rows_of(bitmaps@), 0),
{
    stack_with_gap(&bitmaps, 0)
}

/// Stacking loses nothing and invents nothing: the stack is as tall as its
/// parts and the gaps together, and row `y` of part `i` stands below the parts
/// before it.
pub proof fn stacking_keeps_every_row(parts: Seq<Seq<Seq<u8>>>, gap: nat, i: int, y: int)
    requires
        0 <= i < parts.len(),
        0 <= y < parts[i].len(),
    ensures
        stacked(parts, gap).len() == top_of(parts, gap, parts.len() as int) - gap,
        0 <= top_of(parts, gap, i) + y < stacked(parts, gap).len(),
        stacked(parts, gap)[top_of(parts, gap, i) + y] == parts[i][y],
    decreases parts.len(),
{
    lemma_stack_height(parts, gap);
    lemma_top_grows(parts, gap, i, parts.len() as int);
    if parts.len() > 1 {
        let shorter = parts.drop_last();
        lemma_stack_height(shorter, gap);
        lemma_top_prefix(parts, gap, parts.len() - 1);
        if i < parts.len() - 1 {
            stacking_keeps_every_row(shorter, gap, i, y);
            lemma_top_prefix(parts, gap, i);
        }
    }
}

proof fn lemma_top_prefix(parts: Seq<Seq<Seq<u8>>>, gap: nat, i: int)
    requires
        0 <= i < parts.len(),
    ensures
        top_of(parts.drop_last(), gap, i) == top_of(parts, gap, i),
    decreases i,
{
    if i > 0 {
        lemma_top_prefix(parts, gap, i - 1);
    }
}

proof fn lemma_top_grows(parts: Seq<Seq<Seq<u8>>>, gap: nat, i: int, j: int)
    requires
        0 <= i < j <= parts.len(),
    ensures
        0 <= top_of(parts, gap, i),
        top_of(parts, gap, i) + parts[i].len() + gap <= top_of(parts, gap, j),
    decreases j,
{
    if i > 0 {
        lemma_top_grows(parts, gap, i - 1, i);
    }
    if j > i + 1 {
        lemma_top_grows(parts, gap, i, j - 1);
    }
}

proof fn lemma_stack_height(parts: Seq<Seq<Seq<u8>>>, gap: nat)
    requires
        parts.len() > 0,
    ensures
        stacked(parts, gap).len() == top_of(parts, gap, parts.len() as int) - gap,
    decreases parts.len(),
{
    if parts.len() > 1 {
        lemma_stack_height(parts.drop_last(), gap);
        lemma_top_prefix(parts, gap, parts.len() - 1);
    } else {
        reveal_with_fuel(top_of, 2);
    }
}

} // verus!
