//! What is written as Apple Raster is read back: a way of writing pages as a
//! stream, and the proof that decoding undoes it. What comes of streams that are
//! cut off or go on after their last page.

use vstd::prelude::*;
#[allow(unused_imports)]
use crate::raster::urf::{
    be32_at, page_from, pages_from, row_from, rows_from, shade_of, urf_document, urf_magic,
    PageModel, UrfError, END_OF_ROW, MAX_DIMENSION, MAX_PAGES, MAX_PIXELS, PAGE_HEADER_LEN,
};

verus! {

/// A number as four bytes, highest first.
pub open spec fn be32_bytes(n: u32) -> Seq<u8> {
    seq![
        (n / 0x100_0000) as u8,
        (n / 0x1_0000 % 0x100) as u8,
        (n / 0x100 % 0x100) as u8,
        (n % 0x100) as u8,
    ]
}

/// A line that appears once, with every pixel as a repeat of one.
pub open spec fn line_bytes(row: Seq<u8>) -> Seq<u8> {
    Seq::new(
        1 + 2 * row.len(),
        |i: int|
            if i % 2 == 1 || i == 0 {
                0u8
            } else {
                row[i / 2 - 1]
            },
    )
}

/// Some lines, one after the other.
pub open spec fn lines_bytes(rows: Seq<Seq<u8>>) -> Seq<u8>
    decreases rows.len(),
{
    if rows.len() == 0 {
        Seq::empty()
    } else {
        line_bytes(rows[0]) + lines_bytes(rows.skip(1))
    }
}

/// The header of an 8-bit grayscale page.
pub open spec fn header_bytes(page: PageModel) -> Seq<u8> {
    seq![8u8, 0u8, 1u8, 4u8, 0u8, 0u8, 0u8, 0u8, 0u8, 0u8, 0u8, 0u8] + be32_bytes(page.width)
        + be32_bytes(page.height) + be32_bytes(page.dpi) + seq![
        0u8,
        0u8,
        0u8,
        0u8,
        0u8,
        0u8,
        0u8,
        0u8,
    ]
}

/// A page as 8-bit grayscale.
pub open spec fn page_bytes(page: PageModel) -> Seq<u8> {
    header_bytes(page) + lines_bytes(page.rows)
}

/// Some pages, one after the other.
pub open spec fn pages_bytes(pages: Seq<PageModel>) -> Seq<u8>
    decreases pages.len(),
{
    if pages.len() == 0 {
        Seq::empty()
    } else {
        page_bytes(pages[0]) + pages_bytes(pages.skip(1))
    }
}

/// A whole stream.
pub open spec fn stream_bytes(pages: Seq<PageModel>) -> Seq<u8> {
    urf_magic() + be32_bytes(pages.len() as u32) + pages_bytes(pages)
}

/// Whether a page is one that a stream can hold.
pub open spec fn is_page(page: PageModel) -> bool {
    &&& 0 < page.width <= MAX_DIMENSION
    &&& 0 < page.height <= MAX_DIMENSION
    &&& page.width * page.height <= MAX_PIXELS
    &&& page.rows.len() == page.height
    &&& forall|y: int| 0 <= y < page.rows.len() ==> (#[trigger] page.rows[y]).len() == page.width
}

/// Whether `part` stands in `bytes` from position `pos` on.
spec fn stands_at(bytes: Seq<u8>, pos: int, part: Seq<u8>) -> bool {
    &&& 0 <= pos
    &&& pos + part.len() <= bytes.len()
    &&& bytes.subrange(pos, pos + part.len()) == part
}

proof fn lemma_split(bytes: Seq<u8>, pos: int, a: Seq<u8>, b: Seq<u8>)
    requires
        stands_at(bytes, pos, a + b),
    ensures
        stands_at(bytes, pos, a),
        stands_at(bytes, pos + a.len(), b),
{
    let both = bytes.subrange(pos, pos + (a + b).len());
    assert(bytes.subrange(pos, pos + a.len()) =~= both.take(a.len() as int));
    assert(both.take(a.len() as int) =~= a);
    assert(bytes.subrange(pos + a.len(), pos + a.len() + b.len()) =~= both.skip(a.len() as int));
    assert(both.skip(a.len() as int) =~= b);
}

proof fn lemma_four_digits(n: u32)
    ensures
        n / 0x100_0000 < 0x100,
        (n / 0x100_0000) * 0x100_0000 + (n / 0x1_0000 % 0x100) * 0x1_0000 + (n / 0x100 % 0x100)
            * 0x100 + n % 0x100 == n,
{
    assert(n / 0x100_0000 < 0x100 && (n / 0x100_0000) * 0x100_0000 + (n / 0x1_0000 % 0x100)
        * 0x1_0000 + (n / 0x100 % 0x100) * 0x100 + n % 0x100 == n) by (bit_vector);
}

proof fn lemma_be32(bytes: Seq<u8>, pos: int, n: u32)
    requires
        stands_at(bytes, pos, be32_bytes(n)),
    ensures
        be32_at(bytes, pos) == n,
{
    let part = bytes.subrange(pos, pos + 4);
    assert(part[0] == bytes[pos] && part[1] == bytes[pos + 1] && part[2] == bytes[pos + 2]
        && part[3] == bytes[pos + 3]);
    lemma_four_digits(n);
}

proof fn lemma_row(bytes: Seq<u8>, pos: int, row: Seq<u8>, page: u32, y: u32, k: int)
    requires
        stands_at(bytes, pos, line_bytes(row)),
        0 <= k <= row.len(),
    ensures
        row_from(bytes, pos + 1 + 2 * k, row.len() as int, 1, page, y, row.take(k)) == Ok::<
            (Seq<u8>, int),
            UrfError,
        >((row, pos + 1 + 2 * row.len())),
    decreases row.len() - k,
{
    if k == row.len() {
        assert(row.take(k) =~= row);
    } else {
        let line = line_bytes(row);
        let part = bytes.subrange(pos, pos + line.len());
        let at = pos + 1 + 2 * k;
        assert(bytes[at] == part[1 + 2 * k] && part[1 + 2 * k] == line[1 + 2 * k]);
        assert(bytes[at + 1] == part[2 + 2 * k] && part[2 + 2 * k] == line[2 + 2 * k]);
        assert(bytes.subrange(at + 1, at + 2) =~= seq![row[k]]);
        let shade = row[k];
        assert(row.take(k) + Seq::new(1, |i: int| shade) =~= row.take(k + 1));
        lemma_row(bytes, pos, row, page, y, k + 1);
    }
}

proof fn lemma_rows(
    bytes: Seq<u8>,
    pos: int,
    width: int,
    rows: Seq<Seq<u8>>,
    page: u32,
    k: int,
)
    requires
        0 <= k <= rows.len(),
        rows.len() <= MAX_DIMENSION,
        stands_at(bytes, pos, lines_bytes(rows.skip(k))),
        forall|y: int| 0 <= y < rows.len() ==> (#[trigger] rows[y]).len() == width,
    ensures
        rows_from(bytes, pos, width, rows.len() as int, 1, page, rows.take(k)) == Ok::<
            (Seq<Seq<u8>>, int),
            UrfError,
        >((rows, pos + lines_bytes(rows.skip(k)).len())),
    decreases rows.len() - k,
{
    if k == rows.len() {
        assert(rows.take(k) =~= rows);
        assert(lines_bytes(rows.skip(k)).len() == 0);
    } else {
        let left = rows.skip(k);
        let row = rows[k];
        assert(left[0] == row);
        assert(left.skip(1) =~= rows.skip(k + 1));
        lemma_split(bytes, pos, line_bytes(row), lines_bytes(left.skip(1)));
        assert(row.take(0) =~= Seq::empty());
        lemma_row(bytes, pos, row, page, k as u32, 0);
        let line = bytes.subrange(pos, pos + line_bytes(row).len());
        assert(bytes[pos] == line[0] && line[0] == 0);
        assert(rows.take(k) + Seq::new(1, |i: int| row) =~= rows.take(k + 1));
        lemma_rows(bytes, pos + line_bytes(row).len(), width, rows, page, k + 1);
    }
}

proof fn lemma_page(bytes: Seq<u8>, pos: int, page: PageModel, index: u32)
    requires
        is_page(page),
        stands_at(bytes, pos, page_bytes(page)),
    ensures
        page_from(bytes, pos, index) == Ok::<(PageModel, int), UrfError>(
            (page, pos + page_bytes(page).len()),
        ),
{
    let head = header_bytes(page);
    lemma_split(bytes, pos, head, lines_bytes(page.rows));
    let first = seq![8u8, 0u8, 1u8, 4u8, 0u8, 0u8, 0u8, 0u8, 0u8, 0u8, 0u8, 0u8];
    let last = seq![0u8, 0u8, 0u8, 0u8, 0u8, 0u8, 0u8, 0u8];
    let three = first + be32_bytes(page.width) + be32_bytes(page.height);
    lemma_split(bytes, pos, three + be32_bytes(page.dpi), last);
    lemma_split(bytes, pos, three, be32_bytes(page.dpi));
    lemma_split(bytes, pos, first + be32_bytes(page.width), be32_bytes(page.height));
    lemma_split(bytes, pos, first, be32_bytes(page.width));
    lemma_be32(bytes, pos + 12, page.width);
    lemma_be32(bytes, pos + 16, page.height);
    lemma_be32(bytes, pos + 20, page.dpi);
    let part = bytes.subrange(pos, pos + 12);
    assert(bytes[pos] == part[0] && part[0] == 8);
    assert(head.len() == PAGE_HEADER_LEN);
    assert(page.rows.skip(0) =~= page.rows);
    assert(page.rows.take(0) =~= Seq::empty());
    lemma_rows(bytes, pos + PAGE_HEADER_LEN, page.width as int, page.rows, index, 0);
}

proof fn lemma_pages(bytes: Seq<u8>, pos: int, pages: Seq<PageModel>, k: int)
    requires
        0 <= k <= pages.len(),
        pages.len() <= MAX_PAGES,
        stands_at(bytes, pos, pages_bytes(pages.skip(k))),
        forall|i: int| 0 <= i < pages.len() ==> is_page(#[trigger] pages[i]),
    ensures
        pages_from(bytes, pos, k, pages.len() as int) == Ok::<Seq<PageModel>, UrfError>(
            pages.skip(k),
        ),
    decreases pages.len() - k,
{
    if k == pages.len() {
        assert(pages.skip(k) =~= Seq::empty());
    } else {
        let left = pages.skip(k);
        let page = pages[k];
        assert(left[0] == page);
        assert(left.skip(1) =~= pages.skip(k + 1));
        lemma_split(bytes, pos, page_bytes(page), pages_bytes(left.skip(1)));
        lemma_page(bytes, pos, page, k as u32);
        lemma_pages(bytes, pos + page_bytes(page).len(), pages, k + 1);
        assert(seq![page] + pages.skip(k + 1) =~= left);
    }
}

/// What is written is read back: the pages of a document come out of the stream
/// that they were written to, pixel for pixel and in order.
pub proof fn written_pages_are_read_back(pages: Seq<PageModel>)
    requires
        pages.len() <= MAX_PAGES,
        forall|i: int| 0 <= i < pages.len() ==> is_page(#[trigger] pages[i]),
    ensures
        urf_document(stream_bytes(pages)) == Ok::<Seq<PageModel>, UrfError>(pages),
{
    let bytes = stream_bytes(pages);
    lemma_head(pages);
    assert(pages.skip(0) =~= pages);
    lemma_pages(bytes, 12, pages, 0);
}

proof fn lemma_head(pages: Seq<PageModel>)
    requires
        pages.len() <= MAX_PAGES,
    ensures
        stream_bytes(pages).len() >= 12,
        stream_bytes(pages).take(8) == urf_magic(),
        be32_at(stream_bytes(pages), 8) == pages.len(),
        stands_at(stream_bytes(pages), 12, pages_bytes(pages)),
{
    let bytes = stream_bytes(pages);
    let count = be32_bytes(pages.len() as u32);
    assert(bytes.subrange(0, bytes.len() as int) =~= bytes);
    lemma_split(bytes, 0, urf_magic() + count, pages_bytes(pages));
    lemma_split(bytes, 0, urf_magic(), count);
    assert(bytes.take(8) =~= bytes.subrange(0, 8));
    lemma_be32(bytes, 8, pages.len() as u32);
}

/// Whether decoding ended before the bytes did: nothing was missing.
spec fn is_complete<T>(r: Result<T, UrfError>) -> bool {
    !(r is Err && r->Err_0 is Truncated)
}

/// A shorter stream: the first `n` bytes.
spec fn is_cut(short: Seq<u8>, long: Seq<u8>) -> bool {
    short.len() <= long.len() && short == long.take(short.len() as int)
}

proof fn lemma_cut_row(
    short: Seq<u8>,
    long: Seq<u8>,
    pos: int,
    width: int,
    bytes_per_pixel: int,
    page: u32,
    y: u32,
    done: Seq<u8>,
)
    requires
        is_cut(short, long),
        0 <= pos,
        0 < bytes_per_pixel,
        is_complete(row_from(short, pos, width, bytes_per_pixel, page, y, done)),
    ensures
        row_from(long, pos, width, bytes_per_pixel, page, y, done) == row_from(
            short,
            pos,
            width,
            bytes_per_pixel,
            page,
            y,
            done,
        ),
        row_from(short, pos, width, bytes_per_pixel, page, y, done) matches Ok(r) ==> r.1 >= pos,
    decreases width - done.len(),
{
    if done.len() < width {
        let code = short[pos];
        assert(long[pos] == code);
        if code < END_OF_ROW {
            let count = code + 1;
            let after = pos + 1 + bytes_per_pixel;
            if done.len() + count <= width {
                assert(short.subrange(pos + 1, after) =~= long.subrange(pos + 1, after));
                let shade = shade_of(short.subrange(pos + 1, after));
                lemma_cut_row(
                    short,
                    long,
                    after,
                    width,
                    bytes_per_pixel,
                    page,
                    y,
                    done + Seq::new(count as nat, |i: int| shade),
                );
            }
        } else if code > END_OF_ROW {
            let count = 257 - code;
            let after = pos + 1 + count * bytes_per_pixel;
            assert(after > pos) by (nonlinear_arith)
                requires
                    after == pos + 1 + count * bytes_per_pixel,
                    count > 0,
                    bytes_per_pixel > 0,
            ;
            if done.len() + count <= width {
                let here = Seq::new(
                    count as nat,
                    |i: int|
                        shade_of(
                            short.subrange(
                                pos + 1 + i * bytes_per_pixel,
                                pos + 1 + (i + 1) * bytes_per_pixel,
                            ),
                        ),
                );
                let there = Seq::new(
                    count as nat,
                    |i: int|
                        shade_of(
                            long.subrange(
                                pos + 1 + i * bytes_per_pixel,
                                pos + 1 + (i + 1) * bytes_per_pixel,
                            ),
                        ),
                );
                assert forall|i: int| 0 <= i < count implies here[i] == there[i] by {
                    let a = pos + 1 + i * bytes_per_pixel;
                    let b = pos + 1 + (i + 1) * bytes_per_pixel;
                    assert(pos < a <= b <= after) by (nonlinear_arith)
                        requires
                            a == pos + 1 + i * bytes_per_pixel,
                            b == pos + 1 + (i + 1) * bytes_per_pixel,
                            after == pos + 1 + count * bytes_per_pixel,
                            0 <= i,
                            i + 1 <= count,
                            bytes_per_pixel > 0,
                    ;
                    assert(short.subrange(a, b) =~= long.subrange(a, b));
                }
                assert(here =~= there);
                lemma_cut_row(
                    short,
                    long,
                    after,
                    width,
                    bytes_per_pixel,
                    page,
                    y,
                    done + here,
                );
            }
        }
    }
}

proof fn lemma_cut_rows(
    short: Seq<u8>,
    long: Seq<u8>,
    pos: int,
    width: int,
    height: int,
    bytes_per_pixel: int,
    page: u32,
    done: Seq<Seq<u8>>,
)
    requires
        is_cut(short, long),
        0 <= pos,
        0 < bytes_per_pixel,
        is_complete(rows_from(short, pos, width, height, bytes_per_pixel, page, done)),
    ensures
        rows_from(long, pos, width, height, bytes_per_pixel, page, done) == rows_from(
            short,
            pos,
            width,
            height,
            bytes_per_pixel,
            page,
            done,
        ),
        rows_from(short, pos, width, height, bytes_per_pixel, page, done) matches Ok(r) ==> r.1
            >= pos,
    decreases height - done.len(),
{
    if done.len() < height {
        assert(long[pos] == short[pos]);
        lemma_cut_row(
            short,
            long,
            pos + 1,
            width,
            bytes_per_pixel,
            page,
            done.len() as u32,
            Seq::empty(),
        );
        match row_from(
            short,
            pos + 1,
            width,
            bytes_per_pixel,
            page,
            done.len() as u32,
            Seq::empty(),
        ) {
            Err(e) => {},
            Ok((row, after)) => {
                let copies = if short[pos] + 1 <= height - done.len() {
                    short[pos] + 1
                } else {
                    height - done.len()
                };
                lemma_cut_rows(
                    short,
                    long,
                    after,
                    width,
                    height,
                    bytes_per_pixel,
                    page,
                    done + Seq::new(copies as nat, |i: int| row),
                );
            },
        }
    }
}

proof fn lemma_cut_number(short: Seq<u8>, long: Seq<u8>, pos: int)
    requires
        is_cut(short, long),
        0 <= pos,
        pos + 4 <= short.len(),
    ensures
        be32_at(short, pos) == be32_at(long, pos),
{
    assert(short[pos] == long[pos] && short[pos + 1] == long[pos + 1]);
    assert(short[pos + 2] == long[pos + 2] && short[pos + 3] == long[pos + 3]);
}

proof fn lemma_cut_page(short: Seq<u8>, long: Seq<u8>, pos: int, index: u32)
    requires
        is_cut(short, long),
        0 <= pos,
        is_complete(page_from(short, pos, index)),
    ensures
        page_from(long, pos, index) == page_from(short, pos, index),
        page_from(short, pos, index) matches Ok(r) ==> r.1 >= pos,
{
    assert(long[pos] == short[pos]);
    lemma_cut_number(short, long, pos + 12);
    lemma_cut_number(short, long, pos + 16);
    lemma_cut_number(short, long, pos + 20);
    let bpp = short[pos];
    let width = be32_at(short, pos + 12);
    let height = be32_at(short, pos + 16);
    if (bpp == 8 || bpp == 24) && width > 0 && height > 0 && width <= MAX_DIMENSION && height
        <= MAX_DIMENSION && width * height <= MAX_PIXELS {
        lemma_cut_rows(
            short,
            long,
            pos + PAGE_HEADER_LEN,
            width as int,
            height as int,
            (bpp / 8) as int,
            index,
            Seq::empty(),
        );
    }
}

proof fn lemma_cut_pages(short: Seq<u8>, long: Seq<u8>, pos: int, index: int, count: int)
    requires
        is_cut(short, long),
        0 <= pos,
        is_complete(pages_from(short, pos, index, count)),
    ensures
        pages_from(long, pos, index, count) == pages_from(short, pos, index, count),
    decreases count - index,
{
    if index < count {
        lemma_cut_page(short, long, pos, index as u32);
        match page_from(short, pos, index as u32) {
            Err(e) => {},
            Ok((page, after)) => {
                lemma_cut_pages(short, long, after, index + 1, count);
            },
        }
    }
}

/// A stream that is cut off anywhere either is reported as truncated or decodes
/// as the whole does, error or pages.
pub proof fn a_cut_stream_is_truncated_or_the_same(bytes: Seq<u8>, n: int)
    requires
        0 <= n <= bytes.len(),
    ensures
        (urf_document(bytes.take(n)) matches Err(e) && e is Truncated) || urf_document(
            bytes.take(n),
        ) == urf_document(bytes),
{
    let short = bytes.take(n);
    if n >= 8 {
        assert(short.take(8) =~= bytes.take(8));
        if n >= 12 {
            lemma_cut_number(short, bytes, 8);
            let count = be32_at(bytes, 8);
            if count <= MAX_PAGES && is_complete(pages_from(short, 12, 0, count as int)) {
                lemma_cut_pages(short, bytes, 12, 0, count as int);
            }
        }
    }
}

/// Bytes after the last page change nothing.
pub proof fn trailing_bytes_change_nothing(bytes: Seq<u8>, more: Seq<u8>)
    requires
        urf_document(bytes) is Ok,
    ensures
        urf_document(bytes + more) == urf_document(bytes),
{
    assert((bytes + more).take(bytes.len() as int) =~= bytes);
    a_cut_stream_is_truncated_or_the_same(bytes + more, bytes.len() as int);
}

/// The shade of a pixel of one byte or three from position `pos` on: the byte
/// itself, or the luma of red, green and blue.
pub open spec fn shade_at(bytes: Seq<u8>, pos: int, bytes_per_pixel: int) -> int {
    if bytes_per_pixel == 1 {
        bytes[pos] as int
    } else {
        (299 * bytes[pos] + 587 * bytes[pos + 1] + 114 * bytes[pos + 2]) / 1000
    }
}

proof fn lemma_shade_at(bytes: Seq<u8>, pos: int, bpp: int)
    requires
        bpp == 1 || bpp == 3,
        0 <= pos,
        pos + bpp <= bytes.len(),
    ensures
        shade_of(bytes.subrange(pos, pos + bpp)) == shade_at(bytes, pos, bpp),
{
    let px = bytes.subrange(pos, pos + bpp);
    assert(px[0] == bytes[pos]);
    if bpp == 3 {
        assert(px[1] == bytes[pos + 1] && px[2] == bytes[pos + 2]);
        assert(0 <= (299 * px[0] + 587 * px[1] + 114 * px[2]) / 1000 <= 255);
    }
}

/// A code byte below 128 stands for one more than as many pixels, all with the
/// shade of the pixel behind it.
pub proof fn a_repeat_run_gives_equal_pixels(
    bytes: Seq<u8>,
    pos: int,
    width: int,
    bytes_per_pixel: int,
    page: u32,
    y: u32,
    done: Seq<u8>,
    run: Seq<u8>,
)
    requires
        bytes_per_pixel == 1 || bytes_per_pixel == 3,
        0 <= pos,
        pos + 1 + bytes_per_pixel <= bytes.len(),
        bytes[pos] <= 127,
        run.len() == bytes[pos] + 1,
        done.len() + run.len() <= width,
        forall|i: int|
            0 <= i < run.len() ==> #[trigger] run[i] == shade_at(bytes, pos + 1, bytes_per_pixel),
    ensures
        row_from(bytes, pos, width, bytes_per_pixel, page, y, done) == row_from(
            bytes,
            pos + 1 + bytes_per_pixel,
            width,
            bytes_per_pixel,
            page,
            y,
            done + run,
        ),
{
    lemma_shade_at(bytes, pos + 1, bytes_per_pixel);
    let shade = shade_of(bytes.subrange(pos + 1, pos + 1 + bytes_per_pixel));
    assert(run =~= Seq::new(run.len(), |i: int| shade));
}

/// A code byte above 128 stands for 257 less that many pixels, which are those
/// behind it, in order.
pub proof fn a_literal_run_gives_its_pixels(
    bytes: Seq<u8>,
    pos: int,
    width: int,
    bytes_per_pixel: int,
    page: u32,
    y: u32,
    done: Seq<u8>,
    run: Seq<u8>,
)
    requires
        bytes_per_pixel == 1 || bytes_per_pixel == 3,
        0 <= pos < bytes.len(),
        bytes[pos] >= 129,
        run.len() + bytes[pos] == 257,
        pos + 1 + run.len() * bytes_per_pixel <= bytes.len(),
        done.len() + run.len() <= width,
        forall|i: int|
            0 <= i < run.len() ==> #[trigger] run[i] == shade_at(
                bytes,
                pos + 1 + i * bytes_per_pixel,
                bytes_per_pixel,
            ),
    ensures
        row_from(bytes, pos, width, bytes_per_pixel, page, y, done) == row_from(
            bytes,
            pos + 1 + run.len() * bytes_per_pixel,
            width,
            bytes_per_pixel,
            page,
            y,
            done + run,
        ),
{
    let bpp = bytes_per_pixel;
    let read = Seq::new(
        run.len(),
        |i: int| shade_of(bytes.subrange(pos + 1 + i * bpp, pos + 1 + (i + 1) * bpp)),
    );
    assert forall|i: int| 0 <= i < run.len() implies #[trigger] read[i] == run[i] by {
        assert((i + 1) * bpp == i * bpp + bpp && 0 <= i * bpp && (i + 1) * bpp <= run.len() * bpp)
            by (nonlinear_arith)
            requires
                0 <= i,
                i + 1 <= run.len(),
                bpp >= 1,
        ;
        lemma_shade_at(bytes, pos + 1 + i * bpp, bpp);
        assert(run[i] == shade_at(bytes, pos + 1 + i * bpp, bpp));
    }
    assert(read =~= run);
}

/// A line is complete when all its pixels are there, and one more byte of 128 ends
/// it before, with white for the rest.
pub proof fn a_line_ends_when_it_is_full(
    bytes: Seq<u8>,
    pos: int,
    width: int,
    bytes_per_pixel: int,
    page: u32,
    y: u32,
    done: Seq<u8>,
    rest: Seq<u8>,
)
    requires
        done.len() + rest.len() == width,
        forall|i: int| 0 <= i < rest.len() ==> #[trigger] rest[i] == 255,
        rest.len() > 0 ==> 0 <= pos < bytes.len() && bytes[pos] == 128,
    ensures
        row_from(bytes, pos, width, bytes_per_pixel, page, y, done) == Ok::<_, UrfError>(
            (
                done + rest,
                if rest.len() == 0 {
                    pos
                } else {
                    pos + 1
                },
            ),
        ),
{
    if rest.len() == 0 {
        assert(done + rest =~= done);
    } else {
        assert(rest =~= Seq::new((width - done.len()) as nat, |i: int| 255u8));
    }
}

/// A line appears once more than the byte before it says, as far as the page goes.
pub proof fn a_line_appears_as_often_as_it_says(
    bytes: Seq<u8>,
    pos: int,
    width: int,
    height: int,
    bytes_per_pixel: int,
    page: u32,
    done: Seq<Seq<u8>>,
    row: Seq<u8>,
    after: int,
    copies: Seq<Seq<u8>>,
)
    requires
        0 <= pos < bytes.len(),
        done.len() < height <= 30_000,
        row_from(
            bytes,
            pos + 1,
            width,
            bytes_per_pixel,
            page,
            done.len() as u32,
            Seq::empty(),
        ) == Ok::<_, UrfError>((row, after)),
        done.len() + copies.len() <= height,
        copies.len() == bytes[pos] + 1 || (copies.len() <= bytes[pos] && done.len() + copies.len()
            == height),
        forall|i: int| 0 <= i < copies.len() ==> #[trigger] copies[i] == row,
    ensures
        rows_from(bytes, pos, width, height, bytes_per_pixel, page, done) == rows_from(
            bytes,
            after,
            width,
            height,
            bytes_per_pixel,
            page,
            done + copies,
        ),
{
    assert(copies =~= Seq::new(copies.len(), |i: int| row));
}

/// Which pages are refused before a line of them is read: depths other than 8 and
/// 24 bits, sides of no pixels or more than 30,000, and more than 134,217,728 pixels
/// in all. A page that is decoded has the size and resolution that stand in its
/// header, the width at byte 12, the height at byte 16 and the resolution at 20,
/// highest byte first.
pub proof fn pages_say_what_they_are(bytes: Seq<u8>, pos: int, index: u32)
    requires
        0 <= pos,
        pos + 32 <= bytes.len(),
    ensures
        ({
            let number = |at: int|
                16_777_216 * bytes[pos + at] + 65_536 * bytes[pos + at + 1] + 256 * bytes[pos + at
                    + 2] + bytes[pos + at + 3];
            let width = number(12);
            let height = number(16);
            let r = page_from(bytes, pos, index);
            &&& bytes[pos] != 8 && bytes[pos] != 24 ==> r is Err && r->Err_0
                is UnsupportedDepth
            &&& bytes[pos] == 8 || bytes[pos] == 24 ==> {
                &&& width == 0 || height == 0 <==> (r is Err && r->Err_0 is EmptyPage)
                &&& width > 0 && height > 0 && (width > 30_000 || height > 30_000 || width * height
                    > 134_217_728) <==> (r is Err && r->Err_0 is PageTooLarge)
            }
            &&& r is Ok ==> r->Ok_0.0.width == width && r->Ok_0.0.height == height
                && r->Ok_0.0.dpi == number(20)
        }),
{
    let width = be32_at(bytes, pos + 12);
    let height = be32_at(bytes, pos + 16);
    let bpp = bytes[pos];
    lemma_rows_faults(
        bytes,
        pos + 32,
        width as int,
        height as int,
        (bpp / 8) as int,
        index,
        Seq::empty(),
    );
}

/// Lines are refused for what is missing or too much in them alone.
proof fn lemma_rows_faults(
    bytes: Seq<u8>,
    pos: int,
    width: int,
    height: int,
    bpp: int,
    page: u32,
    done: Seq<Seq<u8>>,
)
    ensures
        rows_from(bytes, pos, width, height, bpp, page, done) matches Err(e) ==> e is Truncated
            || e is RowOverrun,
    decreases height - done.len(),
{
    if done.len() < height && pos + 1 <= bytes.len() {
        lemma_row_faults(
            bytes,
            pos + 1,
            width,
            bpp,
            page,
            done.len() as u32,
            Seq::empty(),
        );
        match row_from(bytes, pos + 1, width, bpp, page, done.len() as u32, Seq::empty()) {
            Err(_) => {},
            Ok((row, after)) => {
                let copies = if bytes[pos] + 1 <= height - done.len() {
                    bytes[pos] + 1
                } else {
                    height - done.len()
                };
                lemma_rows_faults(
                    bytes,
                    after,
                    width,
                    height,
                    bpp,
                    page,
                    done + Seq::new(copies as nat, |i: int| row),
                );
            },
        }
    }
}

proof fn lemma_row_faults(
    bytes: Seq<u8>,
    pos: int,
    width: int,
    bpp: int,
    page: u32,
    y: u32,
    done: Seq<u8>,
)
    ensures
        row_from(bytes, pos, width, bpp, page, y, done) matches Err(e) ==> e is Truncated
            || e is RowOverrun,
    decreases width - done.len(),
{
    if done.len() < width && pos + 1 <= bytes.len() {
        let code = bytes[pos];
        if code < END_OF_ROW && done.len() + code + 1 <= width {
            let count = code + 1;
            let after = pos + 1 + bpp;
            let shade = shade_of(bytes.subrange(pos + 1, after));
            lemma_row_faults(
                bytes,
                after,
                width,
                bpp,
                page,
                y,
                done + Seq::new(count as nat, |i: int| shade),
            );
        } else if code > END_OF_ROW && done.len() + 257 - code <= width {
            let count = 257 - code;
            let after = pos + 1 + count * bpp;
            lemma_row_faults(
                bytes,
                after,
                width,
                bpp,
                page,
                y,
                done + Seq::new(
                    count as nat,
                    |i: int| shade_of(bytes.subrange(pos + 1 + i * bpp, pos + 1 + (i + 1) * bpp)),
                ),
            );
        }
    }
}

/// A stream begins with `UNIRAST`, a zero and the number of pages, at most 1,000.
pub proof fn streams_say_what_they_are(bytes: Seq<u8>)
    ensures
        ({
            let magic = bytes.len() >= 8 && bytes[0] == 'U' as u8 && bytes[1] == 'N' as u8
                && bytes[2] == 'I' as u8 && bytes[3] == 'R' as u8 && bytes[4] == 'A' as u8
                && bytes[5] == 'S' as u8 && bytes[6] == 'T' as u8 && bytes[7] == 0;
            let pages = 16_777_216 * bytes[8] + 65_536 * bytes[9] + 256 * bytes[10] + bytes[11];
            let r = urf_document(bytes);
            &&& !magic ==> r is Err
            &&& bytes.len() >= 8 && !magic ==> ((r is Err && r->Err_0 is PwgRaster) == (bytes[0]
                == 'R' as u8 && bytes[1] == 'a' as u8 && bytes[2] == 'S' as u8))
            &&& magic && bytes.len() >= 12 && pages > 1_000 ==> r is Err && r->Err_0
                is TooManyPages
            &&& r is Ok ==> magic && bytes.len() >= 12 && pages <= 1_000
        }),
{
    if bytes.len() >= 8 {
        let head = bytes.take(8);
        assert(head == urf_magic() ==> head[0] == 0x55 && head[1] == 0x4E && head[2] == 0x49
            && head[3] == 0x52 && head[4] == 0x41 && head[5] == 0x53 && head[6] == 0x54 && head[7]
            == 0);
        if head[0] == 0x55 && head[1] == 0x4E && head[2] == 0x49 && head[3] == 0x52 && head[4]
            == 0x41 && head[5] == 0x53 && head[6] == 0x54 && head[7] == 0 {
            assert(head =~= urf_magic());
        }
    }
}

} // verus!
