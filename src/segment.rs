use vstd::prelude::*;
use crate::chunk::{Chunk, Rect};
use crate::image::{GrayImage, Raster};

verus! {

/// A pixel at or above this luminance counts as white.
pub const WHITE_LEVEL: u8 = 250;

/// How many white rows make a separator between chunks.
pub const WHITE_STRIP_THRESHOLD: usize = 5;

/// A chunk must be strictly taller than this to be kept.
pub const MIN_CHUNK_HEIGHT: usize = WHITE_STRIP_THRESHOLD + 1;

/// Row `y` is white: every pixel in it is at least `WHITE_LEVEL`.
pub open spec fn row_is_white(img: Raster, y: int) -> bool {
    forall|x: int| 0 <= x < img.width ==> #[trigger] img.pixel(x, y) >= WHITE_LEVEL
}

/// For each row, top to bottom, whether it is white.
pub open spec fn white_rows(img: Raster) -> Seq<bool> {
    Seq::new(img.height, |y: int| row_is_white(img, y))
}

/// The first row at or below `s` that is white, or the end of the page.
pub open spec fn run_end(white: Seq<bool>, s: int) -> int
    decreases white.len() - s,
{
    if s >= white.len() || white[s] {
        s
    } else {
        run_end(white, s + 1)
    }
}

/// Row `y` is the top of a maximal run of non-white rows.
pub open spec fn starts_run(white: Seq<bool>, y: int) -> bool {
    0 <= y < white.len() && !white[y] && (y == 0 || white[y - 1])
}

/// The maximal runs of non-white rows that start at row `y` or below and are
/// taller than `MIN_CHUNK_HEIGHT`, top to bottom, as `(top, height)`.
pub open spec fn spans_from(white: Seq<bool>, y: int) -> Seq<(int, int)>
    decreases white.len() - y,
{
    if y >= white.len() {
        Seq::empty()
    } else if starts_run(white, y) && run_end(white, y) - y > MIN_CHUNK_HEIGHT {
        seq![(y, run_end(white, y) - y)] + spans_from(white, y + 1)
    } else {
        spans_from(white, y + 1)
    }
}

/// The chunk that covers a span across the whole page width.
pub open spec fn span_chunk(span: (int, int), width: nat, page: usize) -> Chunk {
    Chunk {
        rect: Rect { x: 0, y: span.0 as usize, width: width as usize, height: span.1 as usize },
        texture_index: page,
    }
}

/// The chunks of a list of spans, in order.
pub open spec fn spans_to_chunks(spans: Seq<(int, int)>, width: nat, page: usize) -> Seq<Chunk> {
    spans.map_values(|s: (int, int)| span_chunk(s, width, page))
}

/// The spans the segmenter keeps for a page.
pub open spec fn page_spans(img: Raster) -> Seq<(int, int)> {
    spans_from(white_rows(img), 0)
}

/// The chunks of a page, as produced for page index `page`.
pub open spec fn page_chunks(img: Raster, page: usize) -> Seq<Chunk> {
    spans_to_chunks(page_spans(img), img.width, page)
}

proof fn lemma_run_end_bounds(white: Seq<bool>, s: int)
    requires
        0 <= s <= white.len(),
    ensures
        s <= run_end(white, s) <= white.len(),
        run_end(white, s) < white.len() ==> white[run_end(white, s)],
        forall|k: int| s <= k < run_end(white, s) ==> !#[trigger] white[k],
    decreases white.len() - s,
{
    if s < white.len() && !white[s] {
        lemma_run_end_bounds(white, s + 1);
    }
}

/// Walking through non-white rows does not change where the run ends.
proof fn lemma_run_end_through(white: Seq<bool>, s: int, y: int)
    requires
        0 <= s <= y <= white.len(),
        forall|k: int| s <= k < y ==> !#[trigger] white[k],
    ensures
        run_end(white, s) == run_end(white, y),
    decreases y - s,
{
    if s < y {
        lemma_run_end_through(white, s + 1, y);
    }
}

/// No run starts inside a stretch of non-white rows.
proof fn lemma_no_start_inside(white: Seq<bool>, a: int, y: int)
    requires
        1 <= a <= y <= white.len(),
        forall|k: int| a - 1 <= k < y ==> !#[trigger] white[k],
    ensures
        spans_from(white, a) == spans_from(white, y),
    decreases y - a,
{
    if a < y {
        assert(!white[a - 1]);
        lemma_no_start_inside(white, a + 1, y);
    }
}

/// Appending a white row below the page changes no run.
proof fn lemma_sentinel_run_end(rows: Seq<bool>, s: int)
    requires
        0 <= s <= rows.len(),
    ensures
        run_end(rows.push(true), s) == run_end(rows, s),
    decreases rows.len() - s,
{
    if s < rows.len() && !rows[s] {
        lemma_sentinel_run_end(rows, s + 1);
    }
}

proof fn lemma_sentinel_spans(rows: Seq<bool>, y: int)
    requires
        0 <= y,
    ensures
        spans_from(rows.push(true), y) == spans_from(rows, y),
    decreases rows.len() + 1 - y,
{
    let m = rows.push(true);
    if y < rows.len() {
        lemma_sentinel_run_end(rows, y);
        lemma_sentinel_spans(rows, y + 1);
        assert(starts_run(m, y) == starts_run(rows, y));
    } else if y == rows.len() {
        assert(!starts_run(m, y));
        assert(spans_from(m, y + 1) == Seq::<(int, int)>::empty());
    }
}

/// Whether row `y` of `image` is white.
fn is_white_row(image: &GrayImage, y: usize) -> (r: bool)
    requires
        y < image@.height,
    ensures
        r == row_is_white(image@, y as int),
{
    let w = image.width();
    let mut x: usize = 0;
    while x < w
        invariant
            w == image@.width,
            y < image@.height,
            x <= w,
            forall|i: int| 0 <= i < x ==> #[trigger] image@.pixel(i, y as int) >= WHITE_LEVEL,
        decreases w - x,
    {
        if image.luma_at(x, y) < WHITE_LEVEL {
            return false;
        }
        x += 1;
    }
    true
}

/// For each row of `image`, top to bottom, whether it is white.
pub fn white_strip_map(image: &GrayImage) -> (r: Vec<bool>)
    ensures
        r@ == white_rows(image@),
{
    let h = image.height();
    let mut map: Vec<bool> = Vec::new();
    let mut y: usize = 0;
    while y < h
        invariant
            h == image@.height,
            y <= h,
            map@.len() == y,
            forall|i: int| 0 <= i < y ==> map@[i] == row_is_white(image@, i),
        decreases h - y,
    {
        let white = is_white_row(image, y);
        map.push(white);
        y += 1;
    }
    assert(map@ =~= white_rows(image@));
    map
}

/// Splits a page into chunks at its white bands: each maximal run of
/// non-white rows taller than `MIN_CHUNK_HEIGHT` becomes one chunk spanning
/// the page's width, top to bottom, with texture index 0.
pub fn get_chunks_from_image(image: &GrayImage) -> (r: Vec<Chunk>)
    ensures
        r@ == page_chunks(image@, 0),
{
    let w = image.width();
    let mut map = white_strip_map(image);
    let ghost rows = map@;
    // A white row past the bottom closes the last run.
    map.push(true);
    let ghost m = map@;
    let mut chunks: Vec<Chunk> = Vec::new();
    let ghost mut spans: Seq<(int, int)> = Seq::empty();
    let mut last = map[0];
    let mut last_chunk_start: usize = 0;
    let mut y: usize = 1;
    proof {
        if !last {
            assert(starts_run(m, 0));
        } else if rows.len() > 0 {
            assert(!starts_run(m, 0));
        }
    }
    while y < map.len()
        invariant
            map@ == m,
            m == rows.push(true),
            w == image@.width,
            1 <= y <= m.len(),
            last == m[y - 1],
            chunks@ == spans_to_chunks(spans, w as nat, 0),
            last ==> spans + spans_from(m, y as int) == spans_from(m, 0),
            !last ==> {
                &&& last_chunk_start < y
                &&& starts_run(m, last_chunk_start as int)
                &&& forall|k: int| last_chunk_start <= k < y ==> !#[trigger] m[k]
                &&& spans + spans_from(m, last_chunk_start as int) == spans_from(m, 0)
            },
        decreases m.len() - y,
    {
        let cur = map[y];
        if last != cur {
            if cur {
                let s = last_chunk_start;
                let height = y - s;
                proof {
                    lemma_run_end_through(m, s as int, y as int);
                    lemma_no_start_inside(m, s + 1, y as int);
                    assert(run_end(m, y as int) == y);
                    assert(!starts_run(m, y as int));
                }
                if height > MIN_CHUNK_HEIGHT {
                    let c = Chunk { rect: Rect { x: 0, y: s, width: w, height }, texture_index: 0 };
                    chunks.push(c);
                    proof {
                        let sp = (s as int, height as int);
                        assert(spans_to_chunks(spans.push(sp), w as nat, 0) =~= spans_to_chunks(
                            spans,
                            w as nat,
                            0,
                        ).push(span_chunk(sp, w as nat, 0)));
                        assert(spans.push(sp) + spans_from(m, y as int) =~= spans + (seq![sp]
                            + spans_from(m, (s + 1) as int)));
                        spans = spans.push(sp);
                    }
                }
                last_chunk_start = y + 1;
            } else {
                last_chunk_start = y;
            }
        } else if !cur {
            assert(!m[y as int]);
        }
        last = cur;
        y += 1;
    }
    proof {
        lemma_sentinel_spans(rows, 0);
        assert(spans + spans_from(m, m.len() as int) =~= spans);
    }
    chunks
}

/// The top of the run of non-white rows that holds row `y`.
pub open spec fn run_start(white: Seq<bool>, y: int) -> int
    decreases y,
{
    if y <= 0 || white[y - 1] {
        y
    } else {
        run_start(white, y - 1)
    }
}

/// Row `y` lies inside chunk `c`.
pub open spec fn in_chunk(c: Chunk, y: int) -> bool {
    c.rect.y <= y < c.rect.y + c.rect.height
}

proof fn lemma_run_start(white: Seq<bool>, y: int)
    requires
        0 <= y < white.len(),
        !white[y],
    ensures
        0 <= run_start(white, y) <= y,
        starts_run(white, run_start(white, y)),
        forall|k: int| run_start(white, y) <= k <= y ==> !#[trigger] white[k],
    decreases y,
{
    if y > 0 && !white[y - 1] {
        lemma_run_start(white, y - 1);
    }
}

/// What holds of every span the segmenter keeps at or below row `y`.
proof fn lemma_spans_facts(white: Seq<bool>, y: int)
    requires
        0 <= y,
    ensures
        forall|i: int|
            0 <= i < spans_from(white, y).len() ==> {
                let sp = #[trigger] spans_from(white, y)[i];
                &&& y <= sp.0
                &&& starts_run(white, sp.0)
                &&& sp.1 > MIN_CHUNK_HEIGHT
                &&& sp.0 + sp.1 == run_end(white, sp.0)
                &&& sp.0 + sp.1 <= white.len()
            },
        forall|i: int, j: int|
            0 <= i < j < spans_from(white, y).len() ==> #[trigger] spans_from(white, y)[i].0
                + spans_from(white, y)[i].1 < #[trigger] spans_from(white, y)[j].0,
    decreases white.len() - y,
{
    if y < white.len() {
        lemma_spans_facts(white, y + 1);
        if starts_run(white, y) && run_end(white, y) - y > MIN_CHUNK_HEIGHT {
            lemma_run_end_bounds(white, y);
            let e = run_end(white, y);
            let tail = spans_from(white, y + 1);
            let all = spans_from(white, y);
            assert(all == seq![(y, e - y)] + tail);
            assert forall|j: int| 0 <= j < tail.len() implies e < #[trigger] tail[j].0 by {
                let t = tail[j].0;
                assert(starts_run(white, t));
                if t <= e {
                    assert(!white[t - 1]);
                }
            }
            assert forall|i: int| 0 <= i < all.len() implies {
                let sp = #[trigger] all[i];
                &&& y <= sp.0
                &&& starts_run(white, sp.0)
                &&& sp.1 > MIN_CHUNK_HEIGHT
                &&& sp.0 + sp.1 == run_end(white, sp.0)
                &&& sp.0 + sp.1 <= white.len()
            } by {
                if i > 0 {
                    assert(all[i] == tail[i - 1]);
                }
            }
            assert forall|i: int, j: int| 0 <= i < j < all.len() implies #[trigger] all[i].0
                + all[i].1 < #[trigger] all[j].0 by {
                assert(all[j] == tail[j - 1]);
                if i > 0 {
                    assert(all[i] == tail[i - 1]);
                }
            }
        } else {
            assert(spans_from(white, y) == spans_from(white, y + 1));
        }
    } else {
        assert(spans_from(white, y).len() == 0);
    }
}

/// A tall maximal run starting at or below `y0` is among the kept spans.
proof fn lemma_tall_run_kept(white: Seq<bool>, y0: int, s: int)
    requires
        0 <= y0 <= s,
        starts_run(white, s),
        run_end(white, s) - s > MIN_CHUNK_HEIGHT,
    ensures
        spans_from(white, y0).contains((s, run_end(white, s) - s)),
    decreases s - y0,
{
    let sp = (s, run_end(white, s) - s);
    if y0 == s {
        assert(spans_from(white, y0)[0] == sp);
    } else {
        lemma_tall_run_kept(white, y0 + 1, s);
        let tail = spans_from(white, y0 + 1);
        let i = choose|i: int| 0 <= i < tail.len() && tail[i] == sp;
        if starts_run(white, y0) && run_end(white, y0) - y0 > MIN_CHUNK_HEIGHT {
            assert(spans_from(white, y0)[i + 1] == sp);
        } else {
            assert(spans_from(white, y0)[i] == sp);
        }
    }
}

/// Segmenting is a function of the pixels alone: two runs on the same image
/// give the same chunk list.
pub proof fn lemma_segmenter_deterministic(
    image: Raster,
    first: Seq<Chunk>,
    second: Seq<Chunk>,
)
    requires
        first == page_chunks(image, 0),
        second == page_chunks(image, 0),
    ensures
        first == second,
{
}

/// Every chunk kept for a page is taller than `MIN_CHUNK_HEIGHT`.
pub proof fn lemma_chunks_are_tall(image: Raster, page: usize)
    requires
        image.height <= usize::MAX,
    ensures
        forall|i: int|
            0 <= i < page_chunks(image, page).len() ==> #[trigger] page_chunks(
                image,
                page,
            )[i].rect.height > MIN_CHUNK_HEIGHT,
{
    lemma_spans_facts(white_rows(image), 0);
    assert forall|i: int| 0 <= i < page_chunks(image, page).len() implies #[trigger] page_chunks(
        image,
        page,
    )[i].rect.height > MIN_CHUNK_HEIGHT by {
        let sp = page_spans(image)[i];
        assert(sp.1 <= image.height);
    }
}

/// The chunks of a page lie on the page, full width, top to bottom with at
/// least one white row between neighbours, and hold no white row. Every row
/// is thus white, inside exactly one chunk, or inside a run of non-white rows
/// too short to be kept.
pub proof fn lemma_segment_coverage(image: Raster, page: usize)
    requires
        image.width <= usize::MAX,
        image.height <= usize::MAX,
    ensures
        forall|i: int|
            0 <= i < page_chunks(image, page).len() ==> {
                let c = #[trigger] page_chunks(image, page)[i];
                &&& c.rect.x == 0
                &&& c.rect.width == image.width
                &&& c.rect.y + c.rect.height <= image.height
                &&& c.texture_index == page
            },
        forall|i: int, j: int|
            0 <= i < j < page_chunks(image, page).len() ==> #[trigger] page_chunks(image, page)[i].rect.y
                + page_chunks(image, page)[i].rect.height < #[trigger] page_chunks(
                image,
                page,
            )[j].rect.y,
        forall|i: int, y: int|
            0 <= i < page_chunks(image, page).len() && #[trigger] in_chunk(
                page_chunks(image, page)[i],
                y,
            ) ==> !row_is_white(image, y),
        forall|y: int|
            0 <= y < image.height && !#[trigger] row_is_white(image, y) && (forall|i: int|
                0 <= i < page_chunks(image, page).len() ==> !in_chunk(
                    page_chunks(image, page)[i],
                    y,
                )) ==> {
                let s = run_start(white_rows(image), y);
                &&& s <= y < run_end(white_rows(image), s)
                &&& starts_run(white_rows(image), s)
                &&& run_end(white_rows(image), s) - s <= MIN_CHUNK_HEIGHT
            },
{
    let white = white_rows(image);
    let spans = page_spans(image);
    let chunks = page_chunks(image, page);
    lemma_spans_facts(white, 0);
    assert forall|i: int, y: int|
        0 <= i < chunks.len() && #[trigger] in_chunk(chunks[i], y) implies !row_is_white(
        image,
        y,
    ) by {
        let sp = spans[i];
        lemma_run_end_bounds(white, sp.0);
        assert(!white[y]);
    }
    assert forall|y: int|
        0 <= y < image.height && !#[trigger] row_is_white(image, y) && (forall|i: int|
            0 <= i < chunks.len() ==> !in_chunk(chunks[i], y)) implies {
        let s = run_start(white, y);
        &&& s <= y < run_end(white, s)
        &&& starts_run(white, s)
        &&& run_end(white, s) - s <= MIN_CHUNK_HEIGHT
    } by {
        assert(!white[y]);
        lemma_run_start(white, y);
        let s = run_start(white, y);
        lemma_run_end_through(white, s, y);
        lemma_run_end_bounds(white, y);
        if run_end(white, s) - s > MIN_CHUNK_HEIGHT {
            lemma_tall_run_kept(white, 0, s);
            let i = choose|i: int| 0 <= i < spans.len() && spans[i] == (s, run_end(white, s) - s);
            assert(in_chunk(chunks[i], y));
        }
    }
}

} // verus!
