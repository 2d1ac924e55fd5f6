//! How work is shared out: the number of threads, and runs of rows or items of nearly
//! equal length.

use crate::text;
use vstd::prelude::*;

verus! {

/// The fewest rows that are worth a thread of their own.
pub const MIN_ROWS_PER_CHUNK: usize = 32;

/// The most threads that are used without being asked for.
pub const AUTO_THREADS: usize = 4;

/// A run of rows or items, without `end`.
#[derive(Clone, Copy, Debug, PartialEq, Eq, Structural)]
pub struct RowChunk {
    pub start: usize,
    pub end: usize,
}

/// The whole number that a setting denotes, if there is one and it can be read.
pub open spec fn setting_value(setting: Option<&str>) -> Option<nat> {
    match setting {
        Some(s) => text::unsigned_value(s@, usize::MAX as int),
        None => None,
    }
}

fn read_setting(setting: Option<&str>) -> (r: Option<usize>)
    ensures
        match r {
            Some(n) => setting_value(setting) == Some(n as nat),
            None => setting_value(setting) is None,
        },
{
    match setting {
        Some(s) => {
            let cs = text::chars_of(s);
            match text::parse_unsigned(&cs, usize::MAX as u64) {
                Some(n) => Some(n as usize),
                None => None,
            }
        },
        None => None,
    }
}

/// The number of threads to render with. Unless a positive number is asked for, it is
/// at most four, so as not to take every core, and at least one.
pub fn configured_render_threads(default_threads: usize, setting: Option<&str>) -> (r: usize)
    ensures
        match setting_value(setting) {
            Some(n) if n > 0 => r == n,
            _ => r == if default_threads < 1 {
                1
            } else if default_threads > AUTO_THREADS {
                AUTO_THREADS
            } else {
                default_threads
            },
        },
        r >= 1,
{
    let auto: usize = if default_threads < 1 {
        1
    } else if default_threads > AUTO_THREADS {
        AUTO_THREADS
    } else {
        default_threads
    };
    match read_setting(setting) {
        Some(n) => if n > 0 {
            n
        } else {
            auto
        },
        None => auto,
    }
}

/// The number of triangles from which on a draw call is worth sharing out.
pub fn configured_parallel_min_tris(default_min: usize, setting: Option<&str>) -> (r: usize)
    ensures
        match setting_value(setting) {
            Some(n) => r == n,
            None => r == default_min,
        },
{
    match read_setting(setting) {
        Some(n) => n,
        None => default_min,
    }
}

/// The number of bands that a pass is painted in, if it is painted in several.
pub fn configured_bands(setting: Option<&str>) -> (r: Option<usize>)
    ensures
        match setting_value(setting) {
            Some(n) if n > 1 => r matches Some(b) && b == n,
            _ => r is None,
        },
{
    match read_setting(setting) {
        Some(n) => if n > 1 {
            Some(n)
        } else {
            None
        },
        None => None,
    }
}

/// The number of threads to render with: as many as the machine offers, or as it has
/// cores where that is not known, within what is configured.
pub fn headless_render_thread_count(
    available: Option<usize>,
    cpu_cores: usize,
    setting: Option<&str>,
) -> (r: usize)
    ensures
        match setting_value(setting) {
            Some(n) if n > 0 => r == n,
            _ => {
                let cores = if available is Some {
                    available->0
                } else {
                    cpu_cores
                };
                r == if cores < 1 {
                    1
                } else if cores > AUTO_THREADS {
                    AUTO_THREADS
                } else {
                    cores
                }
            },
        },
        r >= 1,
{
    let cores: usize = match available {
        Some(n) => n,
        None => cpu_cores,
    };
    configured_render_threads(cores, setting)
}

/// The threads that are kept for rendering.
#[derive(Clone, Copy, Debug, PartialEq, Eq, Structural)]
pub struct RenderPool {
    /// The size of the pool, if there is one.
    pub threads: Option<usize>,
}

/// Makes sure that there is a pool of `threads` threads, if that is more than one.
/// Says whether a pool has to be made.
pub fn headless_ensure_render_pool(pool: &mut RenderPool, threads: usize) -> (made: bool)
    ensures
        made == (threads > 1 && old(pool).threads != Some(threads)),
        final(pool).threads == if threads > 1 {
            Some(threads)
        } else {
            old(pool).threads
        },
{
    if threads <= 1 {
        return false;
    }
    let fits = match pool.threads {
        Some(n) => n == threads,
        None => false,
    };
    if !fits {
        pool.threads = Some(threads);
    }
    !fits
}

/// Whether a draw call is shared out among the threads of the pool.
pub fn use_parallel(
    row_chunks: usize,
    tri_count: usize,
    instance_count: usize,
    parallel_min_tris: usize,
    has_pool: bool,
) -> (r: bool)
    ensures
        r == (row_chunks > 1 && tri_count * instance_count >= parallel_min_tris && has_pool),
{
    proof {
        assert(0 <= tri_count * instance_count <= u128::MAX && tri_count as u128
            * instance_count as u128 == tri_count * instance_count) by (nonlinear_arith)
            requires
                tri_count <= 0xffff_ffff_ffff_ffff,
                instance_count <= 0xffff_ffff_ffff_ffff,
        ;
    }
    row_chunks > 1 && tri_count as u128 * instance_count as u128 >= parallel_min_tris as u128
        && has_pool
}

/// The number of chunks that `total` items are divided into.
pub open spec fn chunk_count(total: int, desired: int, min_items: int) -> int {
    if total == 0 {
        0
    } else {
        let least = if min_items < 1 {
            1
        } else {
            min_items
        };
        let most = if total / least < 1 {
            1
        } else {
            total / least
        };
        let wanted = if desired < 1 {
            1
        } else {
            desired
        };
        if wanted < most {
            wanted
        } else {
            most
        }
    }
}

/// Where the chunk number `i` of `count` chunks of `total` items starts: the first
/// chunks are one item longer, until the remainder is used up.
pub open spec fn chunk_start(total: int, count: int, i: int) -> int {
    let rem = total % count;
    i * (total / count) + if i < rem {
        i
    } else {
        rem
    }
}

/// Whether `r` are the chunks that `total` items are divided into.
pub open spec fn is_division(
    r: Seq<RowChunk>,
    total: int,
    desired: int,
    min_items: int,
) -> bool {
    let count = chunk_count(total, desired, min_items);
    r.len() == count && forall|i: int|
        0 <= i < count ==> (#[trigger] r[i]).start == chunk_start(total, count, i) && r[i].end
            == chunk_start(total, count, i + 1)
}

proof fn lemma_chunk_step(total: int, count: int, i: int)
    requires
        0 < count <= total,
        0 <= i < count,
    ensures
        chunk_start(total, count, i + 1) == chunk_start(total, count, i) + total / count + if i
            < total % count {
            1int
        } else {
            0int
        },
        total / count >= 1,
        0 <= total % count < count,
{
    assert((i + 1) * (total / count) == i * (total / count) + total / count)
        by (nonlinear_arith);
    assert(total / count >= 1) by (nonlinear_arith)
        requires
            0 < count <= total,
    ;
}

proof fn lemma_chunks_end(total: int, count: int)
    requires
        0 < count <= total,
    ensures
        chunk_start(total, count, 0) == 0,
        chunk_start(total, count, count) == total,
{
    vstd::arithmetic::div_mod::lemma_fundamental_div_mod(total, count);
    assert(0 * (total / count) == 0) by (nonlinear_arith);
}

proof fn lemma_chunk_monotone(total: int, count: int, i: int, j: int)
    requires
        0 < count <= total,
        0 <= i <= j <= count,
    ensures
        chunk_start(total, count, i) <= chunk_start(total, count, j),
    decreases j - i,
{
    if i < j {
        lemma_chunk_step(total, count, j - 1);
        lemma_chunk_monotone(total, count, i, j - 1);
    }
}

proof fn lemma_count_in_range(total: int, desired: int, min_items: int)
    requires
        total > 0,
    ensures
        0 < chunk_count(total, desired, min_items) <= total,
{
    let least = if min_items < 1 {
        1
    } else {
        min_items
    };
    assert(total / least <= total) by (nonlinear_arith)
        requires
            total > 0,
            least >= 1,
    ;
}

/// Divides `total` items into at most `desired_chunks` chunks of at least
/// `min_items_per_chunk` items, as far as there are that many.
pub fn compute_index_chunks(
    total: usize,
    desired_chunks: usize,
    min_items_per_chunk: usize,
) -> (r: Vec<RowChunk>)
    ensures
        is_division(r@, total as int, desired_chunks as int, min_items_per_chunk as int),
{
    let mut chunks: Vec<RowChunk> = Vec::new();
    if total == 0 {
        return chunks;
    }
    let least: usize = if min_items_per_chunk < 1 {
        1
    } else {
        min_items_per_chunk
    };
    let most: usize = if total / least < 1 {
        1
    } else {
        total / least
    };
    let wanted: usize = if desired_chunks < 1 {
        1
    } else {
        desired_chunks
    };
    let count: usize = if wanted < most {
        wanted
    } else {
        most
    };
    proof {
        lemma_count_in_range(total as int, desired_chunks as int, min_items_per_chunk as int);
        lemma_chunks_end(total as int, count as int);
    }
    let base: usize = total / count;
    let rem: usize = total % count;
    let mut start: usize = 0;
    let mut i: usize = 0;
    while i < count
        invariant
            0 < count <= total,
            base == total / count,
            rem == total % count,
            i <= count,
            start == chunk_start(total as int, count as int, i as int),
            chunk_start(total as int, count as int, count as int) == total,
            chunks@.len() == i,
            forall|j: int|
                0 <= j < i ==> (#[trigger] chunks@[j]).start == chunk_start(
                    total as int,
                    count as int,
                    j,
                ) && chunks@[j].end == chunk_start(total as int, count as int, j + 1),
        decreases count - i,
    {
        proof {
            lemma_chunk_step(total as int, count as int, i as int);
            lemma_chunk_monotone(total as int, count as int, i + 1, count as int);
        }
        let extra: usize = if i < rem {
            1
        } else {
            0
        };
        let end: usize = start + base + extra;
        chunks.push(RowChunk { start, end });
        start = end;
        i = i + 1;
    }
    chunks
}

/// Divides the rows of a screen among threads.
pub fn compute_row_chunks(height: usize, desired_threads: usize) -> (r: Vec<RowChunk>)
    ensures
        is_division(r@, height as int, desired_threads as int, MIN_ROWS_PER_CHUNK as int),
{
    compute_index_chunks(height, desired_threads, MIN_ROWS_PER_CHUNK)
}

/// The chunks lie end to end, from the first item to the last: each item is in exactly
/// one of them.
pub proof fn law_chunks_cover_everything_once(
    r: Seq<RowChunk>,
    total: int,
    desired: int,
    min_items: int,
)
    requires
        total >= 0,
        is_division(r, total, desired, min_items),
    ensures
        total > 0 ==> r.len() > 0 && r[0].start == 0 && r.last().end == total,
        forall|i: int| 0 < i < r.len() ==> r[i - 1].end == (#[trigger] r[i]).start,
        forall|i: int, j: int|
            0 <= i < j < r.len() ==> (#[trigger] r[i]).end <= (#[trigger] r[j]).start,
{
    let count = chunk_count(total, desired, min_items);
    if total > 0 {
        lemma_count_in_range(total, desired, min_items);
        lemma_chunks_end(total, count);
        assert forall|i: int| 0 < i < r.len() implies r[i - 1].end == (#[trigger] r[i]).start by {
            assert(r[i - 1].end == chunk_start(total, count, i));
        }
        assert forall|i: int, j: int| 0 <= i < j < r.len() implies (#[trigger] r[i]).end <= (
        #[trigger] r[j]).start by {
            lemma_chunk_monotone(total, count, i + 1, j);
        }
        assert(r[count - 1].end == total);
        assert(r[0].start == 0);
    }
}

/// No chunk is empty, and the lengths of two chunks differ by at most one.
pub proof fn law_chunks_are_even(r: Seq<RowChunk>, total: int, desired: int, min_items: int)
    requires
        total >= 0,
        is_division(r, total, desired, min_items),
    ensures
        forall|i: int| 0 <= i < r.len() ==> (#[trigger] r[i]).start < r[i].end,
        forall|i: int, j: int|
            0 <= i < r.len() && 0 <= j < r.len() ==> (#[trigger] r[i]).end - r[i].start <= (
            #[trigger] r[j]).end - r[j].start + 1,
{
    let count = chunk_count(total, desired, min_items);
    if total > 0 {
        lemma_count_in_range(total, desired, min_items);
        assert forall|i: int| 0 <= i < r.len() implies (#[trigger] r[i]).start < r[i].end
            && total / count <= r[i].end - r[i].start <= total / count + 1 by {
            lemma_chunk_step(total, count, i);
        }
    }
}

/// No chunk is shorter than asked for, unless there are too few items for even one.
pub proof fn law_chunks_are_long_enough(
    r: Seq<RowChunk>,
    total: int,
    desired: int,
    min_items: int,
)
    requires
        1 <= min_items <= total,
        is_division(r, total, desired, min_items),
    ensures
        forall|i: int| 0 <= i < r.len() ==> (#[trigger] r[i]).end - r[i].start >= min_items,
{
    let count = chunk_count(total, desired, min_items);
    lemma_count_in_range(total, desired, min_items);
    assert(total / min_items >= 1) by (nonlinear_arith)
        requires
            1 <= min_items <= total,
    ;
    assert(count <= total / min_items);
    assert(total / count >= min_items) by (nonlinear_arith)
        requires
            0 < count <= total / min_items,
            1 <= min_items <= total,
    ;
    assert forall|i: int| 0 <= i < r.len() implies (#[trigger] r[i]).end - r[i].start
        >= min_items by {
        lemma_chunk_step(total, count, i);
    }
}

/// The rows of a band, and where its pixels stand in the framebuffer.
#[derive(Clone, Copy, Debug, PartialEq, Eq, Structural)]
pub struct BandRange {
    pub row_start: usize,
    pub row_end: usize,
    pub pixel_start: usize,
    pub pixel_end: usize,
}

/// Whether `ranges` are the bands that a framebuffer is painted in.
pub open spec fn are_bands(
    ranges: Seq<BandRange>,
    width: usize,
    height: usize,
    bands: usize,
) -> bool {
    let count = chunk_count(height as int, bands as int, 1);
    ranges.len() == count && forall|i: int|
        0 <= i < count ==> {
            &&& (#[trigger] ranges[i]).row_start == chunk_start(height as int, count, i)
            &&& ranges[i].row_end == chunk_start(height as int, count, i + 1)
            &&& ranges[i].pixel_start == ranges[i].row_start * width
            &&& ranges[i].pixel_end == ranges[i].row_end * width
        }
}

/// The bands that a framebuffer is painted in, one for each thread. Their pixels do not
/// overlap, so that no thread waits for another.
pub fn band_ranges(width: usize, height: usize, bands: usize) -> (r: Vec<BandRange>)
    requires
        width * height <= usize::MAX,
    ensures
        are_bands(r@, width, height, bands),
{
    let chunks = compute_index_chunks(height, bands, 1);
    let mut out: Vec<BandRange> = Vec::new();
    let ghost count = chunk_count(height as int, bands as int, 1);
    let mut i: usize = 0;
    while i < chunks.len()
        invariant
            width * height <= usize::MAX,
            count == chunk_count(height as int, bands as int, 1),
            chunks@.len() == count,
            is_division(chunks@, height as int, bands as int, 1),
            i <= chunks@.len(),
            out@.len() == i,
            forall|j: int|
                0 <= j < i ==> {
                    &&& (#[trigger] out@[j]).row_start == chunk_start(height as int, count, j)
                    &&& out@[j].row_end == chunk_start(height as int, count, j + 1)
                    &&& out@[j].pixel_start == out@[j].row_start * width
                    &&& out@[j].pixel_end == out@[j].row_end * width
                },
        decreases chunks@.len() - i,
    {
        let c = chunks[i];
        proof {
            lemma_count_in_range(height as int, bands as int, 1);
            lemma_chunks_end(height as int, count);
            lemma_chunk_monotone(height as int, count, i as int, i + 1);
            lemma_chunk_monotone(height as int, count, i + 1, count);
            let (s, e) = (c.start, c.end);
            assert(0 <= s * width <= e * width <= width * height) by (nonlinear_arith)
                requires
                    s <= e <= height,
            ;
        }
        out.push(
            BandRange {
                row_start: c.start,
                row_end: c.end,
                pixel_start: c.start * width,
                pixel_end: c.end * width,
            },
        );
        i = i + 1;
    }
    out
}

/// The bands lie end to end, from the first row to the last, and their pixels do so too:
/// no pixel is in two of them, and every pixel is in one.
pub proof fn law_bands_cover_the_framebuffer_once(
    ranges: Seq<BandRange>,
    width: usize,
    height: usize,
    bands: usize,
)
    requires
        are_bands(ranges, width, height, bands),
    ensures
        forall|k: int|
            0 <= k < ranges.len() ==> {
                &&& (#[trigger] ranges[k]).row_start <= ranges[k].row_end <= height
                &&& ranges[k].pixel_start <= ranges[k].pixel_end <= width * height
            },
        forall|k: int, l: int|
            0 <= k < l < ranges.len() ==> (#[trigger] ranges[k]).pixel_end <= (
            #[trigger] ranges[l]).pixel_start,
        forall|p: int|
            0 <= p < width * height ==> #[trigger] in_some_band(ranges, p),
{
    let h = height as int;
    let w = width as int;
    let count = chunk_count(h, bands as int, 1);
    if h > 0 {
        lemma_count_in_range(h, bands as int, 1);
        lemma_chunks_end(h, count);
        assert forall|k: int| 0 <= k < ranges.len() implies {
            &&& (#[trigger] ranges[k]).row_start <= ranges[k].row_end <= height
            &&& ranges[k].pixel_start <= ranges[k].pixel_end <= width * height
        } by {
            lemma_chunk_monotone(h, count, k, k + 1);
            lemma_chunk_monotone(h, count, k + 1, count);
            let (a, b) = (ranges[k].row_start as int, ranges[k].row_end as int);
            assert(a * w <= b * w && b * w <= w * h) by (nonlinear_arith)
                requires
                    0 <= a <= b <= h,
                    0 <= w,
            ;
        }
        assert forall|k: int, l: int| 0 <= k < l < ranges.len() implies (
        #[trigger] ranges[k]).pixel_end <= (#[trigger] ranges[l]).pixel_start by {
            lemma_chunk_monotone(h, count, k + 1, l);
            let (a, b) = (ranges[k].row_end as int, ranges[l].row_start as int);
            assert(a * w <= b * w) by (nonlinear_arith)
                requires
                    0 <= a <= b,
                    0 <= w,
            ;
        }
        assert forall|p: int| 0 <= p < width * height implies #[trigger] in_some_band(
            ranges,
            p,
        ) by {
            assert(ranges[count - 1].pixel_end == width * height) by {
                assert(ranges[count - 1].row_end == h);
                assert(h * w == w * h) by (nonlinear_arith);
            }
            assert(ranges[0].pixel_start == 0) by {
                assert(ranges[0].row_start == 0);
            }
            lemma_found_among(ranges, width, height, bands, p, count - 1);
        }
    } else {
        assert(w * h == 0) by (nonlinear_arith)
            requires
                h == 0,
        ;
        assert forall|k: int| 0 <= k < ranges.len() implies {
            &&& (#[trigger] ranges[k]).row_start <= ranges[k].row_end <= height
            &&& ranges[k].pixel_start <= ranges[k].pixel_end <= width * height
        } by {}
    }
}

/// Whether a pixel belongs to a band.
pub open spec fn in_band(range: BandRange, pixel: int) -> bool {
    range.pixel_start <= pixel < range.pixel_end
}

/// Whether a pixel belongs to one of the bands.
pub open spec fn in_some_band(ranges: Seq<BandRange>, pixel: int) -> bool {
    exists|k: int| 0 <= k < ranges.len() && #[trigger] in_band(ranges[k], pixel)
}

proof fn lemma_found_among(
    ranges: Seq<BandRange>,
    width: usize,
    height: usize,
    bands: usize,
    p: int,
    n: int,
)
    requires
        are_bands(ranges, width, height, bands),
        0 <= n < ranges.len(),
        ranges[0].pixel_start <= p < ranges[n].pixel_end,
    ensures
        in_some_band(ranges, p),
    decreases n,
{
    if ranges[n].pixel_start <= p {
        assert(in_band(ranges[n], p));
    } else {
        assert(ranges[n - 1].row_end == ranges[n].row_start);
        lemma_found_among(ranges, width, height, bands, p, n - 1);
    }
}

/// There are as many chunks as are wanted, if there are items enough for each to be as long
/// as it has to be; else as many as there are items enough for, but at least one; and none
/// if there are no items.
pub proof fn law_as_many_chunks_as_there_are_items_for(
    r: Seq<RowChunk>,
    total: int,
    desired: int,
    min_items: int,
)
    requires
        total >= 0,
        desired >= 1,
        min_items >= 1,
        is_division(r, total, desired, min_items),
    ensures
        total == 0 ==> r.len() == 0,
        total > 0 && total >= desired * min_items ==> r.len() == desired,
        r.len() <= desired,
        total > 0 ==> r.len() >= 1,
        0 < r.len() < desired ==> (r.len() + 1) * min_items > total,
{
    if total > 0 {
        let q = total / min_items;
        vstd::arithmetic::div_mod::lemma_fundamental_div_mod(total, min_items);
        let rem = total % min_items;
        assert(total == min_items * q + rem && 0 <= rem < min_items);
        assert(q >= desired || total < desired * min_items) by (nonlinear_arith)
            requires
                total == min_items * q + rem,
                0 <= rem < min_items,
        ;
        assert((q + 1) * min_items > total) by (nonlinear_arith)
            requires
                total == min_items * q + rem,
                0 <= rem < min_items,
        ;
        if q < 1 {
            assert(2 * min_items > total) by (nonlinear_arith)
                requires
                    (q + 1) * min_items > total,
                    q < 1,
                    min_items >= 1,
            ;
        }
    }
}

/// No chunk is longer than one in front of it.
pub proof fn law_the_first_chunks_are_the_longer_ones(
    r: Seq<RowChunk>,
    total: int,
    desired: int,
    min_items: int,
    i: int,
    j: int,
)
    requires
        total >= 0,
        is_division(r, total, desired, min_items),
        0 <= i <= j < r.len(),
    ensures
        r[j].end - r[j].start <= r[i].end - r[i].start,
{
    let count = chunk_count(total, desired, min_items);
    if total > 0 {
        lemma_count_in_range(total, desired, min_items);
        lemma_chunk_step(total, count, i);
        lemma_chunk_step(total, count, j);
    }
}

/// There are as many bands as are asked for, but no more than there are rows, and at least
/// one if there is a row; and the pixels of a band are those of its rows.
pub proof fn law_bands_are_made_of_whole_rows(
    ranges: Seq<BandRange>,
    width: usize,
    height: usize,
    bands: usize,
)
    requires
        are_bands(ranges, width, height, bands),
        bands >= 1,
    ensures
        ranges.len() == if bands <= height { bands as int } else { height as int },
        forall|i: int|
            0 <= i < ranges.len() ==> (#[trigger] ranges[i]).pixel_start == ranges[i].row_start
                * width && ranges[i].pixel_end == ranges[i].row_end * width,
{
    assert(height as int / 1 == height);
}

/// A setting is a bare numeral: one that is written in decimal is read as its number, as far
/// as that fits, and one that holds a space, or any other sign but one in front, is not read.
pub proof fn law_settings_are_bare_numerals(setting: &str, n: nat, i: int)
    ensures
        setting_value(None) is None,
        setting@ == text::dec_text(n) ==> setting_value(Some(setting)) == if n <= usize::MAX {
            Some(n)
        } else {
            None
        },
        0 <= i < setting@.len() && setting@[i] == ' ' ==> setting_value(Some(setting)) is None,
        setting@.len() == 0 ==> setting_value(Some(setting)) is None,
{
    text::law_numerals_are_read(n, usize::MAX as int);
    if 0 <= i < setting@.len() && setting@[i] == ' ' {
        text::law_other_texts_are_no_numerals(setting@, i, usize::MAX as int);
    }
    if setting@.len() == 0 {
        assert(setting@ =~= Seq::<char>::empty());
    }
}

/// Thirty-two rows are worth a thread, and four threads are used without being asked for.
pub proof fn law_the_limits_of_sharing_out()
    ensures
        MIN_ROWS_PER_CHUNK == 32,
        AUTO_THREADS == 4,
{
}

/// A number that is asked for is taken; without one, the number of threads is that of the
/// cores, from one up to four, the number of triangles is the usual one, and there are no
/// bands. A number of zero asks for no threads, and one of zero or one for no bands.
pub proof fn law_what_is_asked_for_is_taken(
    setting: Option<&str>,
    n: nat,
    cores: usize,
    threads: usize,
    min_tris: usize,
    bands: Option<usize>,
    available: Option<usize>,
    counted: usize,
)
    requires
        match setting {
            Some(s) => s@ == text::dec_text(n) && n <= usize::MAX,
            None => true,
        },
        call_ensures(configured_render_threads, (cores, setting), threads),
        call_ensures(configured_parallel_min_tris, (cores, setting), min_tris),
        call_ensures(configured_bands, (setting,), bands),
        call_ensures(headless_render_thread_count, (available, cores, setting), counted),
    ensures
        setting is Some ==> {
            &&& n > 0 ==> threads == n && counted == n
            &&& min_tris == n
            &&& n > 1 ==> (bands matches Some(b) && b == n)
            &&& n <= 1 ==> bands is None
        },
        setting is None || n == 0 ==> {
            &&& 1 <= cores <= 4 ==> threads == cores
            &&& cores > 4 ==> threads == 4
            &&& cores < 1 ==> threads == 1
            &&& available matches Some(a) ==> (1 <= a <= 4 ==> counted == a) && (a > 4 ==> counted
                == 4) && (a < 1 ==> counted == 1)
            &&& available is None ==> counted == threads
        },
        setting is None ==> min_tris == cores && bands is None,
{
    match setting {
        Some(s) => {
            law_settings_are_bare_numerals(s, n, 0);
        },
        None => {},
    }
}

/// A pool is made once for a number of threads greater than one, and kept.
pub proof fn law_a_pool_is_made_once(
    first: &mut RenderPool,
    threads: usize,
    made: bool,
    second: &mut RenderPool,
    again: bool,
)
    requires
        call_ensures(headless_ensure_render_pool, (first, threads), made),
        *old(second) == *final(first),
        call_ensures(headless_ensure_render_pool, (second, threads), again),
    ensures
        !again,
        threads > 1 ==> final(first).threads == Some(threads),
        threads > 1 && old(first).threads is None ==> made,
        threads <= 1 ==> !made && final(first).threads == old(first).threads,
        final(second).threads == final(first).threads,
{
}

/// A draw call is shared out if there are threads and rows for it, and triangles enough.
pub proof fn law_large_draw_calls_are_shared_out(
    row_chunks: usize,
    tri_count: usize,
    instance_count: usize,
    parallel_min_tris: usize,
    has_pool: bool,
    r: bool,
)
    requires
        call_ensures(
            use_parallel,
            (row_chunks, tri_count, instance_count, parallel_min_tris, has_pool),
            r,
        ),
    ensures
        r <==> has_pool && row_chunks >= 2 && tri_count * instance_count >= parallel_min_tris,
{
}

/// The rows of a screen are divided into chunks that lie end to end, from the first row to the
/// last: no more than there are threads, and none shorter than thirty-two rows, unless there
/// is one only.
pub proof fn law_rows_are_divided_end_to_end(height: usize, threads: usize, r: Vec<RowChunk>)
    requires
        call_ensures(compute_row_chunks, (height, threads), r),
        threads >= 1,
    ensures
        height == 0 ==> r@.len() == 0,
        height > 0 ==> 1 <= r@.len() <= threads && r@[0].start == 0 && r@.last().end == height,
        height >= 32 * threads && height > 0 ==> r@.len() == threads,
        forall|i: int| 0 < i < r@.len() ==> r@[i - 1].end == (#[trigger] r@[i]).start,
        r@.len() > 1 ==> forall|i: int|
            0 <= i < r@.len() ==> (#[trigger] r@[i]).end - r@[i].start >= 32,
{
    law_chunks_cover_everything_once(r@, height as int, threads as int, 32);
    law_as_many_chunks_as_there_are_items_for(r@, height as int, threads as int, 32);
    if height >= 32 {
        law_chunks_are_long_enough(r@, height as int, threads as int, 32);
    } else if height > 0 {
        assert(height as int / 32 == 0);
    }
}

/// The bands of a framebuffer lie end to end too, row by row and pixel by pixel.
pub proof fn law_bands_lie_end_to_end(
    width: usize,
    height: usize,
    bands: usize,
    r: Vec<BandRange>,
    p: int,
)
    requires
        call_ensures(band_ranges, (width, height, bands), r),
        bands >= 1,
        0 <= p < width * height,
    ensures
        r@.len() == if bands <= height { bands as int } else { height as int },
        exists|k: int|
            0 <= k < r@.len() && (#[trigger] r@[k]).pixel_start <= p < r@[k].pixel_end,
        forall|k: int, l: int|
            0 <= k < l < r@.len() ==> (#[trigger] r@[k]).pixel_end <= (#[trigger] r@[l]).pixel_start,
        forall|k: int|
            0 <= k < r@.len() ==> (#[trigger] r@[k]).pixel_start == r@[k].row_start * width
                && r@[k].pixel_end == r@[k].row_end * width,
{
    law_bands_cover_the_framebuffer_once(r@, width, height, bands);
    law_bands_are_made_of_whole_rows(r@, width, height, bands);
    assert(in_some_band(r@, p));
}

/// Work is divided into chunks that lie end to end from the first item to the last: no more
/// than are wanted, each as long as is asked for unless there is one only, and none more than
/// one item longer than another.
pub proof fn law_work_is_divided_end_to_end(
    total: usize,
    desired: usize,
    min_items: usize,
    r: Vec<RowChunk>,
)
    requires
        call_ensures(compute_index_chunks, (total, desired, min_items), r),
        desired >= 1,
        min_items >= 1,
        total > 0,
    ensures
        1 <= r@.len() <= desired,
        r@[0].start == 0,
        r@.last().end == total,
        forall|i: int| 0 < i < r@.len() ==> r@[i - 1].end == (#[trigger] r@[i]).start,
        total >= min_items ==> forall|i: int|
            0 <= i < r@.len() ==> (#[trigger] r@[i]).end - r@[i].start >= min_items,
        forall|i: int, j: int|
            0 <= i < r@.len() && 0 <= j < r@.len() ==> (#[trigger] r@[i]).end - r@[i].start <= (
            #[trigger] r@[j]).end - r@[j].start + 1,
{
    law_chunks_cover_everything_once(r@, total as int, desired as int, min_items as int);
    law_as_many_chunks_as_there_are_items_for(r@, total as int, desired as int, min_items as int);
    law_chunks_are_even(r@, total as int, desired as int, min_items as int);
    if total >= min_items {
        law_chunks_are_long_enough(r@, total as int, desired as int, min_items as int);
    }
}

} // verus!
