//! Glyphs that were shaded once are copied.
//!
//! The text shader evaluates the curves of a glyph at every pixel, and costs a hundred
//! times as much as any other. So the pixels of a glyph are remembered under a key that
//! is made of all that they depend on: the varyings of the corners, the place within a
//! pixel, and the size. Two glyphs of one key have, at the same place, the same pixel.

use crate::fragment;
use crate::fragment::ByteOrder;
use crate::single::{Rgba, F32};
use std::collections::hash_map::DefaultHasher;
use std::collections::HashMap;
use std::hash::Hasher;
use vstd::prelude::*;
use vstd::std_specs::hash::DefaultHasherAdditionalSpecFns;

verus! {

broadcast use vstd::std_specs::hash::group_hash_axioms;

/// The largest side of a glyph that is remembered.
pub const MAX_TILE_SIDE: usize = 256;

/// The pixels of a glyph, row by row: none where a pixel was not shaded yet.
pub struct GlyphTile {
    pub w: usize,
    pub h: usize,
    pub px: Vec<Option<Rgba>>,
}

/// The glyphs that are remembered, and how often that served. The counts start again
/// from zero when they pass the largest number.
pub struct GlyphMemo {
    pub tiles: HashMap<u64, GlyphTile>,
    pub hits: usize,
    pub misses: usize,
}

/// A glyph on screen: its key, where it stands, and its size.
#[derive(Clone, Copy, Debug, PartialEq, Eq, Structural)]
pub struct TilePlace {
    pub key: u64,
    pub x0: i32,
    pub y0: i32,
    pub w: usize,
    pub h: usize,
}

/// The box around a glyph on screen, and its place within the pixel, in eighths.
#[derive(Clone, Copy, Debug, PartialEq, Eq, Structural)]
pub struct GlyphBox {
    pub x0: i32,
    pub y0: i32,
    pub x_end: i32,
    pub y_end: i32,
    pub sub_x: i32,
    pub sub_y: i32,
}

impl GlyphTile {
    pub open spec fn wf(&self) -> bool {
        self.px@.len() == self.w * self.h
    }
}

impl GlyphMemo {
    /// Whether every glyph has as many pixels as its size says.
    pub open spec fn wf(&self) -> bool {
        forall|key: u64| #[trigger] self.tiles@.contains_key(key) ==> self.tiles@[key].wf()
    }

    /// Whether the glyph that is remembered under the key of a place, if there is one, has
    /// the size of that place. Only then are its pixels remembered.
    pub open spec fn fits(&self, place: TilePlace) -> bool {
        self.tiles@.contains_key(place.key) ==> self.tiles@[place.key].w == place.w
            && self.tiles@[place.key].h == place.h
    }

    /// The colour that is remembered of a glyph at a place in it.
    pub open spec fn remembered(&self, key: u64, index: int) -> Option<Rgba> {
        if self.tiles@.contains_key(key) && 0 <= index < self.tiles@[key].px@.len() {
            self.tiles@[key].px@[index]
        } else {
            None
        }
    }
}

impl Default for GlyphMemo {
    fn default() -> (r: Self)
        ensures
            r.wf(),
            r.hits == 0,
            r.misses == 0,
            r.tiles@ == Map::<u64, GlyphTile>::empty(),
    {
        GlyphMemo { tiles: HashMap::new(), hits: 0, misses: 0 }
    }
}

impl TilePlace {
    /// Where the pixel (`x`, `y`) of the screen stands in the glyph.
    pub open spec fn local(self, x: i32, y: i32) -> Option<int> {
        let lx = x - self.x0;
        let ly = y - self.y0;
        if 0 <= lx < self.w && 0 <= ly < self.h {
            Some(ly * self.w + lx)
        } else {
            None
        }
    }

    pub open spec fn wf(self) -> bool {
        self.w <= MAX_TILE_SIDE && self.h <= MAX_TILE_SIDE
    }

    fn local_index(self, x: i32, y: i32) -> (r: Option<usize>)
        requires
            self.wf(),
        ensures
            match r {
                Some(i) => self.local(x, y) == Some(i as int) && i < self.w * self.h,
                None => self.local(x, y) is None,
            },
    {
        let lx: i64 = x as i64 - self.x0 as i64;
        let ly: i64 = y as i64 - self.y0 as i64;
        if lx < 0 || ly < 0 || lx >= self.w as i64 || ly >= self.h as i64 {
            return None;
        }
        let (w, h) = (self.w, self.h);
        assert(0 <= ly * w && ly * w + lx < w * h && w * h <= 65536) by (nonlinear_arith)
            requires
                0 <= lx < w <= 256,
                0 <= ly < h <= 256,
        ;
        Some(ly as usize * self.w + lx as usize)
    }
}

/// Whether `after` is `before` with the colour `c` remembered at a place of a glyph. A new
/// glyph has the size of its place, and a glyph of that key but of another size is left
/// alone, as are all other glyphs.
pub open spec fn noted(
    before: &GlyphMemo,
    after: &GlyphMemo,
    place: TilePlace,
    index: int,
    c: Rgba,
) -> bool {
    let known = before.tiles@.contains_key(place.key);
    &&& after.tiles@.dom() == before.tiles@.dom().insert(place.key)
    &&& after.tiles@[place.key].w == if known {
        before.tiles@[place.key].w
    } else {
        place.w
    }
    &&& after.tiles@[place.key].h == if known {
        before.tiles@[place.key].h
    } else {
        place.h
    }
    &&& forall|key: u64|
        key != place.key && before.tiles@.contains_key(key) ==> #[trigger] after.tiles@[key]
            == before.tiles@[key]
    &&& forall|key: u64, i: int| #[trigger]
        after.remembered(key, i) == if before.fits(place) && key == place.key && i == index {
            Some(c)
        } else {
            before.remembered(key, i)
        }
}

/// `n` pixels that were not shaded yet.
fn blank(n: usize) -> (r: Vec<Option<Rgba>>)
    ensures
        r@ == Seq::new(n as nat, |i: int| None::<Rgba>),
{
    let mut v: Vec<Option<Rgba>> = Vec::new();
    let mut i: usize = 0;
    while i < n
        invariant
            i <= n,
            v@ =~= Seq::new(i as nat, |j: int| None::<Rgba>),
        decreases n - i,
    {
        v.push(None);
        i = i + 1;
    }
    v
}

impl GlyphMemo {
    /// Remembers the colour `c` at a place of a glyph.
    fn note(&mut self, place: TilePlace, index: usize, c: Rgba)
        requires
            old(self).wf(),
            place.wf(),
            index < place.w * place.h,
        ensures
            final(self).wf(),
            noted(&*old(self), &*final(self), place, index as int, c),
            final(self).hits == old(self).hits,
            final(self).misses == old(self).misses,
    {
        match self.tiles.remove(&place.key) {
            Some(found) => {
                let mut tile: GlyphTile = found;
                if tile.w == place.w && tile.h == place.h {
                    tile.px[index] = Some(c);
                }
                self.tiles.insert(place.key, tile);
            },
            None => {
                let (w, h) = (place.w, place.h);
                assert(0 <= w * h <= 65536) by (nonlinear_arith)
                    requires
                        w <= 256,
                        h <= 256,
                ;
                let mut px = blank(place.w * place.h);
                px[index] = Some(c);
                self.tiles.insert(place.key, GlyphTile { w: place.w, h: place.h, px });
            },
        }
        assert(self.tiles@.dom() =~= old(self).tiles@.dom().insert(place.key));
    }
}

/// Shades a pixel of a glyph: copies it if it is remembered, and otherwise shades it and
/// remembers it. Outside of the box of the glyph, and where there is no glyph, it is
/// just shaded.
pub fn shade_glyph_pixel<F: Fn(i32, i32, u32, u32) -> Option<Rgba>>(
    memo: &mut GlyphMemo,
    place: Option<TilePlace>,
    x: i32,
    y: i32,
    lane_x: u32,
    lane_y: u32,
    shade: &F,
) -> (r: Option<Rgba>)
    requires
        old(memo).wf(),
        place matches Some(p) ==> p.wf(),
        forall|x: i32, y: i32, lane_x: u32, lane_y: u32|
            call_requires(*shade, (x, y, lane_x, lane_y)),
    ensures
        final(memo).wf(),
        match place {
            Some(p) => match p.local(x, y) {
                Some(index) => match old(memo).remembered(p.key, index) {
                    Some(c) => {
                        &&& r == Some(c)
                        &&& final(memo).tiles == old(memo).tiles
                        &&& final(memo).hits == old(memo).hits.wrapping_add(1)
                        &&& final(memo).misses == old(memo).misses
                    },
                    None => {
                        &&& call_ensures(*shade, (x, y, lane_x, lane_y), r)
                        &&& match r {
                            Some(c) => noted(&*old(memo), &*final(memo), p, index, c),
                            None => final(memo).tiles == old(memo).tiles,
                        }
                        &&& final(memo).hits == old(memo).hits
                        &&& final(memo).misses == old(memo).misses.wrapping_add(1)
                    },
                },
                None => call_ensures(*shade, (x, y, lane_x, lane_y), r) && *final(memo) == *old(
                    memo,
                ),
            },
            None => call_ensures(*shade, (x, y, lane_x, lane_y), r) && *final(memo) == *old(memo),
        },
{
    let place = match place {
        Some(p) => p,
        None => {
            return shade(x, y, lane_x, lane_y);
        },
    };
    let index: usize = match place.local_index(x, y) {
        Some(i) => i,
        None => {
            return shade(x, y, lane_x, lane_y);
        },
    };
    let found: Option<Rgba> = match memo.tiles.get(&place.key) {
        Some(tile) => if index < tile.px.len() {
            tile.px[index]
        } else {
            None
        },
        None => None,
    };
    match found {
        Some(c) => {
            memo.hits = memo.hits.wrapping_add(1);
            Some(c)
        },
        None => {
            memo.misses = memo.misses.wrapping_add(1);
            let out: Option<Rgba> = shade(x, y, lane_x, lane_y);
            match out {
                Some(c) => {
                    memo.note(place, index, c);
                },
                None => {},
            }
            out
        },
    }
}

/// Once a pixel of a glyph was shaded, it is copied wherever the glyph stands.
pub proof fn law_a_shaded_pixel_is_copied(
    before: &GlyphMemo,
    after: &GlyphMemo,
    place: TilePlace,
    index: int,
    c: Rgba,
    elsewhere: TilePlace,
    x: i32,
    y: i32,
)
    requires
        noted(before, after, place, index, c),
        before.fits(place),
        elsewhere.key == place.key,
        elsewhere.local(x, y) == Some(index),
    ensures
        after.remembered(elsewhere.key, index) == Some(c),
{
}

/// A memo that remembers nothing fits every place, and remembering pixels changes for no
/// place whether it fits, but for a key that was not known: then it fits the places of the
/// size that it was first remembered with. So a glyph whose first pixel was remembered goes
/// on being remembered, pixel by pixel, and is copied from then on.
pub proof fn law_a_glyph_keeps_its_size(
    before: &GlyphMemo,
    after: &GlyphMemo,
    place: TilePlace,
    index: int,
    c: Rgba,
    other: TilePlace,
)
    requires
        noted(before, after, place, index, c),
    ensures
        after.fits(place) == before.fits(place),
        after.tiles@.contains_key(place.key),
        other.key != place.key || before.tiles@.contains_key(place.key) ==> after.fits(other)
            == before.fits(other),
        other.key == place.key && !before.tiles@.contains_key(place.key) ==> after.fits(other) == (
        other.w == place.w && other.h == place.h),
{
    if other.key != place.key {
        assert(after.tiles@.dom().contains(other.key) == before.tiles@.dom().contains(other.key));
    }
}

/// Every pixel of a glyph is remembered as it is shaded: after a second one, both are.
pub proof fn law_pixels_are_remembered_one_by_one(
    before: &GlyphMemo,
    between: &GlyphMemo,
    after: &GlyphMemo,
    place: TilePlace,
    first: int,
    c: Rgba,
    second: int,
    d: Rgba,
)
    requires
        before.fits(place),
        noted(before, between, place, first, c),
        noted(between, after, place, second, d),
        first != second,
    ensures
        after.fits(place),
        after.remembered(place.key, first) == Some(c),
        after.remembered(place.key, second) == Some(d),
{
    law_a_glyph_keeps_its_size(before, between, place, first, c, place);
    law_a_glyph_keeps_its_size(between, after, place, second, d, place);
}

/// Remembering a pixel forgets no other.
pub proof fn law_noting_forgets_nothing(
    before: &GlyphMemo,
    after: &GlyphMemo,
    place: TilePlace,
    index: int,
    c: Rgba,
    key: u64,
    i: int,
)
    requires
        noted(before, after, place, index, c),
        key != place.key || i != index,
    ensures
        after.remembered(key, i) == before.remembered(key, i),
{
}

/// The bytes of a size as it stands in memory: one word, or two on a wider machine.
pub open spec fn size_bytes(n: usize, order: ByteOrder) -> Seq<u8> {
    let low = (n as int % 0x1_0000_0000) as u32;
    let high = (n as int / 0x1_0000_0000) as u32;
    if usize::BITS == 32 {
        fragment::word_bytes(low, order)
    } else {
        match order {
            ByteOrder::Little => fragment::word_bytes(low, order) + fragment::word_bytes(
                high,
                order,
            ),
            ByteOrder::Big => fragment::word_bytes(high, order) + fragment::word_bytes(low, order),
        }
    }
}

/// The writes that make the key of a glyph: the bits of the varyings of its corners,
/// its place within the pixel, and its size.
pub open spec fn key_writes(
    varyings: Seq<F32>,
    v_off: int,
    count: nat,
    sub_x: i32,
    sub_y: i32,
    w: usize,
    h: usize,
    order: ByteOrder,
) -> Seq<Seq<u8>> {
    Seq::new(count, |i: int| fragment::word_bytes(varyings[v_off + i].bits, order)) + seq![
        fragment::word_bytes(sub_x as u32, order),
        fragment::word_bytes(sub_y as u32, order),
        size_bytes(w, order),
        size_bytes(h, order),
    ]
}

/// The key of a glyph: zero if the varyings of a corner are missing.
pub open spec fn key_of(
    varyings: Seq<F32>,
    v_off: int,
    varying_slots: int,
    vertex_count: int,
    sub_x: i32,
    sub_y: i32,
    w: usize,
    h: usize,
    order: ByteOrder,
) -> u64 {
    if vertex_count > 0 && v_off + vertex_count * varying_slots > varyings.len() {
        0
    } else {
        DefaultHasher::spec_finish(
            key_writes(
                varyings,
                v_off,
                (vertex_count * varying_slots) as nat,
                sub_x,
                sub_y,
                w,
                h,
                order,
            ),
        )
    }
}

fn write_word(hasher: &mut DefaultHasher, word: u32, order: ByteOrder)
    ensures
        final(hasher)@ == old(hasher)@.push(fragment::word_bytes(word, order)),
{
    let mut bytes: Vec<u8> = Vec::new();
    bytes.push(0);
    bytes.push(0);
    bytes.push(0);
    bytes.push(0);
    fragment::set_u32(&mut bytes, 0, word, order);
    assert(bytes@ =~= fragment::word_bytes(word, order));
    hasher.write(bytes.as_slice());
}

fn write_size(hasher: &mut DefaultHasher, n: usize, order: ByteOrder)
    ensures
        final(hasher)@ == old(hasher)@.push(size_bytes(n, order)),
{
    let low: u32 = (n as u64 % 0x1_0000_0000) as u32;
    let high: u32 = (n as u64 / 0x1_0000_0000) as u32;
    if usize::BITS == 32 {
        write_word(hasher, low, order);
        return;
    }
    let mut bytes = blank_bytes();
    match order {
        ByteOrder::Little => {
            fragment::set_u32(&mut bytes, 0, low, order);
            fragment::set_u32(&mut bytes, 4, high, order);
        },
        ByteOrder::Big => {
            fragment::set_u32(&mut bytes, 0, high, order);
            fragment::set_u32(&mut bytes, 4, low, order);
        },
    }
    assert(bytes@ =~= size_bytes(n, order));
    hasher.write(bytes.as_slice());
}

fn blank_bytes() -> (r: Vec<u8>)
    ensures
        r@.len() == 8,
{
    let mut v: Vec<u8> = Vec::new();
    v.push(0);
    v.push(0);
    v.push(0);
    v.push(0);
    v.push(0);
    v.push(0);
    v.push(0);
    v.push(0);
    v
}

/// The key of a glyph whose corners have their varyings from `v_off` on.
pub fn glyph_key(
    varyings: &Vec<F32>,
    v_off: usize,
    varying_slots: usize,
    vertex_count: usize,
    sub_x: i32,
    sub_y: i32,
    w: usize,
    h: usize,
    order: ByteOrder,
) -> (r: u64)
    ensures
        r == key_of(
            varyings@,
            v_off as int,
            varying_slots as int,
            vertex_count as int,
            sub_x,
            sub_y,
            w,
            h,
            order,
        ),
{
    proof {
        assert(0 <= vertex_count * varying_slots) by (nonlinear_arith);
        assert(0 * varying_slots == 0) by (nonlinear_arith);
    }
    let available: usize = varyings.len();
    let count: usize = match vertex_count.checked_mul(varying_slots) {
        Some(n) => n,
        None => {
            assert(vertex_count > 0);
            return 0;
        },
    };
    if vertex_count > 0 && (count > available || v_off > available - count) {
        return 0;
    }
    let mut hasher = DefaultHasher::new();
    let ghost all = key_writes(
        varyings@,
        v_off as int,
        count as nat,
        sub_x,
        sub_y,
        w,
        h,
        order,
    );
    let mut i: usize = 0;
    while i < count
        invariant
            i <= count,
            count > 0 ==> v_off + count <= varyings@.len(),
            varyings@.len() == available,
            hasher@ =~= Seq::new(
                i as nat,
                |j: int| fragment::word_bytes(varyings@[v_off + j].bits, order),
            ),
        decreases count - i,
    {
        write_word(&mut hasher, varyings[v_off + i].bits, order);
        i = i + 1;
    }
    write_word(&mut hasher, sub_x as u32, order);
    write_word(&mut hasher, sub_y as u32, order);
    write_size(&mut hasher, w, order);
    write_size(&mut hasher, h, order);
    assert(hasher@ =~= all);
    hasher.finish()
}

/// The side of a box that reaches from `start` to `end`: at least one pixel.
pub open spec fn side(start: i32, end: i32) -> int {
    if end - start < 1 {
        1
    } else {
        end - start
    }
}

/// Where a glyph stands and under which key it is remembered. Outsized glyphs are not:
/// they would take much memory and repeat rarely.
pub open spec fn place_of(
    bounds: GlyphBox,
    varyings: Seq<F32>,
    v_off: int,
    varying_slots: int,
    vertex_count: int,
    order: ByteOrder,
) -> Option<TilePlace> {
    let w = side(bounds.x0, bounds.x_end);
    let h = side(bounds.y0, bounds.y_end);
    let key = key_of(
        varyings,
        v_off,
        varying_slots,
        vertex_count,
        bounds.sub_x,
        bounds.sub_y,
        w as usize,
        h as usize,
        order,
    );
    if w <= MAX_TILE_SIDE && h <= MAX_TILE_SIDE && key != 0 {
        Some(TilePlace { key, x0: bounds.x0, y0: bounds.y0, w: w as usize, h: h as usize })
    } else {
        None
    }
}

/// Where a glyph stands and under which key it is remembered, if it is.
pub fn place_glyph(
    bounds: GlyphBox,
    varyings: &Vec<F32>,
    v_off: usize,
    varying_slots: usize,
    vertex_count: usize,
    order: ByteOrder,
) -> (r: Option<TilePlace>)
    ensures
        r == place_of(
            bounds,
            varyings@,
            v_off as int,
            varying_slots as int,
            vertex_count as int,
            order,
        ),
        r matches Some(p) ==> p.wf(),
{
    let across: i64 = bounds.x_end as i64 - bounds.x0 as i64;
    let down: i64 = bounds.y_end as i64 - bounds.y0 as i64;
    let w: i64 = if across < 1 {
        1
    } else {
        across
    };
    let h: i64 = if down < 1 {
        1
    } else {
        down
    };
    if w > 256 || h > 256 {
        return None;
    }
    let key: u64 = glyph_key(
        varyings,
        v_off,
        varying_slots,
        vertex_count,
        bounds.sub_x,
        bounds.sub_y,
        w as usize,
        h as usize,
        order,
    );
    if key == 0 {
        return None;
    }
    Some(TilePlace { key, x0: bounds.x0, y0: bounds.y0, w: w as usize, h: h as usize })
}

/// The bytes of a size stand for it, each for two hundred and fifty-six times what the one
/// below it stands for; sizes with the same bytes are the same.
pub proof fn law_sizes_are_told_apart(a: usize, b: usize, order: ByteOrder)
    requires
        size_bytes(a, order) == size_bytes(b, order),
    ensures
        a == b,
{
    let (la, ha) = ((a as int % 0x1_0000_0000) as u32, (a as int / 0x1_0000_0000) as u32);
    let (lb, hb) = ((b as int % 0x1_0000_0000) as u32, (b as int / 0x1_0000_0000) as u32);
    let (sa, sb) = (size_bytes(a, order), size_bytes(b, order));
    if usize::BITS == 32 {
        fragment::law_words_are_told_apart(la, lb, order);
    } else {
        assert(sa.len() == 8);
        let (front, back) = match order {
            ByteOrder::Little => ((la, lb), (ha, hb)),
            ByteOrder::Big => ((ha, hb), (la, lb)),
        };
        assert(sa.subrange(0, 4) =~= fragment::word_bytes(front.0, order));
        assert(sb.subrange(0, 4) =~= fragment::word_bytes(front.1, order));
        assert(sa.subrange(4, 8) =~= fragment::word_bytes(back.0, order));
        assert(sb.subrange(4, 8) =~= fragment::word_bytes(back.1, order));
        fragment::law_words_are_told_apart(front.0, front.1, order);
        fragment::law_words_are_told_apart(back.0, back.1, order);
    }
}

/// All that a glyph depends on goes into its key: if the same is written for two glyphs, they
/// agree in the bits of every varying of every corner, in their place within the pixel and in
/// their size.
pub proof fn law_the_key_tells_glyphs_apart(
    varyings: Seq<F32>,
    v_off: int,
    count: nat,
    sub: (i32, i32),
    size: (usize, usize),
    other_varyings: Seq<F32>,
    other_v_off: int,
    other_count: nat,
    other_sub: (i32, i32),
    other_size: (usize, usize),
    order: ByteOrder,
)
    requires
        key_writes(varyings, v_off, count, sub.0, sub.1, size.0, size.1, order) == key_writes(
            other_varyings,
            other_v_off,
            other_count,
            other_sub.0,
            other_sub.1,
            other_size.0,
            other_size.1,
            order,
        ),
    ensures
        count == other_count,
        forall|i: int|
            0 <= i < count ==> (#[trigger] varyings[v_off + i]).bits == other_varyings[other_v_off
                + i].bits,
        sub == other_sub,
        size == other_size,
{
    let a = key_writes(varyings, v_off, count, sub.0, sub.1, size.0, size.1, order);
    let b = key_writes(
        other_varyings,
        other_v_off,
        other_count,
        other_sub.0,
        other_sub.1,
        other_size.0,
        other_size.1,
        order,
    );
    assert(a.len() == count + 4 && b.len() == other_count + 4);
    assert forall|i: int| 0 <= i < count implies (#[trigger] varyings[v_off + i]).bits
        == other_varyings[other_v_off + i].bits by {
        assert(a[i] == b[i]);
        fragment::law_words_are_told_apart(
            varyings[v_off + i].bits,
            other_varyings[other_v_off + i].bits,
            order,
        );
    }
    let n = count as int;
    assert(a[n] == b[n] && a[n + 1] == b[n + 1] && a[n + 2] == b[n + 2] && a[n + 3] == b[n + 3]);
    fragment::law_words_are_told_apart(sub.0 as u32, other_sub.0 as u32, order);
    fragment::law_words_are_told_apart(sub.1 as u32, other_sub.1 as u32, order);
    lemma_signed_words(sub.0, other_sub.0);
    lemma_signed_words(sub.1, other_sub.1);
    law_sizes_are_told_apart(size.0, other_size.0, order);
    law_sizes_are_told_apart(size.1, other_size.1, order);
}

proof fn lemma_signed_words(a: i32, b: i32)
    requires
        a as u32 == b as u32,
    ensures
        a == b,
{
    assert(a as u32 == b as u32 ==> a == b) by (bit_vector);
}

/// The key of a glyph is the hash of what is written for all varyings of all its corners, its
/// place within the pixel and its size; it is zero if the varyings of a corner are missing.
pub proof fn law_every_corner_goes_into_the_key(
    varyings: Seq<F32>,
    v_off: int,
    varying_slots: nat,
    vertex_count: nat,
    sub: (i32, i32),
    size: (usize, usize),
    order: ByteOrder,
)
    requires
        vertex_count > 0,
    ensures
        v_off + vertex_count * varying_slots > varyings.len() ==> key_of(
            varyings,
            v_off,
            varying_slots as int,
            vertex_count as int,
            sub.0,
            sub.1,
            size.0,
            size.1,
            order,
        ) == 0,
        v_off + vertex_count * varying_slots <= varyings.len() ==> key_of(
            varyings,
            v_off,
            varying_slots as int,
            vertex_count as int,
            sub.0,
            sub.1,
            size.0,
            size.1,
            order,
        ) == DefaultHasher::spec_finish(
            key_writes(
                varyings,
                v_off,
                vertex_count * varying_slots,
                sub.0,
                sub.1,
                size.0,
                size.1,
                order,
            ),
        ),
{
}

/// Nothing else goes into the key: glyphs whose corners have the same varyings, wherever they
/// stand, have the same key if they have the same place within the pixel and the same size.
pub proof fn law_alike_glyphs_share_a_key(
    varyings: Seq<F32>,
    v_off: int,
    other_varyings: Seq<F32>,
    other_v_off: int,
    varying_slots: nat,
    vertex_count: nat,
    sub: (i32, i32),
    size: (usize, usize),
    order: ByteOrder,
)
    requires
        v_off + vertex_count * varying_slots <= varyings.len(),
        other_v_off + vertex_count * varying_slots <= other_varyings.len(),
        forall|i: int|
            0 <= i < vertex_count * varying_slots ==> (#[trigger] varyings[v_off + i]).bits
                == other_varyings[other_v_off + i].bits,
    ensures
        key_of(
            varyings,
            v_off,
            varying_slots as int,
            vertex_count as int,
            sub.0,
            sub.1,
            size.0,
            size.1,
            order,
        ) == key_of(
            other_varyings,
            other_v_off,
            varying_slots as int,
            vertex_count as int,
            sub.0,
            sub.1,
            size.0,
            size.1,
            order,
        ),
{
    let count = vertex_count * varying_slots;
    assert(key_writes(varyings, v_off, count, sub.0, sub.1, size.0, size.1, order) =~= key_writes(
        other_varyings,
        other_v_off,
        count,
        sub.0,
        sub.1,
        size.0,
        size.1,
        order,
    ));
}

/// A glyph stands where its box stands and has the size of its box, at least one pixel each
/// way. It is remembered, unless a side is longer than two hundred and fifty-six pixels or
/// it has no key; and its key is that of its varyings, its place within the pixel and its
/// size.
pub proof fn law_a_glyph_is_placed_in_its_box(
    bounds: GlyphBox,
    varyings: Seq<F32>,
    v_off: int,
    varying_slots: int,
    vertex_count: int,
    order: ByteOrder,
    w: usize,
    h: usize,
)
    requires
        w == if bounds.x_end > bounds.x0 { bounds.x_end - bounds.x0 } else { 1 },
        h == if bounds.y_end > bounds.y0 { bounds.y_end - bounds.y0 } else { 1 },
    ensures
        ({
            let key = key_of(
                varyings,
                v_off,
                varying_slots,
                vertex_count,
                bounds.sub_x,
                bounds.sub_y,
                w,
                h,
                order,
            );
            let place = place_of(bounds, varyings, v_off, varying_slots, vertex_count, order);
            &&& place is Some <==> w <= 256 && h <= 256 && key != 0
            &&& place matches Some(p) ==> p.key == key && p.x0 == bounds.x0 && p.y0 == bounds.y0
                && p.w == w && p.h == h
        }),
{
}

/// Every pixel of a glyph has a place of its own in it, wherever the glyph stands on screen;
/// a pixel outside of its box has none.
pub proof fn law_pixels_of_a_glyph_have_places_of_their_own(
    place: TilePlace,
    x: i32,
    y: i32,
    other: TilePlace,
    other_x: i32,
    other_y: i32,
)
    requires
        other.w == place.w,
        other.h == place.h,
    ensures
        place.local(x, y) is Some <==> place.x0 <= x < place.x0 + place.w && place.y0 <= y
            < place.y0 + place.h,
        place.local(x, y) matches Some(index) ==> 0 <= index < place.w * place.h,
        place.local(x, y) is Some && other.local(other_x, other_y) is Some ==> (place.local(x, y)
            == other.local(other_x, other_y) <==> x - place.x0 == other_x - other.x0 && y
            - place.y0 == other_y - other.y0),
{
    let (lx, ly) = (x - place.x0, y - place.y0);
    let (ox, oy) = (other_x - other.x0, other_y - other.y0);
    let (w, h) = (place.w as int, place.h as int);
    if 0 <= lx < w && 0 <= ly < h {
        assert(0 <= ly * w + lx < w * h) by (nonlinear_arith)
            requires
                0 <= lx < w,
                0 <= ly < h,
        ;
        if 0 <= ox < w && 0 <= oy < h {
            assert(ly * w + lx == oy * w + ox ==> lx == ox && ly == oy) by (nonlinear_arith)
                requires
                    0 <= lx < w,
                    0 <= ox < w,
            ;
        }
    }
}

/// A key is the hash of every varying of every corner, in their order, of the place within the
/// pixel and of the size; and zero where the varyings of a corner are missing.
pub proof fn law_a_key_is_made_of_every_corner(
    varyings: &Vec<F32>,
    v_off: usize,
    varying_slots: usize,
    vertex_count: usize,
    sub: (i32, i32),
    size: (usize, usize),
    order: ByteOrder,
    key: u64,
    written: Seq<Seq<u8>>,
)
    requires
        call_ensures(
            glyph_key,
            (
                varyings,
                v_off,
                varying_slots,
                vertex_count,
                sub.0,
                sub.1,
                size.0,
                size.1,
                order,
            ),
            key,
        ),
        vertex_count > 0,
        written.len() == vertex_count * varying_slots + 4,
        forall|i: int|
            0 <= i < vertex_count * varying_slots ==> #[trigger] written[i] == fragment::word_bytes(
                varyings@[v_off + i].bits,
                order,
            ),
        written[written.len() - 4] == fragment::word_bytes(sub.0 as u32, order),
        written[written.len() - 3] == fragment::word_bytes(sub.1 as u32, order),
        written[written.len() - 2] == size_bytes(size.0, order),
        written[written.len() - 1] == size_bytes(size.1, order),
    ensures
        v_off + vertex_count * varying_slots > varyings@.len() ==> key == 0,
        v_off + vertex_count * varying_slots <= varyings@.len() ==> key
            == DefaultHasher::spec_finish(written),
{
    let count = (vertex_count * varying_slots) as nat;
    assert(0 <= vertex_count * varying_slots) by (nonlinear_arith);
    let all = key_writes(
        varyings@,
        v_off as int,
        count,
        sub.0,
        sub.1,
        size.0,
        size.1,
        order,
    );
    assert(written =~= all);
}

/// A glyph that is remembered stands in its box, with the size of its box and the key of its
/// corners; it is remembered unless a side is longer than two hundred and fifty-six pixels or
/// its key is zero.
pub proof fn law_a_glyph_is_remembered_by_its_key(
    bounds: GlyphBox,
    varyings: &Vec<F32>,
    v_off: usize,
    varying_slots: usize,
    vertex_count: usize,
    order: ByteOrder,
    place: Option<TilePlace>,
    w: usize,
    h: usize,
    key: u64,
)
    requires
        call_ensures(
            place_glyph,
            (bounds, varyings, v_off, varying_slots, vertex_count, order),
            place,
        ),
        w == if bounds.x_end > bounds.x0 { bounds.x_end - bounds.x0 } else { 1 },
        h == if bounds.y_end > bounds.y0 { bounds.y_end - bounds.y0 } else { 1 },
        call_ensures(
            glyph_key,
            (
                varyings,
                v_off,
                varying_slots,
                vertex_count,
                bounds.sub_x,
                bounds.sub_y,
                w,
                h,
                order,
            ),
            key,
        ),
    ensures
        place is Some <==> w <= 256 && h <= 256 && key != 0,
        place matches Some(p) ==> p.key == key && p.x0 == bounds.x0 && p.y0 == bounds.y0 && p.w == w
            && p.h == h,
{
}

/// A pixel that was shaded in a glyph is copied wherever a glyph of that key stands, whatever
/// its shader would give there: the pixel at the same place in it. It is counted.
pub proof fn law_a_pixel_is_shaded_once<F: Fn(i32, i32, u32, u32) -> Option<Rgba>>(
    first: &mut GlyphMemo,
    place: TilePlace,
    x: i32,
    y: i32,
    lane: (u32, u32),
    shade: &F,
    shaded: Option<Rgba>,
    second: &mut GlyphMemo,
    elsewhere: TilePlace,
    other_x: i32,
    other_y: i32,
    other_lane: (u32, u32),
    other_shade: &F,
    copied: Option<Rgba>,
    c: Rgba,
)
    requires
        call_ensures(
            shade_glyph_pixel::<F>,
            (first, Some(place), x, y, lane.0, lane.1, shade),
            shaded,
        ),
        *old(second) == *final(first),
        call_ensures(
            shade_glyph_pixel::<F>,
            (
                second,
                Some(elsewhere),
                other_x,
                other_y,
                other_lane.0,
                other_lane.1,
                other_shade,
            ),
            copied,
        ),
        shaded == Some(c),
        place.x0 <= x < place.x0 + place.w,
        place.y0 <= y < place.y0 + place.h,
        elsewhere.key == place.key,
        elsewhere.w == place.w,
        elsewhere.h == place.h,
        other_x - elsewhere.x0 == x - place.x0,
        other_y - elsewhere.y0 == y - place.y0,
        old(first).tiles@.contains_key(place.key) ==> old(first).tiles@[place.key].w == place.w
            && old(first).tiles@[place.key].h == place.h,
    ensures
        copied == Some(c),
        final(second).tiles == final(first).tiles,
        final(second).hits == final(first).hits.wrapping_add(1),
        final(second).misses == final(first).misses,
{
    law_pixels_of_a_glyph_have_places_of_their_own(place, x, y, elsewhere, other_x, other_y);
    let index = place.local(x, y)->0;
    assert(final(first).remembered(place.key, index) == Some(c));
}

/// Without a glyph, and outside of its box, a pixel is just shaded; and a pixel that was not
/// shaded yet gets the colour that its shader gives.
pub proof fn law_other_pixels_are_just_shaded<F: Fn(i32, i32, u32, u32) -> Option<Rgba>>(
    memo: &mut GlyphMemo,
    place: Option<TilePlace>,
    x: i32,
    y: i32,
    lane: (u32, u32),
    shade: &F,
    r: Option<Rgba>,
)
    requires
        call_ensures(shade_glyph_pixel::<F>, (memo, place, x, y, lane.0, lane.1, shade), r),
        match place {
            Some(p) => !(p.x0 <= x < p.x0 + p.w && p.y0 <= y < p.y0 + p.h) || !old(
                memo,
            ).tiles@.contains_key(p.key),
            None => true,
        },
    ensures
        call_ensures(*shade, (x, y, lane.0, lane.1), r),
        final(memo).hits == old(memo).hits,
{
}

} // verus!
