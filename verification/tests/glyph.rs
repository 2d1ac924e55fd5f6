use makepad_platform::fragment::ByteOrder;
use makepad_platform::glyph::{glyph_key, place_glyph, shade_glyph_pixel, GlyphBox, GlyphMemo, TilePlace};
use makepad_platform::single::{Rgba, F32};
use std::cell::Cell;

fn s(v: f32) -> F32 {
    F32 { bits: v.to_bits() }
}

fn gray(v: f32) -> Rgba {
    Rgba { r: s(v), g: s(v), b: s(v), a: s(1.0) }
}

fn place(key: u64, x0: i32, y0: i32) -> TilePlace {
    TilePlace { key, x0, y0, w: 4, h: 3 }
}

#[test]
fn a_pixel_of_a_glyph_is_shaded_once() {
    let calls = Cell::new(0);
    let shade = |x: i32, y: i32, _lx: u32, _ly: u32| {
        calls.set(calls.get() + 1);
        Some(gray((x + 10 * y) as f32))
    };
    let mut memo = GlyphMemo::default();
    let first = shade_glyph_pixel(&mut memo, Some(place(7, 100, 200)), 102, 201, 0, 1, &shade);
    assert_eq!(first, Some(gray(2112.0)));
    assert_eq!(calls.get(), 1);
    let again = shade_glyph_pixel(&mut memo, Some(place(7, 500, 600)), 502, 601, 0, 1, &shade);
    assert_eq!(again, first);
    assert_eq!(calls.get(), 1);
    assert_eq!((memo.hits, memo.misses), (1, 1));
    shade_glyph_pixel(&mut memo, Some(place(7, 500, 600)), 503, 601, 1, 1, &shade);
    shade_glyph_pixel(&mut memo, Some(place(8, 500, 600)), 502, 601, 0, 1, &shade);
    assert_eq!(calls.get(), 3);
}

/// Every pixel of a glyph is kept, also of one that is not square: all are copied the second
/// time.
#[test]
fn a_glyph_is_copied_pixel_by_pixel() {
    let calls = Cell::new(0usize);
    let shade = |x: i32, y: i32, _lx: u32, _ly: u32| {
        calls.set(calls.get() + 1);
        Some(gray((x + 10 * y) as f32))
    };
    let mut memo = GlyphMemo::default();
    let mut first = Vec::new();
    for y in 0..3 {
        for x in 0..4 {
            first.push(shade_glyph_pixel(&mut memo, Some(place(7, 0, 0)), x, y, 0, 0, &shade));
        }
    }
    assert_eq!(calls.get(), 12);
    assert_eq!((memo.tiles[&7].w, memo.tiles[&7].h, memo.tiles[&7].px.len()), (4, 3, 12));
    let mut second = Vec::new();
    for y in 0..3 {
        for x in 0..4 {
            second.push(shade_glyph_pixel(&mut memo, Some(place(7, 50, 60)), 50 + x, 60 + y, 0, 0, &shade));
        }
    }
    assert_eq!(second, first);
    assert_eq!((calls.get(), memo.hits, memo.misses), (12, 12, 12));
    let wider = TilePlace { w: 5, ..place(7, 0, 0) };
    for _ in 0..2 {
        shade_glyph_pixel(&mut memo, Some(wider), 4, 2, 0, 0, &shade);
    }
    assert_eq!((calls.get(), memo.tiles[&7].w), (14, 4));
}

#[test]
fn outside_of_its_box_a_glyph_is_not_remembered() {
    let calls = Cell::new(0);
    let shade = |_x: i32, _y: i32, _lx: u32, _ly: u32| {
        calls.set(calls.get() + 1);
        Some(gray(0.5))
    };
    let mut memo = GlyphMemo::default();
    for _ in 0..2 {
        shade_glyph_pixel(&mut memo, Some(place(7, 100, 200)), 104, 200, 0, 0, &shade);
        shade_glyph_pixel(&mut memo, Some(place(7, 100, 200)), 99, 200, 1, 0, &shade);
        shade_glyph_pixel(&mut memo, None, 100, 200, 0, 0, &shade);
    }
    assert_eq!(calls.get(), 6);
}

#[test]
fn a_key_is_made_of_all_that_a_glyph_depends_on() {
    let v = vec![s(1.0), s(2.0), s(3.0), s(4.0), s(5.0)];
    let key = |v: &Vec<F32>, off, sx, sy, w, h| glyph_key(v, off, 2, 2, sx, sy, w, h, ByteOrder::Little);
    let base = key(&v, 0, 1, 2, 8, 9);
    assert_ne!(base, 0);
    assert_eq!(base, key(&v, 0, 1, 2, 8, 9));
    for other in [
        key(&v, 1, 1, 2, 8, 9),
        key(&v, 0, 2, 2, 8, 9),
        key(&v, 0, 1, 3, 8, 9),
        key(&v, 0, 1, 2, 7, 9),
        key(&v, 0, 1, 2, 8, 8),
    ] {
        assert_ne!(base, other);
    }
    let mut w = v.clone();
    w[4] = s(9.0);
    assert_eq!(base, key(&w, 0, 1, 2, 8, 9));
    assert_eq!(key(&v, 2, 1, 2, 8, 9), 0);
    assert_eq!(glyph_key(&v, 0, usize::MAX, 2, 0, 0, 1, 1, ByteOrder::Little), 0);
}

#[test]
fn outsized_glyphs_have_no_place() {
    let v = vec![s(1.0); 8];
    let at = |x_end, y_end| {
        let b = GlyphBox { x0: 10, y0: 20, x_end, y_end, sub_x: 3, sub_y: 4 };
        place_glyph(b, &v, 0, 2, 4, ByteOrder::Little)
    };
    let p = at(266, 30).unwrap();
    assert_eq!((p.x0, p.y0, p.w, p.h), (10, 20, 256, 10));
    assert_eq!(p.key, glyph_key(&v, 0, 2, 4, 3, 4, 256, 10, ByteOrder::Little));
    assert!(at(267, 30).is_none());
    assert!(at(20, 277).is_none());
    let thin = at(10, 5).unwrap();
    assert_eq!((thin.w, thin.h), (1, 1));
    let b = GlyphBox { x0: 0, y0: 0, x_end: 4, y_end: 4, sub_x: 0, sub_y: 0 };
    assert!(place_glyph(b, &v, 1, 2, 4, ByteOrder::Little).is_none());
}
