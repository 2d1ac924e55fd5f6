use makepad_platform::single::{Rgba, F32};
use makepad_platform::virtual_gpu::{
    clip_text_fits, edge_pass, flatten_derivatives, headless_clip_rect, is_top_left,
    rasterize_triangle_rows, set_clip_suspended, set_damage_rect, triangle_window, winding, Band,
    ClipState, Extent, Framebuffer, PixelSample, RasterScratch, Rgba8, Shading, Triangle,
    TriangleDerivatives, Winding, Window,
};

fn s(v: f32) -> F32 {
    F32 { bits: v.to_bits() }
}

fn v(x: F32) -> f32 {
    f32::from_bits(x.bits)
}

fn rgba(r: f32, g: f32, b: f32, a: f32) -> Rgba {
    Rgba { r: s(r), g: s(g), b: s(b), a: s(a) }
}

fn to_bytes(c: Rgba) -> Rgba8 {
    let q = |x: F32| (v(x).clamp(0.0, 1.0) * 255.0 + 0.5) as u8;
    Rgba8 { r: q(c.r), g: q(c.g), b: q(c.b), a: q(c.a) }
}

#[test]
fn a_forced_clip_is_read_from_its_setting() {
    assert_eq!(headless_clip_rect(&ClipState::new(None)), None);
    assert_eq!(headless_clip_rect(&ClipState::new(Some("10,20,30,40"))), Some((10, 20, 40, 60)));
    assert_eq!(headless_clip_rect(&ClipState::new(Some(" 10 , -20,30, 40 "))), Some((10, -20, 40, 20)));
    assert_eq!(headless_clip_rect(&ClipState::new(Some("10,20,30"))), None);
    assert_eq!(headless_clip_rect(&ClipState::new(Some("10,20,30,40,50"))), None);
    assert_eq!(headless_clip_rect(&ClipState::new(Some("a,10,20,30,40"))), Some((10, 20, 40, 60)));
    assert!(!clip_text_fits("2147483647,0,1,1"));
    assert!(clip_text_fits("2147483646,0,1,1"));
    assert!(clip_text_fits("nothing"));
}

#[test]
fn a_suspended_clip_leaves_nothing_out() {
    let mut c = ClipState::new(Some("1,2,3,4"));
    set_damage_rect(&mut c, Some((9, 9, 10, 10)));
    assert_eq!(headless_clip_rect(&c), Some((1, 2, 4, 6)));
    set_clip_suspended(&mut c, true);
    assert_eq!(headless_clip_rect(&c), None);
    set_clip_suspended(&mut c, false);
    assert_eq!(headless_clip_rect(&c), Some((1, 2, 4, 6)));
    let mut c = ClipState::new(None);
    set_damage_rect(&mut c, Some((9, 9, 10, 10)));
    assert_eq!(headless_clip_rect(&c), Some((9, 9, 10, 10)));
    set_damage_rect(&mut c, None);
    assert_eq!(headless_clip_rect(&c), None);
}

#[test]
fn a_new_framebuffer_is_clear_and_far_away() {
    let fb = Framebuffer::new(3, 2);
    assert_eq!((fb.width, fb.height), (3, 2));
    assert_eq!(fb.color, vec![rgba(0.0, 0.0, 0.0, 0.0); 6]);
    assert_eq!(fb.depth, vec![s(1.0); 6]);
}

#[test]
fn clearing_a_rectangle_touches_nothing_else() {
    let red = rgba(1.0, 0.0, 0.0, 1.0);
    let mut fb = Framebuffer::new(4, 3);
    fb.clear_rect(red, s(0.5), 1, -5, 3, 2);
    for y in 0..3 {
        for x in 0..4 {
            let inside = (1..3).contains(&x) && y < 2;
            let i = y * 4 + x;
            assert_eq!(fb.color[i], if inside { red } else { rgba(0.0, 0.0, 0.0, 0.0) });
            assert_eq!(fb.depth[i], if inside { s(0.5) } else { s(1.0) });
        }
    }
    fb.clear_rect(red, s(0.25), 3, 2, 1, 9);
    assert_eq!(fb.depth.iter().filter(|d| **d == s(0.25)).count(), 0);
    fb.clear(red, s(0.125));
    assert_eq!(fb.color, vec![red; 12]);
    assert_eq!(fb.depth, vec![s(0.125); 12]);
}

#[test]
fn bytes_outside_of_the_clip_are_kept() {
    let mut fb = Framebuffer::new(2, 2);
    fb.clear(rgba(1.0, 0.5, 0.0, 1.0), s(1.0));
    assert_eq!(fb.to_rgba8(&to_bytes), [255, 128, 0, 255].repeat(4));
    let mut out = vec![7u8; 16];
    fb.to_rgba8_into(&mut out, Some((1, 0, 2, 1)), &to_bytes);
    assert_eq!(out, vec![7, 7, 7, 7, 255, 128, 0, 255, 7, 7, 7, 7, 7, 7, 7, 7]);
    let mut short = vec![7u8; 3];
    fb.to_rgba8_into(&mut short, Some((0, 1, 1, 2)), &to_bytes);
    assert_eq!(short, vec![0, 0, 0, 0, 0, 0, 0, 0, 255, 128, 0, 255, 0, 0, 0, 0]);
}

/// Without a clip, writing over old bytes gives what making them anew gives; with one, the
/// pixels in it are those, and the others stay.
#[test]
fn the_conversions_agree() {
    let mut fb = Framebuffer::new(3, 2);
    for (i, c) in fb.color.iter_mut().enumerate() {
        *c = rgba(i as f32 / 5.0, 0.5, 0.0, 1.0);
    }
    let anew = fb.to_rgba8(&to_bytes);
    for old in [vec![], vec![9u8; 24], vec![9u8; 7]] {
        let mut out = old.clone();
        fb.to_rgba8_into(&mut out, None, &to_bytes);
        assert_eq!(out, anew);
        let mut part = old.clone();
        fb.to_rgba8_into(&mut part, Some((1, 0, 9, 1)), &to_bytes);
        let rest = if old.len() == 24 { 9 } else { 0 };
        for i in 0..24 {
            assert_eq!(part[i], if (4..12).contains(&i) { anew[i] } else { rest });
        }
    }
}

#[test]
fn triangles_have_a_winding() {
    assert_eq!(winding(s(0.0)), Winding::Degenerate);
    assert_eq!(winding(s(f32::EPSILON)), Winding::Degenerate);
    assert_eq!(winding(s(-f32::EPSILON)), Winding::Degenerate);
    assert_eq!(winding(s(1.0e-6)), Winding::Forward);
    assert_eq!(winding(s(-1.0e-6)), Winding::Backward);
    assert_eq!(winding(s(f32::NAN)), Winding::Forward);
}

#[test]
fn pixels_on_an_edge_belong_to_top_and_left_edges() {
    assert!(is_top_left(s(5.0), s(1.0)));
    assert!(is_top_left(s(-1.0), s(0.0)));
    assert!(is_top_left(s(-1.0), s(-0.0)));
    assert!(!is_top_left(s(1.0), s(0.0)));
    assert!(!is_top_left(s(-5.0), s(-1.0)));
    assert!(!is_top_left(s(0.0), s(0.0)));
    for e in [-1.0f32, -1.0e-6, -1.1e-6, -0.9e-6, -0.0, 0.0, 1.0e-9, 3.0] {
        for tl in [false, true] {
            let want = if e < -1.0e-6 { false } else if e > 0.0 { true } else { tl };
            assert_eq!(edge_pass(s(e), tl), want);
        }
    }
}

#[test]
fn a_walk_visits_the_visible_part_of_a_box() {
    let e = Extent { min_x: -3, min_y: 2, max_x: 9, max_y: 20 };
    assert_eq!(
        triangle_window(e, 8, 0, 16, None),
        Some(Window { left: 0, top: 2, right: 8, bottom: 16 })
    );
    assert_eq!(
        triangle_window(e, 8, 4, 8, None),
        Some(Window { left: 0, top: 0, right: 8, bottom: 4 })
    );
    assert_eq!(
        triangle_window(e, 8, 0, 16, Some((2, 0, 5, 4))),
        Some(Window { left: 2, top: 2, right: 5, bottom: 4 })
    );
    assert_eq!(triangle_window(e, 8, 0, 2, None), None);
    assert_eq!(triangle_window(e, 8, 0, 16, Some((20, 0, 30, 30))), None);
    let all = Extent { min_x: i32::MIN, min_y: i32::MIN, max_x: i32::MAX, max_y: i32::MAX };
    assert_eq!(
        triangle_window(all, 2, 0, 2, None),
        Some(Window { left: 0, top: 0, right: 2, bottom: 2 })
    );
}

fn whole() -> Triangle {
    Triangle {
        area: s(10.0),
        extent: Extent { min_x: 0, min_y: 0, max_x: 3, max_y: 3 },
        top_left: (true, true, true),
        vary_lens: (0, 0, 0),
    }
}

fn everywhere(_: u8, _: i32, _: i32) -> PixelSample {
    PixelSample { e0: s(1.0), e1: s(1.0), e2: s(1.0), depth: s(0.5) }
}

fn over(c: Rgba, d: Rgba) -> Rgba {
    let k = 1.0 - v(c.a);
    rgba(
        v(c.r) + v(d.r) * k,
        v(c.g) + v(d.g) * k,
        v(c.b) + v(d.b) * k,
        v(c.a) + v(d.a) * k,
    )
}

#[test]
fn an_opaque_triangle_covers_what_lies_behind() {
    let band = Band { width: 4, height: 4, row_start: 0, row_end: 4 };
    let mut fb = Framebuffer::new(4, 4);
    fb.depth[5] = s(0.25);
    let green = rgba(0.0, 1.0, 0.0, 1.0);
    let counts = rasterize_triangle_rows(
        band,
        fb.color.as_mut_slice(),
        fb.depth.as_mut_slice(),
        whole(),
        None,
        0u8,
        &everywhere,
        &|_k: u8, _x: i32, _y: i32, _lx: u32, _ly: u32| Shading::Colored(green),
        &over,
    );
    assert_eq!((counts.tested, counts.shaded), (16, 15));
    for i in 0..16 {
        assert_eq!(fb.color[i] == green, i != 5);
        assert_eq!(fb.depth[i], if i == 5 { s(0.25) } else { s(0.5) });
    }
}

#[test]
fn what_is_all_but_transparent_hides_nothing() {
    let band = Band { width: 4, height: 4, row_start: 0, row_end: 4 };
    let mut fb = Framebuffer::new(4, 4);
    let faint = rgba(0.02, 0.02, 0.02, 0.02);
    rasterize_triangle_rows(
        band,
        fb.color.as_mut_slice(),
        fb.depth.as_mut_slice(),
        whole(),
        None,
        0u8,
        &everywhere,
        &|_k: u8, _x: i32, _y: i32, _lx: u32, _ly: u32| Shading::Colored(faint),
        &over,
    );
    assert_eq!(fb.depth, vec![s(1.0); 16]);
    assert_eq!(fb.color, vec![faint; 16]);
}

#[test]
fn skipped_and_discarded_pixels_stay() {
    let band = Band { width: 4, height: 4, row_start: 0, row_end: 4 };
    let mut fb = Framebuffer::new(4, 4);
    let counts = rasterize_triangle_rows(
        band,
        fb.color.as_mut_slice(),
        fb.depth.as_mut_slice(),
        whole(),
        None,
        0u8,
        &everywhere,
        &|_k: u8, x: i32, y: i32, lx: u32, ly: u32| {
            assert_eq!((lx, ly), (x as u32 % 2, y as u32 % 2));
            if x < 2 { Shading::Skipped } else { Shading::Discarded }
        },
        &over,
    );
    assert_eq!((counts.tested, counts.shaded), (16, 8));
    assert_eq!(fb.color, Framebuffer::new(4, 4).color);
    assert_eq!(fb.depth, Framebuffer::new(4, 4).depth);
}

#[test]
fn nothing_is_painted_of_a_triangle_that_is_none() {
    let band = Band { width: 4, height: 4, row_start: 0, row_end: 4 };
    for t in [
        Triangle { area: s(0.0), ..whole() },
        Triangle { vary_lens: (1, 1, 2), ..whole() },
        Triangle { extent: Extent { min_x: 4, min_y: 0, max_x: 9, max_y: 3 }, ..whole() },
    ] {
        let mut fb = Framebuffer::new(4, 4);
        let counts = rasterize_triangle_rows(
            band,
            fb.color.as_mut_slice(),
            fb.depth.as_mut_slice(),
            t,
            None,
            0u8,
            &everywhere,
            &|_k: u8, _x: i32, _y: i32, _lx: u32, _ly: u32| Shading::Discarded,
            &over,
        );
        assert_eq!((counts.tested, counts.shaded), (0, 0));
    }
    let mut short = vec![rgba(0.0, 0.0, 0.0, 0.0); 15];
    let mut depth = vec![s(1.0); 16];
    let counts = rasterize_triangle_rows(
        band,
        short.as_mut_slice(),
        depth.as_mut_slice(),
        whole(),
        None,
        0u8,
        &everywhere,
        &|_k: u8, _x: i32, _y: i32, _lx: u32, _ly: u32| Shading::Discarded,
        &over,
    );
    assert_eq!(counts.tested, 0);
}

#[test]
fn bands_and_clips_change_no_pixel() {
    let shade = |_k: u8, x: i32, y: i32, _lx: u32, _ly: u32| {
        Shading::Colored(rgba(x as f32 / 8.0, y as f32 / 8.0, 0.5, 1.0))
    };
    let mut full = Framebuffer::new(4, 4);
    rasterize_triangle_rows(
        Band { width: 4, height: 4, row_start: 0, row_end: 4 },
        full.color.as_mut_slice(),
        full.depth.as_mut_slice(),
        whole(),
        None,
        0u8,
        &everywhere,
        &shade,
        &over,
    );
    let mut banded = Framebuffer::new(4, 4);
    for (from, to) in [(0usize, 1usize), (1, 3), (3, 4)] {
        rasterize_triangle_rows(
            Band { width: 4, height: 4, row_start: from, row_end: to },
            &mut banded.color[from * 4..to * 4],
            &mut banded.depth[from * 4..to * 4],
            whole(),
            None,
            0u8,
            &everywhere,
            &shade,
            &over,
        );
    }
    assert_eq!(banded.color, full.color);
    assert_eq!(banded.depth, full.depth);
    let mut clipped = Framebuffer::new(4, 4);
    rasterize_triangle_rows(
        Band { width: 4, height: 4, row_start: 0, row_end: 4 },
        clipped.color.as_mut_slice(),
        clipped.depth.as_mut_slice(),
        whole(),
        Some((1, 1, 3, 2)),
        0u8,
        &everywhere,
        &shade,
        &over,
    );
    for i in 0..16 {
        let inside = i == 5 || i == 6;
        assert_eq!(clipped.color[i], if inside { full.color[i] } else { rgba(0.0, 0.0, 0.0, 0.0) });
    }
}

#[test]
fn buffers_grow_and_flat_slots_are_held() {
    let mut scratch = RasterScratch::default();
    scratch.ensure_vary_len(3, false);
    assert_eq!(scratch.interp, vec![s(0.0); 3]);
    assert_eq!(scratch.interp_dx.len(), 0);
    scratch.ensure_vary_len(2, true);
    assert_eq!(scratch.interp.len(), 3);
    assert_eq!(scratch.interp_dx.len(), 2);
    assert_eq!(scratch.derivs.dvary_dy.len(), 2);
    scratch.interp = vec![s(1.0), s(2.0), s(3.0)];
    scratch.hold_flat_slots(&[s(9.0), s(8.0), s(7.0)], 2);
    assert_eq!(scratch.interp, vec![s(9.0), s(8.0), s(3.0)]);
    let mut d = TriangleDerivatives { dvary_dx: vec![s(1.0); 3], dvary_dy: vec![s(2.0); 3] };
    flatten_derivatives(&mut d, 1);
    assert_eq!(d.dvary_dx, vec![s(0.0), s(1.0), s(1.0)]);
    assert_eq!(d.dvary_dy, vec![s(0.0), s(2.0), s(2.0)]);
}

#[test]
fn singles_compare_by_their_bits() {
    let values = [f32::NEG_INFINITY, -1e30, -2.0, -0.0, 0.0, 1e-40, 1.0, f32::INFINITY];
    for a in values {
        for b in values {
            assert_eq!(s(a).exceeds(s(b)), a > b);
        }
        assert_eq!(s(a).is_within(s(1.0)), a.abs() <= 1.0);
        assert!(!s(a).exceeds(s(f32::NAN)));
    }
    assert!(s(f32::NAN).is_nan());
    assert!(!s(f32::NAN).is_within(s(f32::INFINITY)));
}
