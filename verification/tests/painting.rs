use makepad_platform::chunks::band_ranges;
use makepad_platform::draw_plan::{
    headless_draw_pass, lists_are_sound, painting_order, uniform_table, vertex_run, DrawPlan,
    DrawSizes, DrawStep, GeometrySizes, ItemKind, RenderList, ShaderCode, ShaderState, UniformSource,
    UniformType,
};
use makepad_platform::instances::{rasterize_instances_rows, Corners, Mesh};
use makepad_platform::single::{Rgba, F32};
use makepad_platform::view::{
    headless_render_view, headless_texture_steps, paint_band, shade_vertices, BandPixels, DrawCallState, Position, ViewConfig,
};
use makepad_platform::virtual_gpu::{Band, Extent, Framebuffer, PixelSample, Shading, Triangle};
use std::cell::RefCell;

fn s(v: f32) -> F32 {
    F32 { bits: v.to_bits() }
}

fn list(kinds: &[ItemKind], reset_zbias: bool) -> RenderList {
    RenderList {
        order: (0..kinds.len()).map(Some).collect(),
        items: kinds.to_vec(),
        reset_zbias,
    }
}

fn step(list: usize, item: usize, zbias: usize) -> DrawStep {
    DrawStep { list, item, zbias }
}

#[test]
fn draw_calls_are_painted_in_order_with_their_bias() {
    let lists = vec![
        list(&[ItemKind::DrawCall, ItemKind::SubList(1), ItemKind::Empty, ItemKind::DrawCall], false),
        list(&[ItemKind::DrawCall, ItemKind::DrawCall], false),
    ];
    assert!(lists_are_sound(&lists));
    assert_eq!(
        painting_order(&lists, 0),
        vec![step(0, 0, 0), step(1, 0, 1), step(1, 1, 2), step(0, 3, 3)]
    );
    assert_eq!(painting_order(&lists, 1), vec![step(1, 0, 0), step(1, 1, 1)]);
}

#[test]
fn a_list_that_starts_its_bias_again_leaves_the_count_alone() {
    let lists = vec![
        list(&[ItemKind::DrawCall, ItemKind::SubList(1), ItemKind::DrawCall], false),
        list(&[ItemKind::DrawCall, ItemKind::DrawCall], true),
    ];
    assert_eq!(
        painting_order(&lists, 0),
        vec![step(0, 0, 0), step(1, 0, 0), step(1, 1, 1), step(0, 2, 1)]
    );
}

#[test]
fn vacant_places_are_passed_over_and_order_counts() {
    let mut l = list(&[ItemKind::DrawCall, ItemKind::DrawCall], false);
    l.order = vec![Some(1), None, Some(0)];
    let lists = vec![l];
    assert_eq!(painting_order(&lists, 0), vec![step(0, 1, 0), step(0, 0, 1)]);
}

#[test]
fn lists_that_contain_themselves_are_not_sound() {
    assert!(!lists_are_sound(&vec![list(&[ItemKind::SubList(0)], false)]));
    assert!(!lists_are_sound(&vec![
        list(&[ItemKind::SubList(1)], false),
        list(&[ItemKind::SubList(0)], false),
    ]));
    assert!(!lists_are_sound(&vec![list(&[ItemKind::SubList(7)], false)]));
    let mut l = list(&[ItemKind::DrawCall], false);
    l.order = vec![Some(3)];
    assert!(!lists_are_sound(&vec![l]));
    assert!(lists_are_sound(&vec![
        list(&[ItemKind::SubList(1), ItemKind::SubList(1)], false),
        list(&[ItemKind::DrawCall], false),
    ]));
}

#[test]
fn a_pass_without_a_list_paints_nothing() {
    let lists = vec![list(&[ItemKind::DrawCall], false)];
    let none = headless_draw_pass(&lists, None, Some("4"));
    assert_eq!((none.steps.len(), none.bands), (0, None));
    let banded = headless_draw_pass(&lists, Some(0), Some("4"));
    assert_eq!((banded.steps.len(), banded.bands), (1, Some(4)));
    assert_eq!(headless_draw_pass(&lists, Some(0), None).bands, None);
}

fn shader(fragment: &str) -> ShaderState {
    ShaderState {
        code: ShaderCode::Separate { vertex: "v".to_string(), fragment: fragment.to_string() },
        os_shader_id: Some(0),
        module_loaded: true,
        has_vertex_entry: true,
        has_fragment_entry: true,
        rcx_size: 64,
    }
}

#[test]
fn a_shader_is_ready_when_all_of_it_is_there() {
    assert!(shader("x").is_ready(None));
    assert!(shader("x").is_ready(Some("anything")));
    assert!(!shader("x").is_ready(Some("draw_text")));
    assert!(shader("let c = sample_text_pixel(p);").is_ready(Some("draw_text")));
    assert!(ShaderCode::Combined("..sample_text_pixel..".to_string()).is_draw_text_shader());
    let vertex_only = ShaderCode::Separate {
        vertex: "sample_text_pixel".to_string(),
        fragment: "x".to_string(),
    };
    assert!(!vertex_only.is_draw_text_shader());
    let mut broken = vec![shader("x"), shader("x"), shader("x"), shader("x"), shader("x")];
    broken[0].os_shader_id = None;
    broken[1].module_loaded = false;
    broken[2].has_vertex_entry = false;
    broken[3].has_fragment_entry = false;
    broken[4].rcx_size = 0;
    for b in &broken {
        assert!(!b.is_ready(None));
    }
}

fn sizes() -> DrawSizes {
    DrawSizes {
        geometry: Some(GeometrySizes { vertices: 9, indices: 7 }),
        instances: Some(11),
        instance_slots: 4,
        geom_slots: 2,
        varying_slots: 3,
    }
}

#[test]
fn a_draw_call_without_anything_to_paint_has_no_plan() {
    assert_eq!(
        sizes().make_plan(),
        Some(DrawPlan { instance_count: 2, vertex_count: 4, tri_count: 2 })
    );
    for none in [
        DrawSizes { geometry: None, ..sizes() },
        DrawSizes { geometry: Some(GeometrySizes { vertices: 0, indices: 7 }), ..sizes() },
        DrawSizes { geometry: Some(GeometrySizes { vertices: 9, indices: 2 }), ..sizes() },
        DrawSizes { geometry: Some(GeometrySizes { vertices: 1, indices: 7 }), ..sizes() },
        DrawSizes { instances: None, ..sizes() },
        DrawSizes { instances: Some(3), ..sizes() },
        DrawSizes { instance_slots: 0, ..sizes() },
        DrawSizes { geom_slots: 0, ..sizes() },
    ] {
        assert_eq!(none.make_plan(), None);
    }
}

#[test]
fn vertices_have_places_of_their_own() {
    let plan = sizes().make_plan().unwrap();
    let run = vertex_run(sizes(), plan, 1, 3);
    assert_eq!((run.inst_start, run.inst_end), (4, 8));
    assert_eq!((run.geom_start, run.geom_end), (6, 8));
    assert_eq!(run.shaded_index, 7);
    assert_eq!((run.vary_start, run.vary_end), (21, 24));
}

#[test]
fn vertices_are_shaded_instance_by_instance() {
    let plan = sizes().make_plan().unwrap();
    let shaded = shade_vertices(sizes(), plan, &|run| {
        let p = Position {
            x: s(run.inst_start as f32),
            y: s(run.geom_start as f32),
            z: s(0.0),
            w: s(1.0),
        };
        (p, vec![s(run.shaded_index as f32); 3])
    });
    assert_eq!(shaded.positions.len(), 8);
    assert_eq!(shaded.varyings.len(), 24);
    assert_eq!(shaded.positions[5], Position { x: s(4.0), y: s(2.0), z: s(0.0), w: s(1.0) });
    assert_eq!(shaded.varyings[15..18], [s(5.0), s(5.0), s(5.0)]);
}

#[test]
fn uniforms_stand_at_their_places() {
    let t = uniform_table(
        &vec![
            (UniformType::DrawPassUniforms, 1),
            (UniformType::DrawCallUniforms, 0),
            (UniformType::Unknown, 2),
            (UniformType::DrawListUniforms, 20),
        ],
        false,
    );
    assert_eq!(t.count, 16);
    assert_eq!(t.slots[0], Some(UniformSource::DrawCall));
    assert_eq!(t.slots[1], Some(UniformSource::DrawPass));
    assert_eq!(t.slots[2], None);
    let t = uniform_table(&vec![(UniformType::DrawListUniforms, 2)], true);
    assert_eq!(t.count, 5);
    assert_eq!(
        t.slots[0..6],
        [
            None,
            None,
            Some(UniformSource::DrawList),
            Some(UniformSource::Dynamic),
            Some(UniformSource::Scope),
            None
        ]
    );
    let t = uniform_table(&vec![], false);
    assert_eq!(t.count, 2);
    assert_eq!(t.slots[1], Some(UniformSource::Dynamic));
}

fn call(fragment: &str) -> Option<DrawCallState> {
    Some(DrawCallState {
        shader: shader(fragment),
        sizes: sizes(),
        uses_derivatives: true,
        flat_varying_slots: 9,
    })
}

#[test]
fn a_view_paints_what_is_ready() {
    let lists = vec![list(
        &[ItemKind::DrawCall, ItemKind::DrawCall, ItemKind::DrawCall, ItemKind::DrawCall],
        false,
    )];
    let mut unready = call("x");
    unready.as_mut().unwrap().shader.module_loaded = false;
    let calls = vec![vec![call("x"), unready, None, call("sample_text_pixel")]];
    let config = ViewConfig {
        height: 720,
        render_threads: 4,
        parallel_min_tris: 4,
        has_pool: true,
        no_derivatives: false,
    };
    let planned = headless_render_view(&lists, 0, &calls, None, config);
    assert_eq!(planned.len(), 2);
    assert_eq!(planned[0].step, step(0, 0, 0));
    assert_eq!(planned[1].step, step(0, 3, 3));
    assert!(!planned[0].draws_text && planned[1].draws_text);
    assert!(planned[0].parallel && planned[0].uses_derivatives);
    assert_eq!(planned[0].flat_slots, 3);
    let textured = headless_texture_steps(&lists, 0, &calls, None);
    assert!(planned.iter().all(|p| textured.contains(&p.step)));
    assert_eq!(headless_texture_steps(&lists, 0, &calls, Some("draw_text")), vec![step(0, 3, 3)]);
    let text = headless_render_view(&lists, 0, &calls, Some("draw_text"), config);
    assert_eq!(text.len(), 1);
    assert_eq!(text[0].step, step(0, 3, 3));
    let serial = headless_render_view(
        &lists,
        0,
        &calls,
        None,
        ViewConfig { parallel_min_tris: 5, no_derivatives: true, ..config },
    );
    assert!(!serial[0].parallel && !serial[0].uses_derivatives);
    let low = headless_render_view(&lists, 0, &calls, None, ViewConfig { height: 63, ..config });
    assert!(!low[0].parallel);
}

#[test]
fn a_band_gets_all_draw_calls_in_order() {
    let seen: RefCell<Vec<usize>> = RefCell::new(Vec::new());
    let band = Band { width: 1, height: 4, row_start: 2, row_end: 3 };
    let start = BandPixels {
        colors: vec![Rgba { r: s(0.0), g: s(0.0), b: s(0.0), a: s(0.0) }],
        depths: vec![s(1.0)],
    };
    let end = paint_band(band, start, 3, &|job, b: Band, mut p: BandPixels| {
        assert_eq!(b.row_start, 2);
        seen.borrow_mut().push(job);
        p.depths[0] = s(job as f32);
        p
    });
    assert_eq!(*seen.borrow(), vec![0, 1, 2]);
    assert_eq!(end.depths, vec![s(2.0)]);
}

fn mesh() -> Mesh {
    Mesh { vertex_count: 4, varying_slots: 2, positions: 8, varyings: 16 }
}

#[test]
fn triangles_with_missing_corners_are_left_out() {
    let t = mesh().collect_triangles(&vec![0, 1, 2, 2, 1, 4, 1, 2, 3, 0], 2);
    let names: Vec<(usize, usize, usize, usize)> =
        t.iter().map(|c| (c.instance, c.v0, c.v1, c.v2)).collect();
    assert_eq!(names, vec![(0, 0, 1, 2), (0, 1, 2, 3), (1, 4, 5, 6), (1, 5, 6, 7)]);
    assert_eq!((t[3].vary0, t[3].vary1, t[3].vary2), (10, 12, 14));
    let short = Mesh { varyings: 15, ..mesh() };
    assert_eq!(short.collect_triangles(&vec![1, 2, 3], 2).len(), 1);
    let few = Mesh { positions: 6, ..mesh() };
    assert_eq!(few.collect_triangles(&vec![0, 1, 2], 2).len(), 1);
}

fn paint(band: Band, color: &mut [Rgba], depth: &mut [F32], clip: Option<(i32, i32, i32, i32)>) -> (u64, u64) {
    let counts = rasterize_instances_rows(
        band,
        color,
        depth,
        &vec![0, 1, 2],
        2,
        mesh(),
        clip,
        &|c: Corners| Triangle {
            area: s(4.0),
            extent: Extent {
                min_x: 2 * c.instance as i32,
                min_y: 0,
                max_x: 2 * c.instance as i32 + 2,
                max_y: 9,
            },
            top_left: (true, true, true),
            vary_lens: (2, 2, 2),
        },
        &|c: Corners, _x: i32, y: i32| PixelSample {
            e0: s(if y < 5 { 1.0 } else { -1.0 }),
            e1: s(1.0),
            e2: s(1.0),
            depth: s(0.5 - 0.1 * c.instance as f32),
        },
        &|c: Corners, x: i32, _y: i32, _lx: u32, _ly: u32| {
            Shading::Colored(Rgba { r: s(c.instance as f32), g: s(x as f32), b: s(0.0), a: s(1.0) })
        },
        &|c: Rgba, _d: Rgba| c,
    );
    (counts.tested, counts.shaded)
}

#[test]
fn later_instances_lie_over_earlier_ones() {
    let mut fb = Framebuffer::new(5, 6);
    let band = Band { width: 5, height: 6, row_start: 0, row_end: 6 };
    let counts = paint(band, &mut fb.color, &mut fb.depth, None);
    assert_eq!(counts, (36, 30));
    assert_eq!(fb.color[2], Rgba { r: s(1.0), g: s(2.0), b: s(0.0), a: s(1.0) });
    assert_eq!(fb.color[1], Rgba { r: s(0.0), g: s(1.0), b: s(0.0), a: s(1.0) });
    assert_eq!(fb.depth[2], s(0.5 - 0.1));
    assert_eq!(fb.depth[25], s(1.0));
}

#[test]
fn bands_and_clips_give_the_pixels_of_the_whole() {
    let mut full = Framebuffer::new(5, 6);
    paint(Band { width: 5, height: 6, row_start: 0, row_end: 6 }, &mut full.color, &mut full.depth, None);
    let mut banded = Framebuffer::new(5, 6);
    for (from, to) in [(0usize, 2usize), (2, 5), (5, 6)] {
        let band = Band { width: 5, height: 6, row_start: from, row_end: to };
        paint(band, &mut banded.color[from * 5..to * 5], &mut banded.depth[from * 5..to * 5], None);
    }
    assert_eq!(banded.color, full.color);
    assert_eq!(banded.depth, full.depth);
    let mut clipped = Framebuffer::new(5, 6);
    let clear = clipped.color[0];
    let band = Band { width: 5, height: 6, row_start: 0, row_end: 6 };
    paint(band, &mut clipped.color, &mut clipped.depth, Some((1, 1, 4, 3)));
    for y in 0..6 {
        for x in 0..5 {
            let inside = (1..4).contains(&x) && (1..3).contains(&y);
            let i = y * 5 + x;
            assert_eq!(clipped.color[i], if inside { full.color[i] } else { clear });
        }
    }
}

/// A pass with several draw calls is the same in any number of bands.
#[test]
fn the_number_of_bands_does_not_matter() {
    let (width, height) = (5usize, 6usize);
    let draw = |job: usize, band: Band, mut p: BandPixels| {
        let clip = if job == 1 { Some((1, 1, 4, 5)) } else { None };
        paint(band, &mut p.colors, &mut p.depths, clip);
        for d in p.depths.iter_mut() {
            d.bits += 1;
        }
        p
    };
    let fresh = Framebuffer::new(width, height);
    let whole = paint_band(
        Band { width, height, row_start: 0, row_end: height },
        BandPixels { colors: fresh.color.clone(), depths: fresh.depth.clone() },
        3,
        &draw,
    );
    for bands in 1..9 {
        let mut colors = Vec::new();
        let mut depths = Vec::new();
        for r in band_ranges(width, height, bands) {
            let end = paint_band(
                Band { width, height, row_start: r.row_start, row_end: r.row_end },
                BandPixels {
                    colors: fresh.color[r.pixel_start..r.pixel_end].to_vec(),
                    depths: fresh.depth[r.pixel_start..r.pixel_end].to_vec(),
                },
                3,
                &draw,
            );
            colors.extend(end.colors);
            depths.extend(end.depths);
        }
        assert_eq!(colors, whole.colors);
        assert_eq!(depths, whole.depths);
    }
}
