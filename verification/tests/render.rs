use makepad_platform::damage::{DamageRect, DrawEvent, DrawList};
use makepad_platform::render::{
    headless_render_all_passes, Painted, PassParent, PassState, RenderStore, WindowPixels,
};
use makepad_platform::single::{Rgba, F32};
use makepad_platform::texture::{CxTexture, TextureFormat};
use makepad_platform::virtual_gpu::{ClipState, Framebuffer};
use std::cell::{Cell, RefCell};

fn s(v: f32) -> F32 {
    F32 { bits: v.to_bits() }
}

fn flat(v: f32) -> Rgba {
    Rgba { r: s(v), g: s(v), b: s(v), a: s(1.0) }
}

fn store(clip: Option<&str>) -> RenderStore {
    RenderStore::new(ClipState::new(clip))
}

fn pass(parent: PassParent) -> PassState {
    PassState { paint_dirty: true, parent, clear_color: flat(0.25) }
}

#[test]
fn only_passes_of_windows_are_painted() {
    let mut store = store(None);
    let mut passes = vec![
        pass(PassParent::DrawPass(1)),
        pass(PassParent::Window(1)),
        pass(PassParent::Detached),
        pass(PassParent::Window(0)),
    ];
    let windows = vec![WindowPixels { width: 2, height: 1 }, WindowPixels { width: 3, height: 2 }];
    let seen: RefCell<Vec<usize>> = RefCell::new(Vec::new());
    let painted = headless_render_all_passes(
        &mut store,
        &mut passes,
        &vec![0, 1, 2],
        &windows,
        false,
        &vec![],
        &mut vec![],
        &|p, fb: Framebuffer, clip, _: &Vec<CxTexture>, used| {
            assert_eq!(clip, None);
            seen.borrow_mut().push(p);
            (fb, used)
        },
    );
    assert_eq!(painted, vec![1]);
    assert_eq!(*seen.borrow(), vec![1]);
    assert_eq!(passes.iter().map(|p| p.paint_dirty).collect::<Vec<_>>(), vec![false, false, false, true]);
    assert!(store.framebuffers[0].is_none());
    let fb = store.framebuffers[1].as_ref().unwrap();
    assert_eq!((fb.width, fb.height), (3, 2));
    assert_eq!(fb.color, vec![flat(0.25); 6]);
    assert_eq!(fb.depth, vec![s(1.0); 6]);
}

#[test]
fn with_damage_the_rest_of_the_frame_is_kept() {
    let mut store = store(None);
    let windows = vec![WindowPixels { width: 4, height: 4 }];
    let value = Cell::new(0.5f32);
    let draw = |_p: usize, mut fb: Framebuffer, clip: Option<(i32, i32, i32, i32)>, _: &Vec<CxTexture>, used: Vec<usize>| {
        let (x0, y0, x1, y1) = clip.unwrap_or((0, 0, 4, 4));
        for y in y0..y1 {
            for x in x0..x1 {
                fb.color[(y * 4 + x) as usize] = flat(value.get());
            }
        }
        (fb, used)
    };
    let lists = vec![vec![DrawList {
        id: 1,
        painted: Some(DamageRect { x0: 1, y0: 1, x1: 3, y1: 2 }),
        sub_lists: vec![],
    }]];
    store.observar(&DrawEvent {
        redraw_all: true,
        draw_lists: vec![],
        draw_lists_and_children: vec![],
    });
    let mut passes = vec![pass(PassParent::Window(0))];
    headless_render_all_passes(&mut store, &mut passes, &vec![0], &windows, true, &lists, &mut vec![], &draw);
    assert_eq!(store.framebuffers[0].as_ref().unwrap().color, vec![flat(0.5); 16]);
    value.set(0.75);
    store.observar(&DrawEvent {
        redraw_all: false,
        draw_lists: vec![1],
        draw_lists_and_children: vec![],
    });
    headless_render_all_passes(&mut store, &mut passes, &vec![0], &windows, true, &lists, &mut vec![], &draw);
    let fb = store.framebuffers[0].as_ref().unwrap();
    for i in 0..16 {
        let damaged = i == 5 || i == 6;
        assert_eq!(fb.color[i], if damaged { flat(0.75) } else { flat(0.5) });
    }
}

#[test]
fn another_size_is_painted_in_full() {
    let mut store = store(Some("0,0,1,1"));
    let clips: RefCell<Vec<Option<(i32, i32, i32, i32)>>> = RefCell::new(Vec::new());
    let draw = |_p: usize, fb: Framebuffer, clip: Option<(i32, i32, i32, i32)>, _: &Vec<CxTexture>, used: Vec<usize>| {
        clips.borrow_mut().push(clip);
        (fb, used)
    };
    let mut passes = vec![pass(PassParent::Window(0))];
    for (w, h) in [(2usize, 2usize), (2, 2), (3, 2)] {
        let windows = vec![WindowPixels { width: w, height: h }];
        headless_render_all_passes(&mut store, &mut passes, &vec![0], &windows, false, &vec![], &mut vec![], &draw);
    }
    assert_eq!(*clips.borrow(), vec![None, Some((0, 0, 1, 1)), None]);
}

fn list(id: u64, b: (i32, i32, i32, i32)) -> DrawList {
    DrawList {
        id,
        painted: Some(DamageRect { x0: b.0, y0: b.1, x1: b.2, y1: b.3 }),
        sub_lists: vec![],
    }
}

/// A frame that paints two windows computes the damage of both from what the frame before
/// has left: the first one does not make the second forget where a list was.
#[test]
fn no_ghosts_in_the_second_window() {
    let mut store = store(None);
    let windows = vec![WindowPixels { width: 100, height: 100 }; 2];
    let clips: RefCell<Vec<Option<(i32, i32, i32, i32)>>> = RefCell::new(Vec::new());
    let draw = |_p: usize, fb: Framebuffer, clip: Option<(i32, i32, i32, i32)>, _: &Vec<CxTexture>, used: Vec<usize>| {
        clips.borrow_mut().push(clip);
        (fb, used)
    };
    let mut passes = vec![pass(PassParent::Window(0)), pass(PassParent::Window(1))];
    let todo = vec![0, 1];
    let before = vec![vec![list(1, (0, 0, 10, 10))], vec![list(1, (0, 0, 20, 20))]];
    let after = vec![vec![list(1, (30, 30, 40, 40))], vec![list(1, (60, 60, 80, 80))]];
    headless_render_all_passes(&mut store, &mut passes, &todo, &windows, true, &before, &mut vec![], &draw);
    store.observar(&DrawEvent {
        redraw_all: false,
        draw_lists: vec![1],
        draw_lists_and_children: vec![],
    });
    headless_render_all_passes(&mut store, &mut passes, &todo, &windows, true, &after, &mut vec![], &draw);
    assert_eq!(
        *clips.borrow(),
        vec![None, None, Some((0, 0, 40, 40)), Some((0, 0, 80, 80))]
    );
    clips.borrow_mut().clear();
    headless_render_all_passes(&mut store, &mut passes, &vec![1], &windows, true, &after, &mut vec![], &draw);
    headless_render_all_passes(&mut store, &mut passes, &vec![0, 0], &windows, true, &before, &mut vec![], &draw);
    assert_eq!(
        *clips.borrow(),
        vec![Some((60, 60, 80, 80)), Some((0, 0, 40, 40)), Some((0, 0, 40, 40))]
    );
    assert_eq!(store.painted, vec![Painted::Whole, Painted::Whole]);
}

/// What was painted since a window was handed out is kept for it.
#[test]
fn painting_is_noted_until_it_is_handed_out() {
    let mut store = store(Some("1,2,3,4"));
    let windows = vec![WindowPixels { width: 8, height: 8 }];
    let draw = |_p: usize, fb: Framebuffer, _: Option<(i32, i32, i32, i32)>, _: &Vec<CxTexture>, used: Vec<usize>| (fb, used);
    let mut passes = vec![pass(PassParent::Window(0))];
    headless_render_all_passes(&mut store, &mut passes, &vec![0], &windows, false, &vec![], &mut vec![], &draw);
    assert_eq!(store.painted, vec![Painted::Whole]);
    store.painted[0] = Painted::Nothing;
    headless_render_all_passes(&mut store, &mut passes, &vec![0], &windows, false, &vec![], &mut vec![], &draw);
    assert_eq!(store.painted, vec![Painted::Part((1, 2, 4, 6))]);
    assert_eq!(store.painted[0].join(Some((0, 5, 2, 9))), Painted::Part((0, 2, 4, 9)));
    assert_eq!(store.painted[0].join(None), Painted::Whole);
}

/// At the end of a frame the textures that it has used are no longer marked as changed.
#[test]
fn a_frame_takes_the_marks_of_change_away() {
    let texture = || CxTexture {
        data_ptr: 0,
        format: TextureFormat::Gray { width: 1, height: 1, data: Some(vec![7]), updated: true },
    };
    let mut textures = vec![texture(), texture(), texture()];
    let mut store = store(None);
    let windows = vec![WindowPixels { width: 1, height: 1 }; 2];
    let mut passes = vec![pass(PassParent::Window(0)), pass(PassParent::Window(1))];
    let given: RefCell<Vec<Vec<usize>>> = RefCell::new(Vec::new());
    let draw = |p: usize, fb: Framebuffer, _: Option<(i32, i32, i32, i32)>, t: &Vec<CxTexture>, mut used: Vec<usize>| {
        given.borrow_mut().push(used.clone());
        assert_eq!(t.len(), 3);
        used.push(if p == 0 { 2 } else { 0 });
        (fb, used)
    };
    headless_render_all_passes(&mut store, &mut passes, &vec![0, 1], &windows, false, &vec![], &mut textures, &draw);
    assert_eq!(*given.borrow(), vec![vec![], vec![2]]);
    let marked: Vec<bool> = textures
        .iter()
        .map(|t| matches!(t.format, TextureFormat::Gray { updated: true, .. }))
        .collect();
    assert_eq!(marked, vec![false, true, false]);
}

/// The first frame of a window paints everything, and so does the first of another size: both
/// remember where every list is, whatever they were asked to repaint.
#[test]
fn a_window_that_comes_later_leaves_no_ghosts() {
    let mut store = store(None);
    let clips: RefCell<Vec<Option<(i32, i32, i32, i32)>>> = RefCell::new(Vec::new());
    let draw = |_p: usize, fb: Framebuffer, clip: Option<(i32, i32, i32, i32)>, _: &Vec<CxTexture>, used: Vec<usize>| {
        clips.borrow_mut().push(clip);
        (fb, used)
    };
    let ask = |id: u64| DrawEvent {
        redraw_all: false,
        draw_lists: vec![id],
        draw_lists_and_children: vec![],
    };
    let mut passes = vec![pass(PassParent::Window(0)), pass(PassParent::Window(1))];
    let small = vec![WindowPixels { width: 100, height: 100 }; 2];
    let at = |b: (i32, i32, i32, i32)| {
        vec![vec![list(5, (0, 0, 1, 1)), list(7, b)], vec![list(5, (0, 0, 1, 1)), list(7, b)]]
    };
    store.observar(&ask(5));
    headless_render_all_passes(&mut store, &mut passes, &vec![0], &small, true, &at((10, 10, 20, 20)), &mut vec![], &draw);
    assert!(store.damage[0].is_some() && store.damage[1].is_none());
    store.observar(&ask(5));
    headless_render_all_passes(&mut store, &mut passes, &vec![1], &small, true, &at((10, 10, 20, 20)), &mut vec![], &draw);
    assert!(store.damage[1].is_some());
    store.observar(&ask(7));
    headless_render_all_passes(&mut store, &mut passes, &vec![1], &small, true, &at((30, 30, 40, 40)), &mut vec![], &draw);
    let large = vec![WindowPixels { width: 200, height: 200 }; 2];
    store.observar(&ask(5));
    headless_render_all_passes(&mut store, &mut passes, &vec![1], &large, true, &at((60, 60, 80, 80)), &mut vec![], &draw);
    store.observar(&ask(7));
    headless_render_all_passes(&mut store, &mut passes, &vec![1], &large, true, &at((90, 90, 95, 95)), &mut vec![], &draw);
    assert_eq!(
        *clips.borrow(),
        vec![None, None, Some((10, 10, 40, 40)), None, Some((60, 60, 95, 95))]
    );
}

/// A list that comes up while another is drawn is remembered where it first was, and so is
/// every list when a frame is painted in full because the damage covers nearly all of it.
#[test]
fn lists_that_were_not_asked_for_are_remembered() {
    let mut store = store(None);
    let clips: RefCell<Vec<Option<(i32, i32, i32, i32)>>> = RefCell::new(Vec::new());
    let draw = |_p: usize, fb: Framebuffer, clip: Option<(i32, i32, i32, i32)>, _: &Vec<CxTexture>, used: Vec<usize>| {
        clips.borrow_mut().push(clip);
        (fb, used)
    };
    let mut passes = vec![pass(PassParent::Window(0))];
    let windows = vec![WindowPixels { width: 100, height: 100 }];
    for (ask, lists) in [
        (5u64, vec![list(5, (0, 0, 50, 50))]),
        (5, vec![list(5, (0, 0, 50, 50)), list(7, (1, 1, 9, 9))]),
        (7, vec![list(5, (0, 0, 50, 50)), list(7, (20, 20, 30, 30))]),
        (5, vec![list(5, (0, 0, 100, 95)), list(7, (40, 40, 45, 45))]),
        (7, vec![list(5, (0, 0, 100, 95)), list(7, (60, 60, 65, 65))]),
    ] {
        store.observar(&DrawEvent {
            redraw_all: false,
            draw_lists: vec![ask],
            draw_lists_and_children: vec![],
        });
        headless_render_all_passes(&mut store, &mut passes, &vec![0], &windows, true, &vec![lists], &mut vec![], &draw);
    }
    assert_eq!(
        *clips.borrow(),
        vec![None, Some((0, 0, 50, 50)), Some((1, 1, 30, 30)), None, Some((40, 40, 65, 65))]
    );
}
