use makepad_platform::double::{Vec2d, F64};
use makepad_platform::frames::{frame_file_name, headless_output_dir, Emission, EmitConfig, FrameNote};
use makepad_platform::png::encode_png_rgba;
use makepad_platform::render::{Painted, RenderStore};
use makepad_platform::single::{Rgba, F32};
use makepad_platform::virtual_gpu::{ClipState, Framebuffer, Rgba8};
use makepad_platform::windows::{
    configured_headless_dpi, headless_forced_window_size, size_parts, AppMessage, CxWindow,
    HeadlessWindowState, OpEffect, OsOp, WindowConfig, Windows,
};
use std::cell::RefCell;
use std::collections::VecDeque;

fn f(v: f64) -> F64 {
    F64 { bits: v.to_bits() }
}

fn vec2(x: f64, y: f64) -> Vec2d {
    Vec2d { x: f(x), y: f(y) }
}

fn window() -> CxWindow {
    CxWindow {
        valid: true,
        is_created: false,
        kind_id: 3,
        create_inner_size: None,
        create_position: None,
        position: vec2(0.0, 0.0),
        inner_size: vec2(0.0, 0.0),
        outer_size: vec2(0.0, 0.0),
        dpi_factor: f(1.0),
        is_popup: false,
        popup_parent: None,
        popup_position: None,
        popup_size: None,
        popup_grab_keyboard: false,
    }
}

fn config() -> WindowConfig {
    WindowConfig { forced_size: None, dpi: f(2.0) }
}

fn parse(s: String) -> Option<F64> {
    s.parse::<f64>().ok().map(f)
}

#[test]
fn size_defaults_settle() {
    let mut w = HeadlessWindowState::default();
    w.width = 1;
    w.dpi_factor = f(-3.0);
    w.ensure_size_defaults();
    assert_eq!((w.width, w.height, w.dpi_factor), (1280, 720, f(1.0)));
    let again = {
        let mut v = w;
        v.ensure_size_defaults();
        v
    };
    assert_eq!(again, w);
    let mut kept = HeadlessWindowState { width: 2, height: 3, dpi_factor: f(0.5), ..w };
    kept.ensure_size_defaults();
    assert_eq!((kept.width, kept.height, kept.dpi_factor), (2, 3, f(0.5)));
}

#[test]
fn the_scale_is_two_unless_it_is_set() {
    assert_eq!(configured_headless_dpi(None, &parse), f(2.0));
    assert_eq!(configured_headless_dpi(Some("1.5"), &parse), f(1.5));
    assert_eq!(configured_headless_dpi(Some("0"), &parse), f(2.0));
    assert_eq!(configured_headless_dpi(Some("-1"), &parse), f(2.0));
    assert_eq!(configured_headless_dpi(Some(" 1"), &parse), f(2.0));
}

#[test]
fn a_size_can_be_forced() {
    assert_eq!(headless_forced_window_size(Some("1280x720"), &parse), Some(vec2(1280.0, 720.0)));
    assert_eq!(headless_forced_window_size(Some(" 12 X 7.5 "), &parse), Some(vec2(12.0, 7.5)));
    assert_eq!(headless_forced_window_size(Some("12x0"), &parse), None);
    assert_eq!(headless_forced_window_size(Some("12"), &parse), None);
    assert_eq!(headless_forced_window_size(Some("ax7"), &parse), None);
    assert_eq!(headless_forced_window_size(Some("1x2x3"), &parse), None);
    assert_eq!(headless_forced_window_size(None, &parse), None);
    assert_eq!(size_parts("1X2x3"), Some(("1".to_string(), "2x3".to_string())));
}

#[test]
fn windows_are_created_with_their_size() {
    let mut asked = window();
    asked.create_inner_size = Some(vec2(300.5, 200.0));
    asked.create_position = Some(vec2(7.0, 8.0));
    let mut w = Windows { states: vec![], pool: vec![window(), asked] };
    let mut ops: VecDeque<OsOp> = VecDeque::new();
    ops.push_back(OsOp::CreateWindow(1));
    ops.push_back(OsOp::CreateWindow(0));
    ops.push_back(OsOp::Other);
    let mut effects = Vec::new();
    assert!(w.headless_handle_platform_ops(&mut ops, config(), true, &mut effects));
    assert!(ops.is_empty());
    assert_eq!((w.states[1].width, w.states[1].height), (300, 200));
    assert_eq!((w.states[0].width, w.states[0].height), (1920, 1080));
    assert!(w.states[0].created && w.pool[0].is_created);
    assert_eq!(w.states[0].dpi_factor, f(2.0));
    assert_eq!(w.pool[1].position, vec2(7.0, 8.0));
    assert_eq!(w.pool[1].inner_size, vec2(300.5, 200.0));
    assert_eq!(effects.len(), 4);
    assert!(matches!(
        effects[0],
        OpEffect::Send(AppMessage::CreateWindow { window_id: 1, kind_id: 3 })
    ));
    assert!(matches!(effects[1], OpEffect::RedrawAll));
    let mut forced = Windows { states: vec![], pool: vec![window()] };
    let mut ops: VecDeque<OsOp> = VecDeque::new();
    ops.push_back(OsOp::CreateWindow(0));
    let mut effects = Vec::new();
    let c = WindowConfig { forced_size: Some(vec2(64.0, 32.0)), ..config() };
    forced.headless_handle_platform_ops(&mut ops, c, false, &mut effects);
    assert_eq!((forced.states[0].width, forced.states[0].height), (64, 32));
    assert_eq!(effects.len(), 1);
}

#[test]
fn nothing_is_done_after_quit() {
    let mut w = Windows { states: vec![], pool: vec![window()] };
    let mut ops: VecDeque<OsOp> = VecDeque::new();
    ops.push_back(OsOp::StartTimer { timer_id: 4, interval: f(0.5), repeats: true });
    ops.push_back(OsOp::StopTimer(4));
    ops.push_back(OsOp::Quit);
    ops.push_back(OsOp::CreateWindow(0));
    let mut effects = Vec::new();
    assert!(!w.headless_handle_platform_ops(&mut ops, config(), false, &mut effects));
    assert_eq!(ops.len(), 1);
    assert!(w.states.is_empty());
    assert!(matches!(effects[0], OpEffect::StartTimer { timer_id: 4, repeats: true, .. }));
    assert!(matches!(effects[1], OpEffect::StopTimer(4)));
    assert_eq!(effects.len(), 2);
}

#[test]
fn popups_and_sizes_and_the_host() {
    let mut w = Windows { states: vec![], pool: vec![window(), window()] };
    let mut ops: VecDeque<OsOp> = VecDeque::new();
    ops.push_back(OsOp::CreatePopupWindow {
        window_id: 1,
        parent_window_id: 0,
        position: vec2(5.0, 6.0),
        size: vec2(0.0, 40.0),
        grab_keyboard: true,
    });
    ops.push_back(OsOp::ResizeWindow(0, vec2(50.0, 60.0)));
    ops.push_back(OsOp::SetCursor(9));
    ops.push_back(OsOp::CopyToClipboard("text".to_string()));
    let mut effects = Vec::new();
    assert!(w.headless_handle_platform_ops(&mut ops, config(), true, &mut effects));
    assert!(w.pool[1].is_popup);
    assert_eq!(w.pool[1].popup_parent, Some(0));
    assert!(w.pool[1].popup_grab_keyboard);
    assert_eq!((w.states[1].width, w.states[1].height), (1280, 40));
    assert_eq!((w.states[0].width, w.states[0].height), (50, 60));
    assert_eq!(w.pool[0].inner_size, vec2(50.0, 60.0));
    assert!(matches!(effects[2], OpEffect::Send(AppMessage::SetCursor(9))));
    match &effects[3] {
        OpEffect::Send(AppMessage::SetClipboard(t)) => assert_eq!(t, "text"),
        _ => panic!("not a clipboard"),
    }
    let mut ops: VecDeque<OsOp> = VecDeque::new();
    ops.push_back(OsOp::SetCursor(9));
    let mut effects = Vec::new();
    w.headless_handle_platform_ops(&mut ops, config(), false, &mut effects);
    assert!(effects.is_empty());
}

#[test]
fn there_is_always_a_window() {
    let mut w = Windows { states: vec![], pool: vec![] };
    w.ensure_any();
    assert_eq!(w.states.len(), 1);
    assert_eq!((w.states[0].width, w.states[0].height, w.states[0].created), (1280, 720, true));
    w.states[0].width = 9;
    w.ensure_any();
    assert_eq!(w.states.len(), 1);
    assert_eq!(w.states[0].width, 9);
}

#[test]
fn a_host_gives_geometry_and_images() {
    let mut w = Windows { states: vec![], pool: vec![window()] };
    assert!(w.window_geom_change(0, f(1.0), vec2(3.0, 4.0), vec2(420.0, 220.0)));
    assert_eq!((w.states[0].width, w.states[0].height), (420, 220));
    assert_eq!(w.pool[0].position, vec2(3.0, 4.0));
    assert!(!w.window_geom_change(2, f(0.0), vec2(0.0, 0.0), vec2(-1.0, 2.0)));
    assert_eq!(w.states.len(), 3);
    assert_eq!((w.states[2].width, w.states[2].height, w.states[2].dpi_factor), (1280, 2, f(1.0)));
    assert!(!w.states[1].created);
    w.swapchain(0, 640, 0, &vec![77, 78]);
    assert_eq!((w.states[0].width, w.states[0].height), (640, 720));
    assert_eq!(w.states[0].presentable_id, Some(77));
    w.swapchain(0, 640, 480, &vec![]);
    assert_eq!(w.states[0].presentable_id, None);
}

#[test]
fn frames_have_names() {
    assert_eq!(frame_file_name(0, 0), "window_0_frame_000000.png");
    assert_eq!(frame_file_name(12, 345), "window_12_frame_000345.png");
    assert_eq!(frame_file_name(1, 12345678), "window_1_frame_12345678.png");
}

#[test]
fn the_first_directory_is_kept() {
    let mut kept = None;
    assert_eq!(headless_output_dir(&mut kept, None, None), ".");
    let mut kept = None;
    assert_eq!(headless_output_dir(&mut kept, None, Some("/cwd")), "/cwd");
    let mut kept = None;
    assert_eq!(headless_output_dir(&mut kept, Some("/out"), Some("/cwd")), "/out");
    assert_eq!(headless_output_dir(&mut kept, Some("/other"), None), "/out");
}

fn byte(c: Rgba) -> Rgba8 {
    let q = |x: F32| f32::from_bits(x.bits) as u8;
    Rgba8 { r: q(c.r), g: q(c.g), b: q(c.b), a: q(c.a) }
}

fn frame(v: f32) -> Framebuffer {
    let mut fb = Framebuffer::new(16, 16);
    let x = F32 { bits: v.to_bits() };
    fb.clear(Rgba { r: x, g: x, b: x, a: x }, x);
    fb
}

fn shown(framebuffers: Vec<Option<Framebuffer>>) -> RenderStore {
    RenderStore {
        painted: vec![Painted::Whole; framebuffers.len()],
        framebuffers,
        clip: ClipState::new(None),
        damage: Vec::new(),
    }
}

fn emission() -> Emission {
    let mut first = HeadlessWindowState::default();
    first.created = true;
    Emission { windows: vec![first], images: vec![], notes: vec![], rendered_any: false }
}

#[test]
fn frames_are_written_to_files() {
    let mut e = emission();
    let files: RefCell<Vec<(String, Vec<u8>)>> = RefCell::new(Vec::new());
    let write = |name: String, file: Vec<u8>| {
        files.borrow_mut().push((name, file.clone()));
        (file, true)
    };
    let config = EmitConfig { send_protocol: false, no_png: false };
    let rendered =
        e.headless_emit_frames(&mut shown(vec![Some(frame(7.0))]), &vec![0], config, &byte, &|_| vec![], &write, &|| 0);
    assert!(rendered && e.rendered_any);
    assert_eq!(e.images, vec![vec![7u8; 1024]]);
    assert_eq!(files.borrow().len(), 1);
    assert_eq!(files.borrow()[0].0, "window_0_frame_000000.png");
    assert_eq!(files.borrow()[0].1, encode_png_rgba(16, 16, &[7u8; 1024]).unwrap());
    assert_eq!(e.windows[0].frame_id, 1);
    assert!(matches!(
        e.notes[0],
        FrameNote::Written { window_id: 0, frame_id: 0, width: 16, height: 16 }
    ));
}

#[test]
fn a_host_gets_the_screenshots_it_asked_for() {
    let mut e = emission();
    let config = EmitConfig { send_protocol: true, no_png: false };
    let write = |_name: String, file: Vec<u8>| (file, true);
    assert!(!e.headless_emit_frames(
        &mut shown(vec![Some(frame(1.0))]),
        &vec![0],
        config,
        &byte,
        &|_| vec![],
        &write,
        &|| 55
    ));
    assert!(e.notes.is_empty());
    assert!(e.headless_emit_frames(
        &mut shown(vec![Some(frame(1.0))]),
        &vec![0],
        config,
        &byte,
        &|_| vec![3, 4],
        &write,
        &|| 55
    ));
    assert_eq!(e.notes.len(), 2);
    match &e.notes[0] {
        FrameNote::Send(AppMessage::Screenshot { request_ids, png, width, height }) => {
            assert_eq!(request_ids, &vec![3, 4]);
            assert_eq!(png, &encode_png_rgba(16, 16, &[1u8; 1024]).unwrap());
            assert_eq!((*width, *height), (16, 16));
        }
        _ => panic!("not a screenshot"),
    }
    assert!(matches!(
        e.notes[1],
        FrameNote::Send(AppMessage::DrawCompleteAndFlip { window_id: 0, target_id: 55, .. })
    ));
    assert_eq!(e.windows[0].presentable_id, Some(55));
}

#[test]
fn frames_that_cannot_be_handed_out_are_told_of() {
    let mut e = emission();
    let config = EmitConfig { send_protocol: false, no_png: false };
    let fail = |_name: String, file: Vec<u8>| (file, false);
    assert!(!e.headless_emit_frames(
        &mut shown(vec![Some(frame(1.0))]),
        &vec![0],
        config,
        &byte,
        &|_| vec![],
        &fail,
        &|| 0
    ));
    assert!(matches!(e.notes[0], FrameNote::WriteFailed { window_id: 0, frame_id: 0 }));
    assert_eq!(e.windows[0].frame_id, 0);
    let mut e = emission();
    assert!(!e.headless_emit_frames(
        &mut shown(vec![Some(Framebuffer::new(4, 0))]),
        &vec![0],
        config,
        &byte,
        &|_| vec![],
        &fail,
        &|| 0
    ));
    match &e.notes[0] {
        FrameNote::EncodeFailed { window_id: 0, frame_id: 0, error } => {
            assert_eq!(error, "headless png encode failed: the image does not fit the encoder")
        }
        _ => panic!("no encoding has failed"),
    }
    let mut e = emission();
    let silent = EmitConfig { no_png: true, ..config };
    assert!(e.headless_emit_frames(
        &mut shown(vec![Some(frame(1.0))]),
        &vec![0],
        silent,
        &byte,
        &|_| vec![],
        &fail,
        &|| 0
    ));
    assert!(e.notes.is_empty());
    assert_eq!(e.windows[0].frame_id, 1);
    let mut e = emission();
    assert!(!e.headless_emit_frames(
        &mut shown(vec![None, Some(frame(1.0))]),
        &vec![1],
        config,
        &byte,
        &|_| vec![],
        &fail,
        &|| 0
    ));
    assert!(e.notes.is_empty());
}

fn paint(store: &mut RenderStore, window: usize, clip: Option<(i32, i32, i32, i32)>, v: f32) {
    let x = F32 { bits: v.to_bits() };
    let fb = store.framebuffers[window].as_mut().unwrap();
    match clip {
        Some(c) => fb.clear_rect(Rgba { r: x, g: x, b: x, a: x }, x, c.0, c.1, c.2, c.3),
        None => fb.clear(Rgba { r: x, g: x, b: x, a: x }, x),
    }
    store.painted[window] = store.painted[window].join(clip);
}

/// Frames that are painted and not handed out are not lost: what is handed out later shows
/// all that was painted since.
#[test]
fn an_image_shows_the_whole_framebuffer() {
    let mut store = shown(vec![Some(frame(1.0))]);
    let mut e = emission();
    let config = EmitConfig { send_protocol: true, no_png: false };
    let write = |_name: String, file: Vec<u8>| (file, true);
    let none = |_: usize| vec![];
    let some = |_: usize| vec![9];
    assert!(!e.headless_emit_frames(&mut store, &vec![0], config, &byte, &none, &write, &|| 1));
    paint(&mut store, 0, Some((0, 0, 2, 2)), 5.0);
    assert!(!e.headless_emit_frames(&mut store, &vec![0], config, &byte, &none, &write, &|| 1));
    assert!(e.headless_emit_frames(&mut store, &vec![0], config, &byte, &some, &write, &|| 1));
    let fb = store.framebuffers[0].as_ref().unwrap();
    assert_eq!(e.images[0], fb.to_rgba8(&byte));
    assert_eq!(e.images[0][0], 5);
    assert_eq!(e.images[0][3 * 4], 1);
    assert_eq!(store.painted[0], Painted::Nothing);
    paint(&mut store, 0, Some((3, 0, 4, 1)), 6.0);
    paint(&mut store, 0, Some((9, 9, 10, 10)), 7.0);
    assert_eq!(store.painted[0], Painted::Part((3, 0, 10, 10)));
    assert!(e.headless_emit_frames(&mut store, &vec![0], config, &byte, &some, &write, &|| 1));
    assert_eq!(e.images[0], store.framebuffers[0].as_ref().unwrap().to_rgba8(&byte));
    assert_eq!((e.images[0][3 * 4], e.images[0][(9 * 16 + 9) * 4]), (6, 7));
}

#[test]
fn windows_of_one_size_keep_their_own_images() {
    let mut store = shown(vec![Some(frame(1.0)), Some(frame(2.0))]);
    let mut e = emission();
    let mut second = HeadlessWindowState::default();
    second.created = true;
    e.windows.push(second);
    let config = EmitConfig { send_protocol: false, no_png: true };
    let write = |_name: String, file: Vec<u8>| (file, true);
    let asked: RefCell<Vec<usize>> = RefCell::new(Vec::new());
    let ask = |kind: usize| {
        asked.borrow_mut().push(kind);
        vec![4]
    };
    assert!(e.headless_emit_frames(&mut store, &vec![0, 1], config, &byte, &ask, &write, &|| 0));
    assert_eq!(e.images, vec![vec![1u8; 1024], vec![2u8; 1024]]);
    paint(&mut store, 0, Some((0, 0, 1, 1)), 8.0);
    paint(&mut store, 1, Some((1, 0, 2, 1)), 9.0);
    assert!(e.headless_emit_frames(&mut store, &vec![0, 1], config, &byte, &ask, &write, &|| 0));
    for w in 0..2 {
        assert_eq!(e.images[w], store.framebuffers[w].as_ref().unwrap().to_rgba8(&byte));
    }
    assert!(asked.borrow().is_empty());
    let host = EmitConfig { send_protocol: true, no_png: true };
    e.headless_emit_frames(&mut store, &vec![1, 0], host, &byte, &ask, &write, &|| 0);
    assert_eq!(*asked.borrow(), vec![0, 0]);
}
