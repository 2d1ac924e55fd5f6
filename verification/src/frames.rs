//! Frames that were painted are handed out: as files, and to the host that asked for a
//! screenshot.

use crate::png;
use crate::png::encode_png_rgba;
use crate::render;
use crate::render::{Painted, RenderStore};
use crate::single::Rgba;
use crate::text;
use crate::virtual_gpu;
use crate::virtual_gpu::{Framebuffer, Rgba8};
use crate::windows::{AppMessage, HeadlessWindowState};
use vstd::prelude::*;

verus! {

/// The name of the file of a frame of a window.
pub open spec fn frame_name(window_id: nat, frame_id: nat) -> Seq<char> {
    "window_"@ + text::dec_text(window_id) + "_frame_"@ + text::six_text(frame_id) + ".png"@
}

/// The name of the file of a frame of a window.
pub fn frame_file_name(window_id: usize, frame_id: u64) -> (r: String)
    ensures
        r@ == frame_name(window_id as nat, frame_id as nat),
{
    let mut name = text::owned("window_");
    text::append_dec(&mut name, window_id as u64);
    text::append_text(&mut name, "_frame_");
    text::append_six(&mut name, frame_id);
    text::append_text(&mut name, ".png");
    name
}

/// Where frames are written: where they were written before, else where the environment
/// says, else where the application was started, else here.
pub fn headless_output_dir(
    frame_dir: &mut Option<String>,
    setting: Option<&str>,
    current_dir: Option<&str>,
) -> (r: String)
    ensures
        *final(frame_dir) matches Some(kept) && kept@ == r@,
        r@ == match *old(frame_dir) {
            Some(dir) => dir@,
            None => match setting {
                Some(dir) => dir@,
                None => match current_dir {
                    Some(dir) => dir@,
                    None => "."@,
                },
            },
        },
{
    let chosen: String = match &*frame_dir {
        Some(dir) => text::owned(dir.as_str()),
        None => match setting {
            Some(dir) => text::owned(dir),
            None => match current_dir {
                Some(dir) => text::owned(dir),
                None => text::owned("."),
            },
        },
    };
    let kept: String = text::owned(chosen.as_str());
    *frame_dir = Some(kept);
    chosen
}

/// Something that is told while frames are handed out.
pub enum FrameNote {
    /// To the host.
    Send(AppMessage),
    /// A file was written.
    Written { window_id: usize, frame_id: u64, width: u32, height: u32 },
    /// A file could not be made.
    EncodeFailed { window_id: usize, frame_id: u64, error: String },
    /// A file could not be written.
    WriteFailed { window_id: usize, frame_id: u64 },
}

/// How frames are handed out.
#[derive(Clone, Copy, Debug, PartialEq, Eq)]
pub struct EmitConfig {
    /// Whether there is a host.
    pub send_protocol: bool,
    /// Whether no files are made.
    pub no_png: bool,
}

/// What changes while frames are handed out.
pub struct Emission {
    pub windows: Vec<HeadlessWindowState>,
    /// The bytes of each window as they were last handed out. What was not painted since
    /// is not converted anew.
    pub images: Vec<Vec<u8>>,
    pub notes: Vec<FrameNote>,
    /// Whether any frame was handed out.
    pub rendered_any: bool,
}

/// What changes while frames are handed out, in mathematical terms.
pub struct EmissionView {
    pub windows: Seq<HeadlessWindowState>,
    pub images: Seq<Vec<u8>>,
    pub notes: Seq<FrameNote>,
    pub rendered_any: bool,
}

impl Emission {
    pub open spec fn model(&self) -> EmissionView {
        EmissionView {
            windows: self.windows@,
            images: self.images@,
            notes: self.notes@,
            rendered_any: self.rendered_any,
        }
    }
}

/// A window whose frame is handed out: it counts as created.
pub open spec fn as_created(state: HeadlessWindowState) -> HeadlessWindowState {
    if state.created {
        state
    } else {
        (HeadlessWindowState { created: true, ..state }).with_size_defaults()
    }
}

/// Whether the bytes of a window are those of its framebuffer: every pixel is converted,
/// whatever part of it was painted last. The bytes of the other windows stay.
pub open spec fn converted<C: Fn(Rgba) -> Rgba8>(
    window_id: usize,
    fb: Framebuffer,
    convert: C,
    before: Seq<Vec<u8>>,
    after: Seq<Vec<u8>>,
) -> bool {
    &&& render::bytes_of(after, window_id as int).len() == fb.width * fb.height * 4
    &&& forall|i: int|
        0 <= i < fb.width * fb.height ==> call_ensures(
            convert,
            (fb.color@[i],),
            #[trigger] virtual_gpu::pixel_at(render::bytes_of(after, window_id as int), i),
        )
    &&& forall|w: int|
        w != window_id ==> #[trigger] render::bytes_of(after, w) == render::bytes_of(before, w)
}

/// Whether a window is shown through the image `target`: the one that was agreed on, or
/// a new one.
pub open spec fn shows_through<A: Fn() -> u64>(
    state: HeadlessWindowState,
    alloc: A,
    target: u64,
) -> bool {
    match state.presentable_id {
        Some(id) => target == id,
        None => call_ensures(alloc, (), target),
    }
}

/// Whether the file of a frame was written and told of: the host gets the screenshot it
/// asked for and is told which image to show, and the frame is counted.
pub open spec fn delivered<A: Fn() -> u64>(
    before: EmissionView,
    after: EmissionView,
    window_id: usize,
    fb: Framebuffer,
    request_ids: Seq<u64>,
    config: EmitConfig,
    alloc: A,
) -> bool {
    let state = as_created(before.windows[window_id as int]);
    let (width, height) = (fb.width as u32, fb.height as u32);
    &&& after.rendered_any
    &&& after.windows.len() == before.windows.len()
    &&& if config.send_protocol {
        exists|target: u64|
            {
                &&& #[trigger] shows_through(state, alloc, target)
                &&& after.windows == before.windows.update(
                    window_id as int,
                    HeadlessWindowState {
                        presentable_id: Some(target),
                        frame_id: (state.frame_id + 1) as u64,
                        ..state
                    },
                )
                &&& after.notes.len() == before.notes.len() + 2
                &&& after.notes.take(before.notes.len() as int) == before.notes
                &&& match after.notes[before.notes.len() as int] {
                    FrameNote::Send(
                        AppMessage::Screenshot { request_ids: ids, png: file, width: w, height: h },
                    ) => ids@ == request_ids && file@ == png::png_bytes(
                        width,
                        height,
                        render::bytes_of(after.images, window_id as int),
                    ) && w == width && h == height,
                    _ => false,
                }
                &&& after.notes[before.notes.len() as int + 1] == FrameNote::Send(
                    AppMessage::DrawCompleteAndFlip {
                        window_id,
                        target_id: target,
                        width,
                        height,
                    },
                )
            }
    } else {
        &&& after.windows == before.windows.update(
            window_id as int,
            HeadlessWindowState { frame_id: (state.frame_id + 1) as u64, ..state },
        )
        &&& after.notes == before.notes.push(
            FrameNote::Written { window_id, frame_id: state.frame_id, width, height },
        )
    }
}

/// Whether the frame of a window, converted to bytes, was handed out: as a file that is
/// written, if files are made and the frame can be made one of.
pub open spec fn frame_handed_out<W: Fn(String, Vec<u8>) -> (Vec<u8>, bool), A: Fn() -> u64>(
    before: EmissionView,
    after: EmissionView,
    window_id: usize,
    fb: Framebuffer,
    request_ids: Seq<u64>,
    config: EmitConfig,
    write: W,
    alloc: A,
) -> bool {
    let state = as_created(before.windows[window_id as int]);
    let (width, height) = (fb.width as u32, fb.height as u32);
    if config.no_png {
        &&& after.rendered_any
        &&& after.notes == before.notes
        &&& after.windows == before.windows.update(
            window_id as int,
            HeadlessWindowState { frame_id: (state.frame_id + 1) as u64, ..state },
        )
    } else if !png::encodable(width, height) {
        &&& after.rendered_any == before.rendered_any
        &&& after.windows == before.windows.update(window_id as int, state)
        &&& after.notes.len() == before.notes.len() + 1
        &&& after.notes.take(before.notes.len() as int) == before.notes
        &&& match after.notes.last() {
            FrameNote::EncodeFailed { window_id: id, frame_id, error } => id == window_id
                && frame_id == state.frame_id && error@ == png::TOO_LARGE@,
            _ => false,
        }
    } else {
        exists|name: String, file: Vec<u8>, end: (Vec<u8>, bool)|
            {
                &&& #[trigger] call_ensures(write, (name, file), end)
                &&& name@ == frame_name(window_id as nat, state.frame_id as nat)
                &&& file@ == png::png_bytes(
                    width,
                    height,
                    render::bytes_of(after.images, window_id as int),
                )
                &&& if end.1 {
                    delivered(before, after, window_id, fb, request_ids, config, alloc)
                } else {
                    &&& after.rendered_any == before.rendered_any
                    &&& after.windows == before.windows.update(window_id as int, state)
                    &&& after.notes == before.notes.push(
                        FrameNote::WriteFailed { window_id, frame_id: state.frame_id },
                    )
                }
            }
    }
}

/// Whether a painted window was dealt with: one that is not known is passed over, and
/// so is, where there is a host, one that no screenshot was asked of. `left` and `now` are
/// what was painted of it and not handed out yet, before and after: nothing, once its bytes
/// are converted, and otherwise what it was.
pub open spec fn window_emitted<
    C: Fn(Rgba) -> Rgba8,
    R: Fn(usize) -> Vec<u64>,
    W: Fn(String, Vec<u8>) -> (Vec<u8>, bool),
    A: Fn() -> u64,
>(
    before: EmissionView,
    after: EmissionView,
    window_id: usize,
    fb: Framebuffer,
    left: Painted,
    now: Painted,
    config: EmitConfig,
    convert: C,
    requests: R,
    write: W,
    alloc: A,
) -> bool {
    if window_id >= before.windows.len() {
        after == before && now == left
    } else if config.send_protocol {
        exists|ids: Vec<u64>|
            {
                &&& #[trigger] call_ensures(requests, (0usize,), ids)
                &&& if ids@.len() == 0 {
                    &&& now == left
                    &&& after == EmissionView {
                        windows: before.windows.update(
                            window_id as int,
                            as_created(before.windows[window_id as int]),
                        ),
                        ..before
                    }
                } else {
                    &&& now == Painted::Nothing
                    &&& converted(window_id, fb, convert, before.images, after.images)
                    &&& frame_handed_out(
                        before,
                        after,
                        window_id,
                        fb,
                        ids@,
                        config,
                        write,
                        alloc,
                    )
                }
            }
    } else {
        &&& now == Painted::Nothing
        &&& converted(window_id, fb, convert, before.images, after.images)
        &&& frame_handed_out(
            before,
            after,
            window_id,
            fb,
            Seq::empty(),
            config,
            write,
            alloc,
        )
    }
}

impl Emission {
    /// Writes the file of a frame and tells of it.
    fn deliver<W: Fn(String, Vec<u8>) -> (Vec<u8>, bool), A: Fn() -> u64>(
        &mut self,
        window_id: usize,
        fb: &Framebuffer,
        request_ids: Vec<u64>,
        config: EmitConfig,
        write: &W,
        alloc: &A,
        Ghost(start): Ghost<EmissionView>,
    )
        requires
            window_id < old(self).windows@.len(),
            fb.wf(),
            fb.width <= u32::MAX,
            fb.height <= u32::MAX,
            window_id < old(self).images@.len(),
            old(self).images@[window_id as int]@.len() == fb.width * fb.height * 4,
            old(self).windows@ == start.windows.update(
                window_id as int,
                as_created(start.windows[window_id as int]),
            ),
            window_id < start.windows.len(),
            old(self).notes@ == start.notes,
            old(self).rendered_any == start.rendered_any,
            old(self).windows@[window_id as int].frame_id < u64::MAX,
            forall|s: String, f: Vec<u8>| call_requires(*write, (s, f)),
            call_requires(*alloc, ()),
            forall|s: String, f: Vec<u8>, end: (Vec<u8>, bool)|
                call_ensures(*write, (s, f), end) ==> end.0@ == f@,
        ensures
            final(self).images == old(self).images,
            final(self).windows@.len() == old(self).windows@.len(),
            forall|i: int|
                0 <= i < final(self).windows@.len() ==> (#[trigger] final(self).windows@[i]).frame_id
                    <= old(self).windows@[i].frame_id + 1,
            frame_handed_out(
                start,
                final(self).model(),
                window_id,
                *fb,
                request_ids@,
                config,
                *write,
                *alloc,
            ),
    {
        let mut state = self.windows[window_id];
        assert(state == as_created(start.windows[window_id as int]));
        if config.no_png {
            state.frame_id = state.frame_id + 1;
            self.windows.set(window_id, state);
            self.rendered_any = true;
            assert(self.windows@ =~= start.windows.update(window_id as int, state));
            return;
        }
        let width: u32 = fb.width as u32;
        let height: u32 = fb.height as u32;
        let file: Vec<u8> = match encode_png_rgba(width, height, self.images[window_id].as_slice()) {
            Ok(file) => file,
            Err(error) => {
                self.notes.push(
                    FrameNote::EncodeFailed { window_id, frame_id: state.frame_id, error },
                );
                assert(self.notes@.take(start.notes.len() as int) =~= start.notes);
                return;
            },
        };
        let name = frame_file_name(window_id, state.frame_id);
        let ghost (asked_name, asked_file) = (name, file);
        let end: (Vec<u8>, bool) = write(name, file);
        assert(call_ensures(*write, (asked_name, asked_file), end));
        if !end.1 {
            self.notes.push(FrameNote::WriteFailed { window_id, frame_id: state.frame_id });
            return;
        }
        if config.send_protocol {
            self.notes.push(
                FrameNote::Send(
                    AppMessage::Screenshot { request_ids, png: end.0, width, height },
                ),
            );
            let target_id: u64 = match state.presentable_id {
                Some(id) => id,
                None => alloc(),
            };
            assert(shows_through(state, *alloc, target_id));
            state.presentable_id = Some(target_id);
            self.notes.push(
                FrameNote::Send(
                    AppMessage::DrawCompleteAndFlip { window_id, target_id, width, height },
                ),
            );
            assert(self.notes@.take(start.notes.len() as int) =~= start.notes);
        } else {
            self.notes.push(
                FrameNote::Written { window_id, frame_id: state.frame_id, width, height },
            );
        }
        state.frame_id = state.frame_id + 1;
        self.windows.set(window_id, state);
        self.rendered_any = true;
        assert(self.windows@ =~= start.windows.update(window_id as int, state));
        assert(delivered(
            start,
            self.model(),
            window_id,
            *fb,
            request_ids@,
            config,
            *alloc,
        ));
    }

    /// Brings the bytes of a window up to date: what was painted since they were last
    /// handed out is converted.
    fn refresh<C: Fn(Rgba) -> Rgba8>(
        &mut self,
        window_id: usize,
        fb: &Framebuffer,
        left: Painted,
        convert: &C,
    )
        requires
            fb.wf(),
            window_id < usize::MAX,
            forall|c: Rgba| call_requires(*convert, (c,)),
            render::image_true(
                *fb,
                left,
                *convert,
                render::bytes_of(old(self).images@, window_id as int),
            ),
        ensures
            final(self).windows == old(self).windows,
            final(self).notes == old(self).notes,
            final(self).rendered_any == old(self).rendered_any,
            window_id < final(self).images@.len(),
            converted(window_id, *fb, *convert, old(self).images@, final(self).images@),
    {
        let ghost before = *self;
        while self.images.len() <= window_id
            invariant
                window_id < usize::MAX,
                self.windows == before.windows,
                self.notes == before.notes,
                self.rendered_any == before.rendered_any,
                forall|w: int| #[trigger]
                    render::bytes_of(self.images@, w) == render::bytes_of(before.images@, w),
            decreases window_id + 1 - self.images@.len(),
        {
            let ghost earlier = self.images@;
            self.images.push(Vec::new());
            assert forall|w: int| #[trigger] render::bytes_of(self.images@, w)
                == render::bytes_of(before.images@, w) by {
                assert(render::bytes_of(earlier, w) == render::bytes_of(before.images@, w));
                if 0 <= w < earlier.len() {
                    assert(self.images@[w] == earlier[w]);
                } else if w == earlier.len() {
                    assert(self.images@[w]@ =~= Seq::<u8>::empty());
                }
            }
        }
        let ghost grown = self.images@;
        let mut bytes: Vec<u8> = Vec::new();
        std::mem::swap(&mut bytes, &mut self.images[window_id]);
        let ghost kept = bytes@;
        assert(kept == render::bytes_of(grown, window_id as int));
        match left {
            Painted::Nothing => {},
            Painted::Part(c) => fb.to_rgba8_into(&mut bytes, Some(c), convert),
            Painted::Whole => fb.to_rgba8_into(&mut bytes, None, convert),
        }
        proof {
            assert forall|i: int| 0 <= i < fb.width * fb.height implies call_ensures(
                *convert,
                (fb.color@[i],),
                #[trigger] virtual_gpu::pixel_at(bytes@, i),
            ) by {
                if !left.covers(i, fb.width as int) {
                    assert(call_ensures(
                        *convert,
                        (fb.color@[i],),
                        virtual_gpu::pixel_at(kept, i),
                    ));
                }
            }
        }
        let ghost image = bytes;
        self.images.set(window_id, bytes);
        proof {
            assert(self.images@[window_id as int] == image);
            assert forall|w: int| w != window_id implies #[trigger] render::bytes_of(
                self.images@,
                w,
            ) == render::bytes_of(before.images@, w) by {
                assert(render::bytes_of(grown, w) == render::bytes_of(before.images@, w));
                if 0 <= w < grown.len() {
                    assert(self.images@[w] == grown[w]);
                }
            }
        }
    }

    /// Hands out the frame of a painted window, and says what of it is then left to be
    /// handed out, where `left` was before. `convert` turns a colour into bytes,
    /// `requests` gives the screenshots that the host has asked for: they are all asked
    /// of the first kind, whichever window is handed out. `write` writes a file, gives
    /// its bytes back and says whether that succeeded, and `alloc` makes a new identity
    /// for an image.
    pub fn emit_window<
        C: Fn(Rgba) -> Rgba8,
        R: Fn(usize) -> Vec<u64>,
        W: Fn(String, Vec<u8>) -> (Vec<u8>, bool),
        A: Fn() -> u64,
    >(
        &mut self,
        window_id: usize,
        fb: &Framebuffer,
        left: Painted,
        config: EmitConfig,
        convert: &C,
        requests: &R,
        write: &W,
        alloc: &A,
    ) -> (r: Painted)
        requires
            window_id < usize::MAX,
            render::image_true(
                *fb,
                left,
                *convert,
                render::bytes_of(old(self).images@, window_id as int),
            ),
            fb.wf(),
            fb.width <= u32::MAX,
            fb.height <= u32::MAX,
            window_id < old(self).windows@.len() ==> old(self).windows@[window_id as int].frame_id
                < u64::MAX,
            forall|c: Rgba| call_requires(*convert, (c,)),
            forall|w: usize| call_requires(*requests, (w,)),
            forall|s: String, f: Vec<u8>| call_requires(*write, (s, f)),
            call_requires(*alloc, ()),
            forall|s: String, f: Vec<u8>, end: (Vec<u8>, bool)|
                call_ensures(*write, (s, f), end) ==> end.0@ == f@,
        ensures
            final(self).windows@.len() == old(self).windows@.len(),
            forall|i: int|
                0 <= i < final(self).windows@.len() ==> (#[trigger] final(self).windows@[i]).frame_id
                    <= old(self).windows@[i].frame_id + 1,
            window_emitted(
                old(self).model(),
                final(self).model(),
                window_id,
                *fb,
                left,
                r,
                config,
                *convert,
                *requests,
                *write,
                *alloc,
            ),
            render::image_true(
                *fb,
                r,
                *convert,
                render::bytes_of(final(self).images@, window_id as int),
            ),
            forall|w: int|
                w != window_id ==> #[trigger] render::bytes_of(final(self).images@, w)
                    == render::bytes_of(old(self).images@, w),
    {
        if window_id >= self.windows.len() {
            return left;
        }
        let ghost start = self.model();
        let mut state = self.windows[window_id];
        if !state.created {
            state.created = true;
            state.ensure_size_defaults();
        }
        self.windows.set(window_id, state);
        let request_ids: Vec<u64> = if config.send_protocol {
            requests(0)
        } else {
            Vec::new()
        };
        if config.send_protocol && request_ids.len() == 0 {
            return left;
        }
        self.refresh(window_id, fb, left, convert);
        self.deliver(window_id, fb, request_ids, config, write, alloc, Ghost(start));
        Painted::Nothing
    }
}

/// Whether `stages` are what there is before the first and after each of the windows of
/// `rendered`, as they are dealt with one after the other, and `painted` what was then
/// painted of each window and not handed out yet.
pub open spec fn windows_emitted<
    C: Fn(Rgba) -> Rgba8,
    R: Fn(usize) -> Vec<u64>,
    W: Fn(String, Vec<u8>) -> (Vec<u8>, bool),
    A: Fn() -> u64,
>(
    stages: Seq<EmissionView>,
    painted: Seq<Seq<Painted>>,
    framebuffers: Seq<Option<Framebuffer>>,
    rendered: Seq<usize>,
    config: EmitConfig,
    convert: C,
    requests: R,
    write: W,
    alloc: A,
) -> bool {
    stages.len() == rendered.len() + 1 && painted.len() == rendered.len() + 1 && forall|i: int|
        0 <= i < rendered.len() ==> {
            let id = #[trigger] rendered[i] as int;
            &&& painted[i + 1] == painted[i].update(id, painted[i + 1][id])
            &&& window_emitted(
                stages[i],
                stages[i + 1],
                rendered[i],
                framebuffers[id]->0,
                painted[i][id],
                painted[i + 1][id],
                config,
                convert,
                requests,
                write,
                alloc,
            )
        }
}

impl Emission {
    /// Hands out the frames of the windows of `rendered`, whose framebuffers stay where
    /// they are. Says whether any was handed out. Whatever frames were painted since a
    /// window was last handed out, and under whatever clip, its bytes are those of its
    /// framebuffer.
    pub fn headless_emit_frames<
        C: Fn(Rgba) -> Rgba8,
        R: Fn(usize) -> Vec<u64>,
        W: Fn(String, Vec<u8>) -> (Vec<u8>, bool),
        A: Fn() -> u64,
    >(
        &mut self,
        store: &mut RenderStore,
        rendered: &Vec<usize>,
        config: EmitConfig,
        convert: &C,
        requests: &R,
        write: &W,
        alloc: &A,
    ) -> (r: bool)
        requires
            old(store).wf(),
            old(store).images_true(old(self).images@, *convert),
            forall|i: int|
                0 <= i < rendered@.len() ==> (#[trigger] rendered@[i]) < old(
                    store,
                ).framebuffers@.len() && rendered@[i] < old(store).painted@.len() && (old(
                    store,
                ).framebuffers@[rendered@[i] as int] matches Some(fb) && fb.width <= u32::MAX
                    && fb.height <= u32::MAX),
            forall|i: int|
                0 <= i < old(self).windows@.len() ==> (#[trigger] old(self).windows@[i]).frame_id
                    + rendered@.len() <= u64::MAX,
            forall|c: Rgba| call_requires(*convert, (c,)),
            forall|w: usize| call_requires(*requests, (w,)),
            forall|s: String, f: Vec<u8>| call_requires(*write, (s, f)),
            call_requires(*alloc, ()),
            forall|s: String, f: Vec<u8>, end: (Vec<u8>, bool)|
                call_ensures(*write, (s, f), end) ==> end.0@ == f@,
        ensures
            r == final(self).rendered_any,
            final(store).wf(),
            final(store).images_true(final(self).images@, *convert),
            final(store).framebuffers == old(store).framebuffers,
            final(store).clip == old(store).clip,
            final(store).damage == old(store).damage,
            exists|stages: Seq<EmissionView>, painted: Seq<Seq<Painted>>|
                {
                    &&& #[trigger] windows_emitted(
                        stages,
                        painted,
                        old(store).framebuffers@,
                        rendered@,
                        config,
                        *convert,
                        *requests,
                        *write,
                        *alloc,
                    )
                    &&& stages[0] == (EmissionView { rendered_any: false, ..old(self).model() })
                    &&& stages.last() == final(self).model()
                    &&& painted[0] == old(store).painted@
                    &&& painted.last() == final(store).painted@
                },
    {
        self.rendered_any = false;
        let ghost start = self.model();
        let ghost mut stages = seq![start];
        let ghost mut painted = seq![store.painted@];
        let ghost windows0 = self.windows@;
        let ghost framebuffers = store.framebuffers;
        let ghost given = *store;
        let mut i: usize = 0;
        while i < rendered.len()
            invariant
                i <= rendered@.len(),
                forall|k: int|
                    0 <= k < rendered@.len() ==> (#[trigger] rendered@[k]) < framebuffers@.len()
                        && rendered@[k] < given.painted@.len() && (
                    framebuffers@[rendered@[k] as int] matches Some(fb) && fb.width <= u32::MAX
                        && fb.height <= u32::MAX),
                store.wf(),
                store.framebuffers == framebuffers,
                store.painted@.len() == given.painted@.len(),
                store.clip == given.clip,
                store.damage == given.damage,
                store.images_true(self.images@, *convert),
                self.windows@.len() == windows0.len(),
                forall|k: int|
                    0 <= k < windows0.len() ==> (#[trigger] self.windows@[k]).frame_id
                        <= windows0[k].frame_id + i,
                forall|k: int|
                    0 <= k < windows0.len() ==> (#[trigger] windows0[k]).frame_id
                        + rendered@.len() <= u64::MAX,
                forall|c: Rgba| call_requires(*convert, (c,)),
                forall|w: usize| call_requires(*requests, (w,)),
                forall|s: String, f: Vec<u8>| call_requires(*write, (s, f)),
                call_requires(*alloc, ()),
                forall|s: String, f: Vec<u8>, end: (Vec<u8>, bool)|
                    call_ensures(*write, (s, f), end) ==> end.0@ == f@,
                windows_emitted(
                    stages,
                    painted,
                    framebuffers@,
                    rendered@.take(i as int),
                    config,
                    *convert,
                    *requests,
                    *write,
                    *alloc,
                ),
                stages[0] == start,
                stages.last() == self.model(),
                painted[0] == given.painted@,
                painted.last() == store.painted@,
            decreases rendered@.len() - i,
        {
            let id: usize = rendered[i];
            let ghost before = self.model();
            let ghost earlier = self.windows@;
            assert(id < windows0.len() ==> windows0[id as int].frame_id + rendered@.len()
                <= u64::MAX);
            let known: usize = store.framebuffers.len();
            let left: Painted = store.painted[id];
            let ghost images = self.images@;
            assert(store.framebuffers@[id as int] is Some);
            assert(store.unshown(id as int) == left);
            let now: Painted = match &store.framebuffers[id] {
                Some(fb) => self.emit_window(id, fb, left, config, convert, requests, write, alloc),
                None => left,
            };
            let ghost kept = *store;
            store.painted.set(id, now);
            proof {
                assert forall|w: int| 0 <= w < store.framebuffers@.len() implies ((
                #[trigger] store.framebuffers@[w]) matches Some(fb) ==> render::image_true(
                    fb,
                    store.unshown(w),
                    *convert,
                    render::bytes_of(self.images@, w),
                )) by {
                    assert(kept.framebuffers@[w] == store.framebuffers@[w]);
                    if w != id {
                        assert(store.unshown(w) == kept.unshown(w));
                        assert(render::bytes_of(self.images@, w) == render::bytes_of(images, w));
                    }
                }
                assert forall|k: int| 0 <= k < windows0.len() implies (
                #[trigger] self.windows@[k]).frame_id <= windows0[k].frame_id + i + 1 by {
                    assert(earlier[k].frame_id <= windows0[k].frame_id + i);
                }
                let done = rendered@.take(i as int);
                let more = rendered@.take(i + 1);
                let longer = stages.push(self.model());
                let lefts = painted.push(store.painted@);
                assert forall|j: int| 0 <= j < more.len() implies {
                    let id = #[trigger] more[j] as int;
                    &&& lefts[j + 1] == lefts[j].update(id, lefts[j + 1][id])
                    &&& window_emitted(
                        longer[j],
                        longer[j + 1],
                        more[j],
                        framebuffers@[id]->0,
                        lefts[j][id],
                        lefts[j + 1][id],
                        config,
                        *convert,
                        *requests,
                        *write,
                        *alloc,
                    )
                } by {
                    if j < i {
                        assert(done[j] == more[j]);
                    } else {
                        assert(lefts[j] == kept.painted@);
                        assert(lefts[j + 1] =~= lefts[j].update(id as int, now));
                    }
                }
                painted = lefts;
                stages = longer;
            }
            i = i + 1;
        }
        assert(rendered@.take(i as int) =~= rendered@);
        self.rendered_any
    }
}

/// Every byte that is handed out of a window is that of its framebuffer, so two windows
/// with the same pixels are handed out as the same bytes, if the conversion of a colour
/// depends on nothing else. Together with the law that the damage changes no pixel: the
/// images are the same, byte for byte, whether the damage is computed or not.
pub proof fn law_the_same_pixels_give_the_same_image<C: Fn(Rgba) -> Rgba8>(
    window_id: usize,
    a: Framebuffer,
    b: Framebuffer,
    convert: C,
    before_a: Seq<Vec<u8>>,
    after_a: Seq<Vec<u8>>,
    before_b: Seq<Vec<u8>>,
    after_b: Seq<Vec<u8>>,
)
    requires
        converted(window_id, a, convert, before_a, after_a),
        converted(window_id, b, convert, before_b, after_b),
        a.wf(),
        a.width == b.width,
        a.height == b.height,
        a.color@ == b.color@,
        virtual_gpu::converts_purely(convert),
    ensures
        render::bytes_of(after_a, window_id as int) == render::bytes_of(after_b, window_id as int),
{
    virtual_gpu::lemma_same_pixels_same_bytes(
        a.color@,
        a.width * a.height,
        convert,
        render::bytes_of(after_a, window_id as int),
        render::bytes_of(after_b, window_id as int),
    );
}

/// A row of digits in front of an underscore is told from what follows.
#[verifier::spinoff_prover]
proof fn lemma_digits_end_at_an_underscore(
    a: Seq<char>,
    x: Seq<char>,
    b: Seq<char>,
    y: Seq<char>,
)
    requires
        text::all_digits(a),
        text::all_digits(b),
        a + seq!['_'] + x == b + seq!['_'] + y,
    ensures
        a == b,
        x == y,
{
    let s = a + seq!['_'] + x;
    let t = b + seq!['_'] + y;
    assert(s[a.len() as int] == '_' && t[b.len() as int] == '_');
    if a.len() < b.len() {
        assert(t[a.len() as int] == b[a.len() as int]);
        assert(text::is_digit(b[a.len() as int]));
    }
    if b.len() < a.len() {
        assert(s[b.len() as int] == a[b.len() as int]);
        assert(text::is_digit(a[b.len() as int]));
    }
    assert(a =~= b) by {
        assert forall|i: int| 0 <= i < a.len() implies a[i] == b[i] by {
            assert(s[i] == a[i] && t[i] == b[i]);
        }
    }
    assert(x =~= y) by {
        assert(s.len() == t.len());
        assert forall|i: int| 0 <= i < x.len() implies x[i] == y[i] by {
            assert(s[a.len() + 1 + i] == x[i] && t[b.len() + 1 + i] == y[i]);
        }
    }
}

/// Frames have files of their own: two frames of one window, and frames of two windows, are
/// named differently. A name tells the window and, with zeros in front, the frame.
pub proof fn law_frames_have_files_of_their_own(
    window_id: nat,
    frame_id: nat,
    other_window: nat,
    other_frame: nat,
)
    ensures
        frame_name(window_id, frame_id) == frame_name(other_window, other_frame) ==> window_id
            == other_window && frame_id == other_frame,
        text::starts_with(frame_name(window_id, frame_id), "window_"@ + text::dec_text(window_id)),
        text::occurs(frame_name(window_id, frame_id), text::six_text(frame_id)),
        frame_id < 1_000_000 ==> frame_name(window_id, frame_id).len() == 7 + text::dec_text(
            window_id,
        ).len() + 7 + 6 + 4,
{
    reveal_strlit("window_");
    reveal_strlit("_frame_");
    reveal_strlit(".png");
    let (w, f) = (text::dec_text(window_id), text::six_text(frame_id));
    let (v, g) = (text::dec_text(other_window), text::six_text(other_frame));
    let name = frame_name(window_id, frame_id);
    let other = frame_name(other_window, other_frame);
    let rest = seq!['f', 'r', 'a', 'm', 'e', '_'];
    text::law_decimal_is_read_back(window_id);
    text::law_decimal_is_read_back(other_window);
    text::law_six_places_are_filled(frame_id);
    text::law_six_places_are_filled(other_frame);
    assert("_frame_"@ =~= seq!['_'] + rest);
    assert(name =~= "window_"@ + (w + seq!['_'] + (rest + f + ".png"@)));
    assert(other =~= "window_"@ + (v + seq!['_'] + (rest + g + ".png"@)));
    if name == other {
        let (p, q) = (w + seq!['_'] + (rest + f + ".png"@), v + seq!['_'] + (rest + g + ".png"@));
        assert(p =~= name.skip(7));
        assert(q =~= other.skip(7));
        lemma_digits_end_at_an_underscore(w, rest + f + ".png"@, v, rest + g + ".png"@);
        text::lemma_middle(rest, f, g, ".png"@);
        if frame_id >= 1_000_000 {
            text::law_decimal_is_read_back(frame_id);
        }
        if other_frame >= 1_000_000 {
            text::law_decimal_is_read_back(other_frame);
        }
    }
    let tail = "_frame_"@ + f + ".png"@;
    let head = "window_"@ + w;
    assert(name =~= head + tail);
    text::law_a_beginning_is_a_beginning(name, head, tail);
    let front = head + "_frame_"@;
    text::law_what_occurs_stands_between_the_rest(name, f, front, ".png"@);
    assert(name =~= front + f + ".png"@);
}

/// Every pixel of a window that is handed out has its four bytes in its place, red first and
/// alpha last; the bytes of other windows stay.
pub proof fn law_each_pixel_is_handed_out_in_its_place<C: Fn(Rgba) -> Rgba8>(
    window_id: usize,
    fb: Framebuffer,
    convert: C,
    before: Seq<Vec<u8>>,
    after: Seq<Vec<u8>>,
    i: int,
    other: int,
)
    requires
        converted(window_id, fb, convert, before, after),
        0 <= i < fb.width * fb.height,
    ensures
        ({
            let bytes = render::bytes_of(after, window_id as int);
            &&& bytes.len() == fb.width * fb.height * 4
            &&& exists|p: Rgba8| #[trigger]
                call_ensures(convert, (fb.color@[i],), p) && bytes[i * 4] == p.r && bytes[i * 4 + 1]
                    == p.g && bytes[i * 4 + 2] == p.b && bytes[i * 4 + 3] == p.a
        }),
        other != window_id ==> render::bytes_of(after, other) == render::bytes_of(before, other),
{
    let bytes = render::bytes_of(after, window_id as int);
    let p = virtual_gpu::pixel_at(bytes, i);
    assert(call_ensures(convert, (fb.color@[i],), p));
}

/// Handing out a frame touches no other window; it counts the frame of its window exactly if
/// something was handed out of it, and what was told before is not taken back.
pub proof fn law_frames_are_counted_as_they_are_handed_out<
    W: Fn(String, Vec<u8>) -> (Vec<u8>, bool),
    A: Fn() -> u64,
>(
    before: EmissionView,
    after: EmissionView,
    window_id: usize,
    fb: Framebuffer,
    request_ids: Seq<u64>,
    config: EmitConfig,
    write: W,
    alloc: A,
)
    requires
        frame_handed_out(before, after, window_id, fb, request_ids, config, write, alloc),
        !before.rendered_any,
        window_id < before.windows.len(),
        before.windows[window_id as int].frame_id < u64::MAX,
    ensures
        after.windows.len() == before.windows.len(),
        forall|w: int|
            0 <= w < before.windows.len() && w != window_id ==> #[trigger] after.windows[w]
                == before.windows[w],
        after.windows[window_id as int].created,
        after.windows[window_id as int].frame_id == before.windows[window_id as int].frame_id
            + if after.rendered_any { 1int } else { 0int },
        after.notes.len() >= before.notes.len(),
        after.notes.take(before.notes.len() as int) == before.notes,
        config.no_png ==> after.rendered_any && after.notes == before.notes,
        !config.no_png && after.rendered_any ==> after.notes.len() == before.notes.len() + if
            config.send_protocol { 2int } else { 1int },
        !after.rendered_any ==> after.notes.len() == before.notes.len() + 1,
{
    assert(before.notes.take(before.notes.len() as int) =~= before.notes);
    assert forall|note: FrameNote| #[trigger]
        before.notes.push(note).take(before.notes.len() as int) == before.notes by {
        assert(before.notes.push(note).take(before.notes.len() as int) =~= before.notes);
    }
}

/// Frames are written to files of their own, named by the window and the frame.
pub proof fn law_files_are_named_apart(
    window_id: usize,
    frame_id: u64,
    name: String,
    other_window: usize,
    other_frame: u64,
    other: String,
)
    requires
        call_ensures(frame_file_name, (window_id, frame_id), name),
        call_ensures(frame_file_name, (other_window, other_frame), other),
    ensures
        name@ == other@ <==> window_id == other_window && frame_id == other_frame,
        text::starts_with(name@, "window_"@ + text::dec_text(window_id as nat)),
        text::occurs(name@, text::six_text(frame_id as nat)),
{
    law_frames_have_files_of_their_own(
        window_id as nat,
        frame_id as nat,
        other_window as nat,
        other_frame as nat,
    );
}

/// Frames are written where the environment says, else where the application was started; and
/// once they were, there for good.
pub proof fn law_frames_are_written_to_one_place(
    first: &mut Option<String>,
    setting: Option<&str>,
    current: Option<&str>,
    dir: String,
    second: &mut Option<String>,
    other_setting: Option<&str>,
    other_current: Option<&str>,
    again: String,
)
    requires
        *old(first) is None,
        call_ensures(headless_output_dir, (first, setting, current), dir),
        *old(second) == *final(first),
        call_ensures(headless_output_dir, (second, other_setting, other_current), again),
    ensures
        again@ == dir@,
        setting matches Some(s) ==> dir@ == s@,
        setting is None ==> (current matches Some(c) ==> dir@ == c@),
        setting is None && current is None ==> dir@ == seq!['.'],
{
    reveal_strlit(".");
    assert("."@ =~= seq!['.']);
}

/// A screenshot goes to exactly those who asked for it, as the file that the bytes of the
/// window give, and the window is flipped to the presentable that it keeps. If nobody has
/// asked, nothing is handed out, and it is left to be handed out.
pub proof fn law_a_screenshot_answers_those_who_asked<
    C: Fn(Rgba) -> Rgba8,
    R: Fn(usize) -> Vec<u64>,
    W: Fn(String, Vec<u8>) -> (Vec<u8>, bool),
    A: Fn() -> u64,
>(
    emission: &mut Emission,
    window_id: usize,
    fb: &Framebuffer,
    left: Painted,
    config: EmitConfig,
    convert: &C,
    requests: &R,
    write: &W,
    alloc: &A,
    r: Painted,
)
    requires
        call_ensures(
            Emission::emit_window::<C, R, W, A>,
            (emission, window_id, fb, left, config, convert, requests, write, alloc),
            r,
        ),
        window_id < old(emission).windows@.len(),
        old(emission).windows@[window_id as int].frame_id < u64::MAX,
        fb.width <= u32::MAX,
        fb.height <= u32::MAX,
        config.send_protocol,
        !config.no_png,
        !old(emission).rendered_any,
    ensures
        exists|ids: Vec<u64>|
            {
                let n = old(emission).notes@.len();
                &&& #[trigger] call_ensures(*requests, (0usize,), ids)
                &&& ids@.len() == 0 ==> r == left && !final(emission).rendered_any && final(emission).notes@ == old(emission).notes@
                &&& ids@.len() > 0 ==> r == Painted::Nothing
                &&& final(emission).rendered_any ==> {
                    &&& ids@.len() > 0
                    &&& final(emission).notes@.len() == n + 2
                    &&& final(emission).notes@[n as int] matches FrameNote::Send(
                        AppMessage::Screenshot { request_ids, png: file, width, height },
                    ) && request_ids@ == ids@ && file@ == png::png_bytes(
                        width,
                        height,
                        render::bytes_of(final(emission).images@, window_id as int),
                    ) && width == fb.width && height == fb.height
                    &&& final(emission).notes@[n as int + 1] matches FrameNote::Send(
                        AppMessage::DrawCompleteAndFlip {
                            window_id: shown,
                            target_id,
                            width,
                            height,
                        },
                    ) && shown == window_id && final(emission).windows@[window_id as int].presentable_id == Some(target_id) && width
                        == fb.width && height == fb.height && (old(
                        emission,
                    ).windows@[window_id as int].presentable_id matches Some(id) ==> target_id
                        == id)
                }
            },
{
}

/// Without a host a frame is written to the file that is named by its window and its number,
/// as the file that the bytes of the window give; if that fails the frame keeps its number.
pub proof fn law_a_frame_is_written_to_its_file<
    C: Fn(Rgba) -> Rgba8,
    R: Fn(usize) -> Vec<u64>,
    W: Fn(String, Vec<u8>) -> (Vec<u8>, bool),
    A: Fn() -> u64,
>(
    emission: &mut Emission,
    window_id: usize,
    fb: &Framebuffer,
    left: Painted,
    config: EmitConfig,
    convert: &C,
    requests: &R,
    write: &W,
    alloc: &A,
    r: Painted,
)
    requires
        call_ensures(
            Emission::emit_window::<C, R, W, A>,
            (emission, window_id, fb, left, config, convert, requests, write, alloc),
            r,
        ),
        window_id < old(emission).windows@.len(),
        old(emission).windows@[window_id as int].frame_id < u64::MAX,
        fb.width <= u32::MAX,
        fb.height <= u32::MAX,
        png::encodable(fb.width as u32, fb.height as u32),
        !config.send_protocol,
        !config.no_png,
        !old(emission).rendered_any,
    ensures
        r == Painted::Nothing,
        exists|name: String, file: Vec<u8>, end: (Vec<u8>, bool)|
            {
                let number = old(emission).windows@[window_id as int].frame_id;
                let after = final(emission).windows@[window_id as int];
                &&& #[trigger] call_ensures(*write, (name, file), end)
                &&& name@ == "window_"@ + text::dec_text(window_id as nat) + "_frame_"@
                    + text::six_text(number as nat) + ".png"@
                &&& file@ == png::png_bytes(
                    fb.width as u32,
                    fb.height as u32,
                    render::bytes_of(final(emission).images@, window_id as int),
                )
                &&& final(emission).rendered_any == end.1
                &&& after.frame_id == number + if end.1 { 1int } else { 0int }
                &&& final(emission).notes@ == old(emission).notes@.push(
                    if end.1 {
                        FrameNote::Written {
                            window_id,
                            frame_id: number,
                            width: fb.width as u32,
                            height: fb.height as u32,
                        }
                    } else {
                        FrameNote::WriteFailed { window_id, frame_id: number }
                    },
                )
            },
{
}

/// A window whose frame is handed out counts as created. If it did not before, it gets the
/// sizes that it has none of; one that was created keeps its state but for the number of its
/// frame and its presentable.
pub proof fn law_windows_are_created_when_they_are_handed_out<
    C: Fn(Rgba) -> Rgba8,
    R: Fn(usize) -> Vec<u64>,
    W: Fn(String, Vec<u8>) -> (Vec<u8>, bool),
    A: Fn() -> u64,
>(
    emission: &mut Emission,
    window_id: usize,
    fb: &Framebuffer,
    left: Painted,
    config: EmitConfig,
    convert: &C,
    requests: &R,
    write: &W,
    alloc: &A,
    r: Painted,
)
    requires
        call_ensures(
            Emission::emit_window::<C, R, W, A>,
            (emission, window_id, fb, left, config, convert, requests, write, alloc),
            r,
        ),
        window_id < old(emission).windows@.len(),
    ensures
        ({
            let before = old(emission).windows@[window_id as int];
            let after = final(emission).windows@[window_id as int];
            &&& after.created
            &&& before.created || before.width > 1 ==> after.width == before.width
            &&& before.created || before.height > 1 ==> after.height == before.height
            &&& !before.created && before.width <= 1 ==> after.width == 1280
            &&& !before.created && before.height <= 1 ==> after.height == 720
            &&& before.created || 0 < before.dpi_factor.bits < 0x8000_0000_0000_0000
                ==> after.dpi_factor == before.dpi_factor
            &&& !before.created && before.dpi_factor.bits == 0 ==> after.dpi_factor.bits
                == 0x3ff0_0000_0000_0000
        }),
{
}

} // verus!
