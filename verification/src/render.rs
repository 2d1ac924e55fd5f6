//! The frames of windows, which are kept.
//!
//! The framebuffer of a window lives on after a frame: with a partial repaint, what lies
//! outside of the damage are the pixels of the frame before. It is reused as long as
//! the size of the window stays. Where it does not, there are no earlier pixels to keep,
//! the clip does not apply, and everything is cleared and painted.

use crate::damage;
use crate::damage::{DamageRect, DamageTracker, DrawEvent, DrawList, DrawListId};
use crate::single;
use crate::single::{Rgba, F32, ONE_BITS};
use crate::texture::{consume_updates, CxTexture};
use crate::virtual_gpu;
use crate::virtual_gpu::{
    headless_clip_rect, set_clip_suspended, set_damage_rect, ClipRect, ClipState, Framebuffer, Rgba8,
};
use vstd::prelude::*;

verus! {

/// What a pass paints into.
#[derive(Clone, Copy, Debug, PartialEq, Eq, Structural)]
pub enum PassParent {
    /// A window.
    Window(usize),
    /// Another pass, through a texture.
    DrawPass(usize),
    /// Nothing.
    Detached,
}

/// A pass.
#[derive(Clone, Copy, Debug, PartialEq, Eq, Structural)]
pub struct PassState {
    pub paint_dirty: bool,
    pub parent: PassParent,
    pub clear_color: Rgba,
}

/// The size of a window in device pixels.
#[derive(Clone, Copy, Debug, PartialEq, Eq, Structural)]
pub struct WindowPixels {
    pub width: usize,
    pub height: usize,
}

/// The part of a framebuffer that was painted since its window was last handed out.
#[derive(Clone, Copy, Debug, PartialEq, Eq)]
pub enum Painted {
    Nothing,
    /// At most what lies in the rectangle.
    Part(ClipRect),
    Whole,
}

impl Painted {
    /// Whether the pixel at `index` may have been painted.
    pub open spec fn covers(self, index: int, width: int) -> bool {
        match self {
            Painted::Nothing => false,
            Painted::Part(c) => virtual_gpu::index_in(index, width, c),
            Painted::Whole => true,
        }
    }

    /// The part together with what a further frame paints under a clip.
    pub open spec fn joined(self, clip: Option<ClipRect>) -> Painted {
        match (self, clip) {
            (_, None) => Painted::Whole,
            (Painted::Whole, _) => Painted::Whole,
            (Painted::Nothing, Some(c)) => Painted::Part(c),
            (Painted::Part(d), Some(c)) => Painted::Part(
                (
                    if c.0 <= d.0 { c.0 } else { d.0 },
                    if c.1 <= d.1 { c.1 } else { d.1 },
                    if c.2 >= d.2 { c.2 } else { d.2 },
                    if c.3 >= d.3 { c.3 } else { d.3 },
                ),
            ),
        }
    }

    /// The part together with what a further frame paints under a clip.
    pub fn join(self, clip: Option<ClipRect>) -> (r: Painted)
        ensures
            r == self.joined(clip),
    {
        match (self, clip) {
            (_, None) => Painted::Whole,
            (Painted::Whole, _) => Painted::Whole,
            (Painted::Nothing, Some(c)) => Painted::Part(c),
            (Painted::Part(d), Some(c)) => Painted::Part(
                (
                    if c.0 <= d.0 { c.0 } else { d.0 },
                    if c.1 <= d.1 { c.1 } else { d.1 },
                    if c.2 >= d.2 { c.2 } else { d.2 },
                    if c.3 >= d.3 { c.3 } else { d.3 },
                ),
            ),
        }
    }
}

/// What is kept from frame to frame.
pub struct RenderStore {
    /// The framebuffers, by window.
    pub framebuffers: Vec<Option<Framebuffer>>,
    /// What was painted of each window since it was last handed out. A window that is not
    /// listed was never handed out.
    pub painted: Vec<Painted>,
    pub clip: ClipState,
    /// The damage of each window, from the first frame on that computes it.
    pub damage: Vec<Option<DamageTracker>>,
}

impl WindowPixels {
    /// Whether a framebuffer of that size can be held in memory.
    pub open spec fn fits(self) -> bool {
        &&& self.width <= i32::MAX
        &&& self.height <= i32::MAX
        &&& self.width * self.height * 16 <= isize::MAX
    }
}

/// A damaged rectangle as a clip rectangle.
pub open spec fn clip_of_damage(damage: Option<DamageRect>) -> Option<ClipRect> {
    match damage {
        Some(r) => Some((r.x0, r.y0, r.x1, r.y1)),
        None => None,
    }
}

impl RenderStore {
    pub open spec fn wf(&self) -> bool {
        forall|i: int|
            0 <= i < self.framebuffers@.len() ==> ((#[trigger] self.framebuffers@[i]) matches Some(
                f,
            ) ==> f.wf())
    }

    /// Whether there is a framebuffer of that size for a window.
    pub open spec fn reusable(&self, window: int, size: WindowPixels) -> bool {
        window < self.framebuffers@.len() && (self.framebuffers@[window] matches Some(f) && f.width
            == size.width && f.height == size.height)
    }

    /// What was painted of a window since it was last handed out.
    pub open spec fn unshown(&self, window: int) -> Painted {
        if 0 <= window < self.painted@.len() {
            self.painted@[window]
        } else {
            Painted::Whole
        }
    }

    /// The damage tracker of a window, once there is one.
    pub open spec fn tracker(&self, window: int) -> Option<DamageTracker> {
        if 0 <= window < self.damage@.len() {
            self.damage@[window]
        } else {
            None
        }
    }

    /// The boxes that the lists of a window occupied the last time they were drawn in it.
    pub open spec fn boxes(&self, window: int) -> Map<DrawListId, DamageRect> {
        match self.tracker(window) {
            Some(t) => t.before(),
            None => Map::empty(),
        }
    }

    /// The lists that a frame of a window draws: all of them, if it is the first or if no
    /// earlier frame of that size is kept.
    pub open spec fn drawn_in(
        &self,
        window: int,
        size: WindowPixels,
        lists: Seq<DrawList>,
    ) -> Seq<DrawListId> {
        match self.tracker(window) {
            Some(t) if self.reusable(window, size) => t.drawn(lists),
            _ => damage::all_ids(lists),
        }
    }

    /// The rectangle that a frame of a window has to repaint; none for the whole window.
    pub open spec fn damage_in(
        &self,
        window: int,
        size: WindowPixels,
        lists: Seq<DrawList>,
    ) -> Option<DamageRect> {
        match self.tracker(window) {
            Some(t) if self.reusable(window, size) => t.damage(
                lists,
                size.width as i32,
                size.height as i32,
            ),
            _ => None,
        }
    }

    /// The lists whose boxes a frame of a window notes: all of them, if it paints
    /// everything, and otherwise those that it draws.
    pub open spec fn noted_in(
        &self,
        window: int,
        size: WindowPixels,
        lists: Seq<DrawList>,
    ) -> Seq<DrawListId> {
        if self.damage_in(window, size, lists) is None {
            damage::all_ids(lists)
        } else {
            self.drawn_in(window, size, lists)
        }
    }

    /// The boxes that a frame of a window leaves behind. A list that was never noted before
    /// is noted in any case: it has come up while others were drawn.
    pub open spec fn boxes_after(
        &self,
        window: int,
        size: WindowPixels,
        lists: Seq<DrawList>,
    ) -> Map<DrawListId, DamageRect> {
        damage::filled(
            lists,
            damage::recorded(lists, self.boxes(window), self.noted_in(window, size, lists)),
        )
    }

    /// Whether two stores expect the same to be repainted in a window.
    pub open spec fn asks_alike(&self, other: &RenderStore, window: int) -> bool {
        match (self.tracker(window), other.tracker(window)) {
            (Some(a), Some(b)) => {
                &&& a.pending() == b.pending()
                &&& a.pending_deep() == b.pending_deep()
                &&& a.everything() == b.everything()
            },
            (None, Some(b)) => {
                &&& b.pending().len() == 0
                &&& b.pending_deep().len() == 0
                &&& !b.everything()
            },
            (None, None) => true,
            (Some(_), None) => false,
        }
    }

    /// Whether `after` has a record of a window, with the boxes that a frame of it leaves
    /// behind.
    pub open spec fn window_noted(
        &self,
        window: int,
        size: WindowPixels,
        lists: Seq<DrawList>,
        after: &RenderStore,
    ) -> bool {
        &&& after.tracker(window) is Some
        &&& self.asks_alike(after, window)
        &&& after.boxes(window) == self.boxes_after(window, size, lists)
    }

    /// Whether `after` knows the boxes of a frame that paints the windows `shown`: each of
    /// them is noted once, from what the frame has found, and the records of all others
    /// stay as they are. A window that was never painted has none.
    pub open spec fn damage_noted(
        &self,
        damage_on: bool,
        shown: Seq<usize>,
        windows: Seq<WindowPixels>,
        lists: Seq<Vec<DrawList>>,
        after: &RenderStore,
    ) -> bool {
        if damage_on {
            forall|w: usize|
                #![trigger after.boxes(w as int)]
                #![trigger after.tracker(w as int)]
                if shown.contains(w) {
                    self.window_noted(w as int, windows[w as int], lists[w as int]@, after)
                } else {
                    after.tracker(w as int) == self.tracker(w as int)
                }
        } else {
            after.damage == self.damage
        }
    }

    /// The rectangle that the damage leaves of a window in a frame, given what the frame
    /// has found.
    pub open spec fn frame_damage(
        &self,
        window: int,
        size: WindowPixels,
        damage_on: bool,
        lists: Seq<Vec<DrawList>>,
    ) -> Option<ClipRect> {
        if damage_on {
            clip_of_damage(self.damage_in(window, size, lists[window]@))
        } else {
            self.clip.damage
        }
    }

    /// Whether a window has a frame of that size, and it is noted what was painted of it.
    pub open spec fn has_frame(&self, window: int, size: WindowPixels) -> bool {
        self.reusable(window, size) && window < self.painted@.len()
    }

    /// The clip of a pass of a window, given what the damage leaves of it.
    pub open spec fn clip_for(
        &self,
        window: int,
        size: WindowPixels,
        damage: Option<ClipRect>,
    ) -> ClipState {
        ClipState { suspended: !self.reusable(window, size), forced: self.clip.forced, damage }
    }

    /// Whether a framebuffer is what a frame of a window starts with: inside of the clip
    /// everything is cleared, outside of it everything is as the last frame left it.
    pub open spec fn starts_with(
        &self,
        window: int,
        size: WindowPixels,
        clear: Rgba,
        clip: Option<ClipRect>,
        fb: &Framebuffer,
    ) -> bool {
        &&& fb.wf()
        &&& fb.width == size.width
        &&& fb.height == size.height
        &&& forall|i: int|
            0 <= i < fb.color@.len() ==> #[trigger] fb.color@[i] == if virtual_gpu::shown(
                i,
                size.width as int,
                clip,
            ) {
                clear
            } else {
                self.framebuffers@[window]->0.color@[i]
            }
        &&& forall|i: int|
            0 <= i < fb.depth@.len() ==> #[trigger] fb.depth@[i] == if virtual_gpu::shown(
                i,
                size.width as int,
                clip,
            ) {
                single::of_bits(ONE_BITS)
            } else {
                self.framebuffers@[window]->0.depth@[i]
            }
    }

    /// What an application starts with.
    pub fn new(clip: ClipState) -> (r: RenderStore)
        ensures
            r.wf(),
            r.clip == clip,
            r.framebuffers@.len() == 0,
            r.painted@.len() == 0,
            r.damage@.len() == 0,
    {
        RenderStore { framebuffers: Vec::new(), painted: Vec::new(), clip, damage: Vec::new() }
    }

    /// Notes for every window what is about to be repainted, before the draw event is
    /// dispatched.
    pub fn observar(&mut self, ev: &DrawEvent)
        ensures
            final(self).framebuffers == old(self).framebuffers,
            final(self).painted == old(self).painted,
            final(self).clip == old(self).clip,
            final(self).damage@.len() == old(self).damage@.len(),
            forall|w: int| #[trigger] final(self).boxes(w) == old(self).boxes(w),
            forall|w: int|
                match #[trigger] final(self).tracker(w) {
                    Some(t) => {
                        &&& old(self).tracker(w) is Some
                        &&& t.everything() == ev.redraw_all
                        &&& t.pending() == ev.draw_lists@
                        &&& t.pending_deep() == ev.draw_lists_and_children@
                    },
                    None => old(self).tracker(w) is None,
                },
    {
        let ghost before = *self;
        let n: usize = self.damage.len();
        let mut i: usize = 0;
        while i < n
            invariant
                i <= n == self.damage@.len() == before.damage@.len(),
                self.framebuffers == before.framebuffers,
                self.painted == before.painted,
                self.clip == before.clip,
                forall|w: int|
                    i <= w < n ==> #[trigger] self.damage@[w] == before.damage@[w],
                forall|w: int|
                    0 <= w < i ==> match #[trigger] self.damage@[w] {
                        Some(t) => {
                            &&& before.damage@[w] matches Some(e) && t.before() == e.before()
                            &&& t.everything() == ev.redraw_all
                            &&& t.pending() == ev.draw_lists@
                            &&& t.pending_deep() == ev.draw_lists_and_children@
                        },
                        None => before.damage@[w] is None,
                    },
            decreases n - i,
        {
            let ghost earlier = self.damage@;
            let mut taken: Option<DamageTracker> = None;
            std::mem::swap(&mut taken, &mut self.damage[i]);
            assert(earlier[i as int] == before.damage@[i as int]);
            match taken {
                Some(t) => {
                    let mut tracker = t;
                    tracker.observar(ev);
                    self.damage.set(i, Some(tracker));
                },
                None => {},
            }
            i = i + 1;
        }
    }

    /// Computes the damage of a window in a frame, and notes its boxes.
    fn note_window(
        &mut self,
        window: usize,
        size: WindowPixels,
        lists: &Vec<DrawList>,
    ) -> (r: Option<ClipRect>)
        requires
            window < old(self).damage@.len(),
        ensures
            r == clip_of_damage(old(self).damage_in(window as int, size, lists@)),
            final(self).framebuffers == old(self).framebuffers,
            final(self).painted == old(self).painted,
            final(self).clip == old(self).clip,
            final(self).damage@.len() == old(self).damage@.len(),
            forall|w: int|
                0 <= w < final(self).damage@.len() && w != window
                    ==> #[trigger] final(self).damage@[w] == old(self).damage@[w],
            old(self).window_noted(window as int, size, lists@, final(self)),
    {
        let ghost before = *self;
        let reusable = window < self.framebuffers.len() && match &self.framebuffers[window] {
            Some(f) => f.width == size.width && f.height == size.height,
            None => false,
        };
        assert(reusable == before.reusable(window as int, size));
        let mut taken: Option<DamageTracker> = None;
        std::mem::swap(&mut taken, &mut self.damage[window]);
        let mut tracker: DamageTracker = match taken {
            Some(t) => t,
            None => DamageTracker::default(),
        };
        proof {
            assert(tracker.before() =~= before.boxes(window as int));
            assert(reusable ==> tracker.drawn(lists@) =~= before.drawn_in(
                window as int,
                size,
                lists@,
            ));
        }
        let damage: Option<DamageRect> = if reusable {
            tracker.calcular(lists, size.width as i32, size.height as i32)
        } else {
            None
        };
        if damage.is_none() {
            // Everything is painted, so every list is where its box is now.
            proof {
                damage::lemma_recorded_twice(
                    lists@,
                    before.boxes(window as int),
                    before.drawn_in(window as int, size, lists@),
                );
            }
            tracker.anotar_todo(lists);
        }
        tracker.anotar_nuevas(lists);
        self.damage.set(window, Some(tracker));
        match damage {
            Some(r) => Some((r.x0, r.y0, r.x1, r.y1)),
            None => None,
        }
    }

    /// Computes the damage of a frame for each window that it paints, and notes their
    /// boxes. It is done for all of them before any is painted, and once for each.
    fn note_damage(
        &mut self,
        shown: &Vec<usize>,
        windows: &Vec<WindowPixels>,
        damage_on: bool,
        lists: &Vec<Vec<DrawList>>,
    ) -> (r: Vec<Option<ClipRect>>)
        requires
            damage_on ==> lists@.len() == windows@.len(),
            forall|i: int| 0 <= i < shown@.len() ==> #[trigger] shown@[i] < windows@.len(),
        ensures
            final(self).framebuffers == old(self).framebuffers,
            final(self).painted == old(self).painted,
            final(self).clip == old(self).clip,
            old(self).damage_noted(damage_on, shown@, windows@, lists@, final(self)),
            r@.len() == windows@.len(),
            forall|w: int|
                0 <= w < r@.len() && shown@.contains(w as usize) ==> #[trigger] r@[w] == old(
                    self,
                ).frame_damage(w, windows@[w], damage_on, lists@),
    {
        let ghost found = *self;
        let kept: Option<ClipRect> = self.clip.damage;
        let mut clips: Vec<Option<ClipRect>> = Vec::new();
        let n: usize = windows.len();
        if damage_on {
            while self.damage.len() < n
                invariant
                    self.framebuffers == found.framebuffers,
                    self.painted == found.painted,
                    self.clip == found.clip,
                    found.damage@.len() <= self.damage@.len(),
                    self.damage@.len() <= n || self.damage@.len() == found.damage@.len(),
                    forall|w: int| #[trigger] self.tracker(w) == found.tracker(w),
                decreases n - self.damage@.len(),
            {
                let ghost earlier = *self;
                self.damage.push(None);
                assert forall|w: int| #[trigger] self.tracker(w) == found.tracker(w) by {
                    assert(earlier.tracker(w) == found.tracker(w));
                    if 0 <= w < earlier.damage@.len() {
                        assert(self.damage@[w] == earlier.damage@[w]);
                    }
                }
            }
        }
        let mut w: usize = 0;
        while w < n
            invariant
                w <= n == windows@.len(),
                damage_on ==> lists@.len() == n,
                damage_on ==> n <= self.damage@.len(),
                kept == found.clip.damage,
                self.framebuffers == found.framebuffers,
                self.painted == found.painted,
                self.clip == found.clip,
                clips@.len() == w,
                !damage_on ==> self.damage == found.damage,
                damage_on ==> forall|v: int|
                    0 <= v < w && shown@.contains(v as usize) ==> #[trigger] found.window_noted(
                        v,
                        windows@[v],
                        lists@[v]@,
                        self,
                    ),
                damage_on ==> forall|v: int|
                    !(0 <= v < w && shown@.contains(v as usize)) ==> #[trigger] self.tracker(v)
                        == found.tracker(v),
                forall|v: int|
                    0 <= v < w && shown@.contains(v as usize) ==> #[trigger] clips@[v]
                        == found.frame_damage(v, windows@[v], damage_on, lists@),
            decreases n - w,
        {
            let ghost earlier = *self;
            let mut clip: Option<ClipRect> = kept;
            if damage_on && holds(shown, w) {
                assert(self.tracker(w as int) == found.tracker(w as int));
                clip = self.note_window(w, windows[w], &lists[w]);
                proof {
                    assert forall|v: int| v != w implies #[trigger] self.tracker(v)
                        == earlier.tracker(v) by {
                        if 0 <= v < self.damage@.len() {
                            assert(self.damage@[v] == earlier.damage@[v]);
                        }
                    }
                    assert forall|v: int|
                        0 <= v < w + 1 && shown@.contains(
                            v as usize,
                        ) implies #[trigger] found.window_noted(v, windows@[v], lists@[v]@, self) by {
                        if v < w {
                            assert(found.window_noted(v, windows@[v], lists@[v]@, &earlier));
                            assert(self.tracker(v) == earlier.tracker(v));
                        }
                    }
                }
            }
            clips.push(clip);
            w = w + 1;
        }
        proof {
            if damage_on {
                assert forall|v: usize|
                    #![trigger self.boxes(v as int)]
                    #![trigger self.tracker(v as int)]
                    if shown@.contains(v) {
                        found.window_noted(v as int, windows@[v as int], lists@[v as int]@, self)
                    } else {
                        self.tracker(v as int) == found.tracker(v as int)
                    } by {
                    if shown@.contains(v) {
                        let k = choose|k: int| 0 <= k < shown@.len() && shown@[k] == v;
                        assert(shown@[k] < windows@.len());
                    }
                }
            }
        }
        clips
    }

    /// Takes the framebuffer of a window out of the store, or makes one, and prepares it
    /// for a frame.
    fn open_frame(
        &mut self,
        window: usize,
        size: WindowPixels,
        clear: Rgba,
        damage: Option<ClipRect>,
    ) -> (fb: Framebuffer)
        requires
            old(self).wf(),
            size.fits(),
            window < usize::MAX,
        ensures
            final(self).wf(),
            final(self).clip == old(self).clip_for(window as int, size, damage),
            final(self).damage == old(self).damage,
            final(self).painted == old(self).painted,
            old(self).starts_with(
                window as int,
                size,
                clear,
                final(self).clip.rect(),
                &fb,
            ),
            final(self).framebuffers@.len() == if old(self).framebuffers@.len() <= window {
                (window + 1) as nat
            } else {
                old(self).framebuffers@.len()
            },
            forall|i: int|
                0 <= i < final(self).framebuffers@.len()
                    ==> #[trigger] final(self).framebuffers@[i] == if i == window || i >= old(self).framebuffers@.len() {
                    None
                } else {
                    old(self).framebuffers@[i]
                },
    {
        let ghost before = *self;
        while self.framebuffers.len() <= window
            invariant
                window < usize::MAX,
                self.clip == before.clip,
                self.damage == before.damage,
                self.painted == before.painted,
                before.framebuffers@.len() <= self.framebuffers@.len(),
                self.framebuffers@.len() <= window + 1 || self.framebuffers@.len()
                    == before.framebuffers@.len(),
                forall|i: int|
                    0 <= i < self.framebuffers@.len() ==> #[trigger] self.framebuffers@[i]
                        == if i >= before.framebuffers@.len() {
                        None
                    } else {
                        before.framebuffers@[i]
                    },
            decreases window + 1 - self.framebuffers@.len(),
        {
            self.framebuffers.push(None);
        }
        let reusable = match &self.framebuffers[window] {
            Some(f) => f.width == size.width && f.height == size.height,
            None => false,
        };
        assert(reusable == before.reusable(window as int, size));
        let mut taken: Option<Framebuffer> = None;
        let ghost grown = self.framebuffers@;
        std::mem::swap(&mut taken, &mut self.framebuffers[window]);
        assert(self.framebuffers@ =~= grown.update(window as int, None));
        let mut fb: Framebuffer = match taken {
            Some(f) => if reusable {
                f
            } else {
                Framebuffer::new(size.width, size.height)
            },
            None => Framebuffer::new(size.width, size.height),
        };
        // The damage may only leave out what an earlier frame has painted.
        set_clip_suspended(&mut self.clip, !reusable);
        set_damage_rect(&mut self.clip, damage);
        match headless_clip_rect(&self.clip) {
            Some(c) => {
                fb.clear_rect(clear, F32 { bits: ONE_BITS }, c.0, c.1, c.2, c.3);
            },
            None => {
                fb.clear(clear, F32 { bits: ONE_BITS });
            },
        }
        fb
    }

    /// Puts the framebuffer of a window back, painted under a clip.
    fn close_frame(&mut self, window: usize, fb: Framebuffer, clip: Option<ClipRect>)
        requires
            window < old(self).framebuffers@.len(),
        ensures
            final(self).clip == old(self).clip,
            final(self).damage == old(self).damage,
            final(self).framebuffers@ == old(self).framebuffers@.update(window as int, Some(fb)),
            window < final(self).painted@.len(),
            old(self).painted@.len() <= final(self).painted@.len(),
            forall|w: int| #[trigger]
                final(self).unshown(w) == if w == window {
                    old(self).unshown(w).joined(clip)
                } else {
                    old(self).unshown(w)
                },
    {
        let ghost before = *self;
        self.framebuffers.set(window, Some(fb));
        while self.painted.len() <= window
            invariant
                self.clip == before.clip,
                self.damage == before.damage,
                self.framebuffers@ == before.framebuffers@.update(window as int, Some(fb)),
                window < self.framebuffers@.len(),
                before.painted@.len() <= self.painted@.len(),
                self.painted@.len() <= window + 1 || self.painted@.len() == before.painted@.len(),
                forall|w: int| #[trigger] self.unshown(w) == before.unshown(w),
            decreases window + 1 - self.painted@.len(),
        {
            let ghost earlier = *self;
            self.painted.push(Painted::Whole);
            assert forall|w: int| #[trigger] self.unshown(w) == before.unshown(w) by {
                assert(earlier.unshown(w) == before.unshown(w));
                if 0 <= w < earlier.painted@.len() {
                    assert(self.painted@[w] == earlier.painted@[w]);
                }
            }
        }
        let ghost earlier = *self;
        let joined = self.painted[window].join(clip);
        self.painted.set(window, joined);
        assert forall|w: int| #[trigger] self.unshown(w) == if w == window {
            before.unshown(w).joined(clip)
        } else {
            before.unshown(w)
        } by {
            assert(earlier.unshown(w) == before.unshown(w));
        }
    }
}

/// Whether `ids` holds `id`.
fn holds(ids: &Vec<usize>, id: usize) -> (r: bool)
    ensures
        r == ids@.contains(id),
{
    let mut i: usize = 0;
    while i < ids.len()
        invariant
            i <= ids@.len(),
            forall|j: int| 0 <= j < i ==> ids@[j] != id,
        decreases ids@.len() - i,
    {
        if ids[i] == id {
            return true;
        }
        i = i + 1;
    }
    false
}

/// Where a frame stands between two passes: what is kept, and the textures that the frame
/// has used.
pub struct Stage {
    pub store: RenderStore,
    pub used: Vec<usize>,
}

/// Whether painting a pass into a window turns `before` into `after`. `damage` is what
/// the damage of the frame leaves of the window.
pub open spec fn window_painted<
    F: Fn(usize, Framebuffer, Option<ClipRect>, &Vec<CxTexture>, Vec<usize>) -> (
        Framebuffer,
        Vec<usize>,
    ),
>(
    before: Stage,
    after: Stage,
    pass: usize,
    window: usize,
    size: WindowPixels,
    clear: Rgba,
    damage: Option<ClipRect>,
    textures: Vec<CxTexture>,
    draw: F,
) -> bool {
    let clip = after.store.clip.rect();
    &&& after.store.clip == before.store.clip_for(window as int, size, damage)
    &&& after.store.damage == before.store.damage
    &&& forall|w: int| #[trigger]
        after.store.unshown(w) == if w == window {
            before.store.unshown(w).joined(clip)
        } else {
            before.store.unshown(w)
        }
    &&& after.store.framebuffers@.len() == if before.store.framebuffers@.len() <= window {
        (window + 1) as nat
    } else {
        before.store.framebuffers@.len()
    }
    &&& forall|i: int|
        0 <= i < after.store.framebuffers@.len() && i != window
            ==> #[trigger] after.store.framebuffers@[i] == if i
            >= before.store.framebuffers@.len() {
            None
        } else {
            before.store.framebuffers@[i]
        }
    &&& exists|start: Framebuffer, end: Framebuffer|
        {
            &&& #[trigger] call_ensures(
                draw,
                (pass, start, clip, &textures, before.used),
                (end, after.used),
            )
            &&& before.store.starts_with(window as int, size, clear, clip, &start)
            &&& after.store.framebuffers@[window as int] == Some(end)
        }
}

/// Whether painting a pass turns `before` into `after`: only passes that belong to a
/// window paint anything. The damage is that of the frame as `found` at its start.
pub open spec fn pass_painted<
    F: Fn(usize, Framebuffer, Option<ClipRect>, &Vec<CxTexture>, Vec<usize>) -> (
        Framebuffer,
        Vec<usize>,
    ),
>(
    found: RenderStore,
    before: Stage,
    after: Stage,
    passes: Seq<PassState>,
    pass: usize,
    windows: Seq<WindowPixels>,
    damage_on: bool,
    lists: Seq<Vec<DrawList>>,
    textures: Vec<CxTexture>,
    draw: F,
) -> bool {
    match passes[pass as int].parent {
        PassParent::Window(window) => window_painted(
            before,
            after,
            pass,
            window,
            windows[window as int],
            passes[pass as int].clear_color,
            found.frame_damage(window as int, windows[window as int], damage_on, lists),
            textures,
            draw,
        ),
        _ => after == before,
    }
}

/// Whether `stages` are what there is at the start of a frame and after each of its
/// passes.
pub open spec fn passes_painted<
    F: Fn(usize, Framebuffer, Option<ClipRect>, &Vec<CxTexture>, Vec<usize>) -> (
        Framebuffer,
        Vec<usize>,
    ),
>(
    found: RenderStore,
    stages: Seq<Stage>,
    passes: Seq<PassState>,
    todo: Seq<usize>,
    windows: Seq<WindowPixels>,
    damage_on: bool,
    lists: Seq<Vec<DrawList>>,
    textures: Vec<CxTexture>,
    draw: F,
) -> bool {
    stages.len() == todo.len() + 1 && forall|i: int|
        0 <= i < todo.len() ==> pass_painted(
            found,
            stages[i],
            stages[i + 1],
            passes,
            #[trigger] todo[i],
            windows,
            damage_on,
            lists,
            textures,
            draw,
        )
}

/// The windows that some passes belong to, in their order.
pub open spec fn windows_of(passes: Seq<PassState>, todo: Seq<usize>) -> Seq<usize>
    decreases todo.len(),
{
    if todo.len() == 0 {
        Seq::empty()
    } else {
        let before = windows_of(passes, todo.drop_last());
        match passes[todo.last() as int].parent {
            PassParent::Window(window) => before.push(window),
            _ => before,
        }
    }
}

fn windows_shown(passes: &Vec<PassState>, todo: &Vec<usize>) -> (r: Vec<usize>)
    requires
        forall|i: int| 0 <= i < todo@.len() ==> #[trigger] todo@[i] < passes@.len(),
    ensures
        r@ == windows_of(passes@, todo@),
{
    let mut shown: Vec<usize> = Vec::new();
    let mut i: usize = 0;
    assert(todo@.take(0) =~= Seq::<usize>::empty());
    while i < todo.len()
        invariant
            i <= todo@.len(),
            forall|i: int| 0 <= i < todo@.len() ==> #[trigger] todo@[i] < passes@.len(),
            shown@ == windows_of(passes@, todo@.take(i as int)),
        decreases todo@.len() - i,
    {
        proof {
            assert(todo@.take(i + 1).drop_last() =~= todo@.take(i as int));
            assert(todo@.take(i + 1).last() == todo@[i as int]);
        }
        match passes[todo[i]].parent {
            PassParent::Window(window) => {
                shown.push(window);
            },
            _ => {},
        }
        i = i + 1;
    }
    assert(todo@.take(i as int) =~= todo@);
    shown
}

/// Every window that some passes belong to is that of one of them.
proof fn lemma_windows_of(passes: Seq<PassState>, todo: Seq<usize>)
    ensures
        forall|k: int|
            0 <= k < windows_of(passes, todo).len() ==> exists|i: int|
                0 <= i < todo.len() && passes[#[trigger] todo[i] as int].parent
                    == PassParent::Window(#[trigger] windows_of(passes, todo)[k]),
        forall|i: int, w: usize|
            0 <= i < todo.len() && passes[todo[i] as int].parent == PassParent::Window(w)
                ==> #[trigger] windows_of(passes, todo).contains(w) && todo[i] == #[trigger] todo[i],
    decreases todo.len(),
{
    if todo.len() > 0 {
        let fewer = todo.drop_last();
        lemma_windows_of(passes, fewer);
        let (before, all) = (windows_of(passes, fewer), windows_of(passes, todo));
        assert forall|k: int| 0 <= k < all.len() implies exists|i: int|
            0 <= i < todo.len() && passes[#[trigger] todo[i] as int].parent == PassParent::Window(
                #[trigger] all[k],
            ) by {
            if k < before.len() {
                assert(before[k] == all[k]);
                let i = choose|i: int|
                    0 <= i < fewer.len() && passes[#[trigger] fewer[i] as int].parent
                        == PassParent::Window(before[k]);
                assert(todo[i] == fewer[i]);
            } else {
                assert(todo[todo.len() - 1] == todo.last());
            }
        }
        assert forall|i: int, w: usize|
            0 <= i < todo.len() && passes[todo[i] as int].parent == PassParent::Window(
                w,
            ) implies #[trigger] all.contains(w) && todo[i] == #[trigger] todo[i] by {
            if i < fewer.len() {
                assert(fewer[i] == todo[i]);
                assert(before.contains(w));
                let k = choose|k: int| 0 <= k < before.len() && before[k] == w;
                assert(all[k] == w);
            } else {
                assert(all[all.len() - 1] == w);
            }
        }
    }
}

/// Whether the textures of `used` are among `count`.
pub open spec fn used_within(used: Seq<usize>, count: nat) -> bool {
    forall|i: int| 0 <= i < used.len() ==> #[trigger] used[i] < count
}

/// Whether painting keeps to its framebuffer: it has the same size afterwards, outside of
/// the clip nothing is touched, and no texture is used that is not there.
pub open spec fn paints_soundly<
    F: Fn(usize, Framebuffer, Option<ClipRect>, &Vec<CxTexture>, Vec<usize>) -> (
        Framebuffer,
        Vec<usize>,
    ),
>(draw: F) -> bool {
    forall|
        p: usize,
        fb: Framebuffer,
        c: Option<ClipRect>,
        t: &Vec<CxTexture>,
        u: Vec<usize>,
        end: Framebuffer,
        v: Vec<usize>,
    |
        #[trigger] call_ensures(draw, (p, fb, c, t, u), (end, v)) && fb.wf() ==> {
            &&& end.wf()
            &&& end.width == fb.width
            &&& end.height == fb.height
            &&& forall|i: int|
                0 <= i < fb.color@.len() && !virtual_gpu::shown(i, fb.width as int, c)
                    ==> #[trigger] end.color@[i] == fb.color@[i] && end.depth@[i] == fb.depth@[i]
            &&& (used_within(u@, t@.len()) ==> used_within(v@, t@.len()))
        }
}

/// Paints all passes that are to be painted, and says which windows have a new frame.
/// The framebuffers stay in the store: they are needed for the next frame.
///
/// The damage of each window is computed once, before anything is painted, from what the
/// last frame of that window has left: its boxes are in the pixels of that window, and no
/// other window changes them. `draw` paints the draw calls of a pass; it is given the
/// textures that the frame has used so far, and gives them back with those that it has
/// used itself. At the end the marks of change are taken from all of them.
pub fn headless_render_all_passes<
    F: Fn(usize, Framebuffer, Option<ClipRect>, &Vec<CxTexture>, Vec<usize>) -> (
        Framebuffer,
        Vec<usize>,
    ),
>(
    store: &mut RenderStore,
    passes: &mut Vec<PassState>,
    todo: &Vec<usize>,
    windows: &Vec<WindowPixels>,
    damage_on: bool,
    lists: &Vec<Vec<DrawList>>,
    textures: &mut Vec<CxTexture>,
    draw: &F,
) -> (r: Vec<usize>)
    requires
        old(store).wf(),
        damage_on ==> lists@.len() == windows@.len(),
        forall|i: int| 0 <= i < todo@.len() ==> #[trigger] todo@[i] < old(passes)@.len(),
        forall|i: int|
            0 <= i < todo@.len() ==> (old(passes)@[#[trigger] todo@[i] as int].parent matches PassParent::Window(
                w,
            ) ==> w < windows@.len() && windows@[w as int].fits()),
        forall|p: usize, fb: Framebuffer, c: Option<ClipRect>, t: &Vec<CxTexture>, u: Vec<usize>|
            call_requires(*draw, (p, fb, c, t, u)),
        paints_soundly(*draw),
    ensures
        final(store).wf(),
        r@ == windows_of(old(passes)@, todo@),
        forall|k: int|
            0 <= k < r@.len() ==> {
                &&& #[trigger] r@[k] < windows@.len()
                &&& windows@[r@[k] as int].fits()
                &&& final(store).has_frame(r@[k] as int, windows@[r@[k] as int])
            },
        final(passes)@.len() == old(passes)@.len(),
        forall|p: int|
            0 <= p < final(passes)@.len() ==> #[trigger] final(passes)@[p] == (PassState {
                paint_dirty: old(passes)@[p].paint_dirty && !todo@.contains(p as usize),
                ..old(passes)@[p]
            }),
        old(store).damage_noted(
            damage_on,
            windows_of(old(passes)@, todo@),
            windows@,
            lists@,
            final(store),
        ),
        final(textures)@.len() == old(textures)@.len(),
        exists|stages: Seq<Stage>|
            {
                &&& #[trigger] passes_painted(
                    *old(store),
                    stages,
                    old(passes)@,
                    todo@,
                    windows@,
                    damage_on,
                    lists@,
                    *old(textures),
                    *draw,
                )
                &&& stages[0].store == (RenderStore {
                    damage: final(store).damage,
                    ..*old(store)
                })
                &&& stages[0].used@.len() == 0
                &&& stages.last().store == *final(store)
                &&& textures_consumed(
                    old(textures)@,
                    stages.last().used@,
                    final(textures)@,
                )
            },
{
    let ghost passes0 = passes@;
    let ghost textures0 = *textures;
    let ghost found = *store;
    let count: usize = passes.len();
    let results: Vec<usize> = windows_shown(passes, todo);
    proof {
        lemma_windows_of(passes0, todo@);
        assert forall|k: int| 0 <= k < results@.len() implies #[trigger] results@[k]
            < windows@.len() by {
            let i = choose|i: int|
                0 <= i < todo@.len() && passes0[#[trigger] todo@[i] as int].parent
                    == PassParent::Window(windows_of(passes0, todo@)[k]);
            assert(todo@[i] < passes0.len());
        }
    }
    let clips: Vec<Option<ClipRect>> = store.note_damage(&results, windows, damage_on, lists);
    let ghost noted = *store;
    let mut used: Vec<usize> = Vec::new();
    let ghost mut stages = seq![Stage { store: *store, used }];
    let mut i: usize = 0;
    assert(todo@.take(0) =~= Seq::<usize>::empty());
    while i < todo.len()
        invariant
            i <= todo@.len(),
            store.wf(),
            count == passes0.len(),
            results@ == windows_of(passes0, todo@),
            clips@.len() == windows@.len(),
            forall|w: int|
                0 <= w < clips@.len() && results@.contains(w as usize) ==> #[trigger] clips@[w]
                    == found.frame_damage(w, windows@[w], damage_on, lists@),
            forall|i: int| 0 <= i < todo@.len() ==> #[trigger] todo@[i] < passes0.len(),
            forall|i: int|
                0 <= i < todo@.len() ==> (passes0[#[trigger] todo@[i] as int].parent matches PassParent::Window(
                    w,
                ) ==> w < windows@.len() && windows@[w as int].fits()),
            forall|
                p: usize,
                fb: Framebuffer,
                c: Option<ClipRect>,
                t: &Vec<CxTexture>,
                u: Vec<usize>,
            | call_requires(*draw, (p, fb, c, t, u)),
            paints_soundly(*draw),
            *textures == textures0,
            used_within(used@, textures0@.len()),
            passes@.len() == passes0.len(),
            forall|p: int|
                0 <= p < passes@.len() ==> #[trigger] passes@[p] == (PassState {
                    paint_dirty: passes0[p].paint_dirty && !todo@.take(i as int).contains(
                        p as usize,
                    ),
                    ..passes0[p]
                }),
            passes_painted(
                found,
                stages,
                passes0,
                todo@.take(i as int),
                windows@,
                damage_on,
                lists@,
                textures0,
                *draw,
            ),
            stages[0].store == noted,
            stages[0].used@.len() == 0,
            stages.last() == (Stage { store: *store, used }),
            store.damage == noted.damage,
            forall|j: int|
                0 <= j < i ==> (passes0[#[trigger] todo@[j] as int].parent matches PassParent::Window(
                    w,
                ) ==> store.has_frame(w as int, windows@[w as int])),
        decreases todo@.len() - i,
    {
        let pass: usize = todo[i];
        let ghost before = Stage { store: *store, used };
        let ghost done = todo@.take(i as int);
        let ghost more = todo@.take(i + 1);
        let ghost earlier = passes@;
        let state = passes[pass];
        passes.set(pass, PassState { paint_dirty: false, ..state });
        proof {
            assert(more.drop_last() =~= done);
            assert(more.last() == pass);
            assert forall|p: int| 0 <= p < passes@.len() implies #[trigger] passes@[p] == (
            PassState {
                paint_dirty: passes0[p].paint_dirty && !more.contains(p as usize),
                ..passes0[p]
            }) by {
                assert(earlier[p] == (PassState {
                    paint_dirty: passes0[p].paint_dirty && !done.contains(p as usize),
                    ..passes0[p]
                }));
                if p == pass {
                    assert(more[i as int] == p);
                    assert(more.contains(p as usize));
                } else {
                    if more.contains(p as usize) {
                        let k = choose|k: int| 0 <= k < more.len() && more[k] == p;
                        assert(done[k] == p);
                    }
                    if done.contains(p as usize) {
                        let k = choose|k: int| 0 <= k < done.len() && done[k] == p;
                        assert(more[k] == p);
                    }
                }
            }
        }
        match state.parent {
            PassParent::Window(window) => {
                let n: usize = windows.len();
                let size = windows[window];
                proof {
                    lemma_windows_of(passes0, todo@);
                    assert(passes0[todo@[i as int] as int].parent == PassParent::Window(window));
                    assert(results@.contains(window));
                }
                let damage: Option<ClipRect> = clips[window];
                let fb = store.open_frame(window, size, state.clear_color, damage);
                let clip = headless_clip_rect(&store.clip);
                let ghost opened = *store;
                let ghost start = fb;
                let painted: (Framebuffer, Vec<usize>) = draw(pass, fb, clip, &*textures, used);
                let (end, now_used) = painted;
                store.close_frame(window, end, clip);
                used = now_used;
                proof {
                    let after = Stage { store: *store, used };
                    assert(after.store.framebuffers@[window as int] == Some(end));
                    assert(clip == after.store.clip.rect());
                    assert(before.store.starts_with(
                        window as int,
                        size,
                        state.clear_color,
                        clip,
                        &start,
                    ));
                    assert(call_ensures(
                        *draw,
                        (pass, start, clip, &textures0, before.used),
                        (end, after.used),
                    ));
                    assert forall|w: int| #[trigger] after.store.unshown(w) == if w == window {
                        before.store.unshown(w).joined(clip)
                    } else {
                        before.store.unshown(w)
                    } by {
                        assert(opened.unshown(w) == before.store.unshown(w));
                    }
                    assert(window_painted(
                        before,
                        after,
                        pass,
                        window,
                        size,
                        state.clear_color,
                        damage,
                        textures0,
                        *draw,
                    ));
                    assert(store.has_frame(window as int, size));
                    assert forall|w: int|
                        0 <= w && w != window && before.store.has_frame(
                            w,
                            windows@[w],
                        ) implies #[trigger] store.has_frame(w, windows@[w]) by {
                        assert(opened.framebuffers@[w] == before.store.framebuffers@[w]);
                        assert(store.framebuffers@[w] == opened.framebuffers@[w]);
                    }
                }
            },
            _ => {},
        }
        proof {
            let now = Stage { store: *store, used };
            let longer = stages.push(now);
            assert(pass_painted(
                found,
                before,
                now,
                passes0,
                pass,
                windows@,
                damage_on,
                lists@,
                textures0,
                *draw,
            ));
            assert forall|j: int| 0 <= j < more.len() implies pass_painted(
                found,
                longer[j],
                longer[j + 1],
                passes0,
                #[trigger] more[j],
                windows@,
                damage_on,
                lists@,
                textures0,
                *draw,
            ) by {
                if j < i {
                    assert(done[j] == more[j]);
                }
            }
            stages = longer;
        }
        i = i + 1;
    }
    assert(todo@.take(i as int) =~= todo@);
    consume_updates(textures, &used);
    proof {
        assert forall|k: int| 0 <= k < results@.len() implies {
            &&& #[trigger] results@[k] < windows@.len()
            &&& windows@[results@[k] as int].fits()
            &&& store.has_frame(results@[k] as int, windows@[results@[k] as int])
        } by {
            lemma_windows_of(passes0, todo@);
            let i = choose|i: int|
                0 <= i < todo@.len() && passes0[#[trigger] todo@[i] as int].parent
                    == PassParent::Window(windows_of(passes0, todo@)[k]);
            assert(todo@[i] < passes0.len());
        }
        assert(store.damage == noted.damage);
        assert(stages[0].store == (RenderStore { damage: store.damage, ..found }));
        assert forall|w: int| #[trigger] store.tracker(w) == noted.tracker(w) by {}
        if damage_on {
            assert forall|w: usize|
                #![trigger store.boxes(w as int)]
                #![trigger store.tracker(w as int)]
                if results@.contains(w) {
                    found.window_noted(w as int, windows@[w as int], lists@[w as int]@, store)
                } else {
                    store.tracker(w as int) == found.tracker(w as int)
                } by {
                assert(noted.boxes(w as int) == store.boxes(w as int));
                assert(noted.tracker(w as int) == store.tracker(w as int));
            }
        }
    }
    results
}

/// Whether the marks of change were taken from the textures of `used`, and from no others.
pub open spec fn textures_consumed(
    before: Seq<CxTexture>,
    used: Seq<usize>,
    after: Seq<CxTexture>,
) -> bool {
    &&& after.len() == before.len()
    &&& forall|t: int|
        0 <= t < after.len() ==> {
            &&& (#[trigger] after[t]).data_ptr == before[t].data_ptr
            &&& after[t].format == if used.contains(t as usize) {
                before[t].format.consumed()
            } else {
                before[t].format
            }
        }
}

/// A framebuffer that was just made, or that has another size than the window, is painted
/// in full, whatever the damage or the environment say.
pub proof fn law_new_framebuffers_are_painted_in_full(
    store: &RenderStore,
    window: int,
    size: WindowPixels,
    damage: Option<ClipRect>,
)
    requires
        !store.reusable(window, size),
    ensures
        store.clip_for(window, size, damage).rect() is None,
{
}

/// A frame with a clip starts, outside of it, with the pixels of the frame before.
pub proof fn law_kept_framebuffers_keep_the_rest(
    store: &RenderStore,
    window: int,
    size: WindowPixels,
    clear: Rgba,
    damage: Option<ClipRect>,
    start: &Framebuffer,
    clip: ClipRect,
    index: int,
)
    requires
        store.clip_for(window, size, damage).rect() == Some(clip),
        store.starts_with(window, size, clear, Some(clip), start),
        0 <= index < start.color@.len(),
        !virtual_gpu::index_in(index, size.width as int, clip),
    ensures
        store.reusable(window, size),
        start.color@[index] == store.framebuffers@[window]->0.color@[index],
        start.depth@[index] == store.framebuffers@[window]->0.depth@[index],
{
}

/// What a frame of a window leaves behind: the box of now of every list that it notes or
/// that was never noted, where that is known, and of every other list the box of before.
pub proof fn law_boxes_are_remembered(
    store: &RenderStore,
    window: int,
    size: WindowPixels,
    lists: Seq<DrawList>,
    id: DrawListId,
)
    ensures
        damage::known_box(store.boxes_after(window, size, lists), id) == if damage::box_of(
            lists,
            id,
        ) is Some && (store.noted_in(window, size, lists).contains(id) || damage::known_box(
            store.boxes(window),
            id,
        ) is None) {
            damage::box_of(lists, id)
        } else {
            damage::known_box(store.boxes(window), id)
        },
{
    let noted = store.noted_in(window, size, lists);
    let some = damage::recorded(lists, store.boxes(window), noted);
    let ids = damage::all_ids(lists);
    damage::lemma_recorded(lists, store.boxes(window), noted, id);
    damage::lemma_filled(lists, some, lists.len(), id);
    assert(ids.take(lists.len() as int) =~= ids);
    if damage::box_of(lists, id) is Some {
        damage::lemma_boxed_lists_are_listed(lists, id);
    }
}

/// A frame that paints everything remembers the box of every list, whatever it was asked to
/// repaint: the first frame of a window, the first of a size, and every other one whose
/// damage is not worth a scissor.
pub proof fn law_full_frames_remember_every_list(
    store: &RenderStore,
    window: int,
    size: WindowPixels,
    lists: Seq<DrawList>,
    id: DrawListId,
)
    requires
        store.damage_in(window, size, lists) is None,
        damage::box_of(lists, id) is Some,
    ensures
        damage::known_box(store.boxes_after(window, size, lists), id) == damage::box_of(lists, id),
{
    damage::lemma_boxed_lists_are_listed(lists, id);
    law_boxes_are_remembered(store, window, size, lists, id);
}

/// The first frame of a window, and the first of a size, paint everything.
pub proof fn law_first_frames_are_full(
    store: &RenderStore,
    window: int,
    size: WindowPixels,
    lists: Seq<DrawList>,
)
    requires
        store.tracker(window) is None || !store.reusable(window, size),
    ensures
        store.damage_in(window, size, lists) is None,
{
}

/// A frame leaves no list without a box that has one: whatever was painted, it is known
/// where.
pub proof fn law_every_list_is_remembered(
    store: &RenderStore,
    window: int,
    size: WindowPixels,
    lists: Seq<DrawList>,
    id: DrawListId,
)
    requires
        damage::box_of(lists, id) is Some,
    ensures
        damage::known_box(store.boxes_after(window, size, lists), id) is Some,
{
    law_boxes_are_remembered(store, window, size, lists, id);
}

/// No ghosts, in any window: wherever a list was the last time a frame has drawn it in
/// the window, the next frame that draws it there repaints, and wherever it is now. What
/// other windows the frames have painted in between does not matter. `store` is what the
/// later frame finds.
pub proof fn law_no_ghosts_in_any_window(
    store: &RenderStore,
    window: int,
    size: WindowPixels,
    lists: Seq<DrawList>,
    id: DrawListId,
    x: int,
    y: int,
)
    requires
        size.fits(),
        store.drawn_in(window, size, lists).contains(id),
        0 <= x < size.width,
        0 <= y < size.height,
        (damage::box_of(lists, id) matches Some(r) && r.has(x, y)) || (damage::known_box(
            store.boxes(window),
            id,
        ) matches Some(r) && r.has(x, y)),
    ensures
        store.damage_in(window, size, lists) matches Some(c) ==> c.has(x, y),
{
    match store.tracker(window) {
        Some(t) if store.reusable(window, size) => {
            damage::law_damage_covers_now_and_before(
                &t,
                lists,
                size.width as i32,
                size.height as i32,
                id,
                x,
                y,
            );
        },
        _ => {},
    }
}

/// No ghosts from frame to frame: where a frame has painted a list in a window, because it
/// has drawn it, or painted everything, or because the list has just come up, the next
/// frame that draws the list there repaints, wherever the list has gone since. `earlier`
/// and `later` are what the two frames find; between them the boxes of the window are
/// those that the earlier frame has left behind.
pub proof fn law_no_ghosts_from_frame_to_frame(
    earlier: &RenderStore,
    earlier_size: WindowPixels,
    earlier_lists: Seq<DrawList>,
    later: &RenderStore,
    later_lists: Seq<DrawList>,
    window: int,
    size: WindowPixels,
    id: DrawListId,
    x: int,
    y: int,
)
    requires
        size.fits(),
        later.boxes(window) == earlier.boxes_after(window, earlier_size, earlier_lists),
        earlier.noted_in(window, earlier_size, earlier_lists).contains(id) || damage::known_box(
            earlier.boxes(window),
            id,
        ) is None,
        later.drawn_in(window, size, later_lists).contains(id),
        0 <= x < size.width,
        0 <= y < size.height,
        damage::box_of(earlier_lists, id) matches Some(r) && r.has(x, y),
    ensures
        later.damage_in(window, size, later_lists) matches Some(c) ==> c.has(x, y),
{
    law_boxes_are_remembered(earlier, window, earlier_size, earlier_lists, id);
    law_no_ghosts_in_any_window(later, window, size, later_lists, id, x, y);
}

/// Whether two paintings of one pass, under a clip and of everything, agree pixel by pixel:
/// outside of the clip nothing is touched, and inside of it a pixel that was the same in both
/// becomes the same.
pub open spec fn agree_locally(
    clip: Option<ClipRect>,
    start: Framebuffer,
    end: Framebuffer,
    full_start: Framebuffer,
    full_end: Framebuffer,
) -> bool {
    start.wf() && full_start.wf() && start.width == full_start.width && start.height
        == full_start.height ==> forall|i: int|
        0 <= i < start.color@.len() ==> if virtual_gpu::shown(i, start.width as int, clip) {
            start.color@[i] == full_start.color@[i] && start.depth@[i] == full_start.depth@[i]
                ==> #[trigger] end.color@[i] == full_end.color@[i] && end.depth@[i]
                == full_end.depth@[i]
        } else {
            end.color@[i] == start.color@[i] && end.depth@[i] == start.depth@[i]
        }
}

/// Whether painting treats every pixel by itself: outside of the clip nothing is touched,
/// and inside of it a pixel becomes what it would become if everything were painted.
#[verifier::opaque]
pub open spec fn paints_locally<
    F: Fn(usize, Framebuffer, Option<ClipRect>, &Vec<CxTexture>, Vec<usize>) -> (
        Framebuffer,
        Vec<usize>,
    ),
>(draw: F, textures: Vec<CxTexture>) -> bool {
    forall|
        pass: usize,
        clip: Option<ClipRect>,
        start: Framebuffer,
        used: Vec<usize>,
        end: Framebuffer,
        end_used: Vec<usize>,
        full_start: Framebuffer,
        full_used: Vec<usize>,
        full_end: Framebuffer,
        full_end_used: Vec<usize>,
    |
        #[trigger] call_ensures(draw, (pass, start, clip, &textures, used), (end, end_used))
            && #[trigger] call_ensures(
            draw,
            (pass, full_start, None, &textures, full_used),
            (full_end, full_end_used),
        ) ==> agree_locally(clip, start, end, full_start, full_end)
}

/// Repainting only what is damaged gives the very pixels that repainting everything would
/// give, where what lies outside of the damage has not changed. If they ever differ, it
/// is by what the damage has left out.
pub proof fn law_a_partial_frame_is_a_full_one<
    F: Fn(usize, Framebuffer, Option<ClipRect>, &Vec<CxTexture>, Vec<usize>) -> (
        Framebuffer,
        Vec<usize>,
    ),
>(
    store: &RenderStore,
    window: int,
    size: WindowPixels,
    clear: Rgba,
    clip: ClipRect,
    pass: usize,
    textures: Vec<CxTexture>,
    draw: F,
    start: Framebuffer,
    used: Vec<usize>,
    end: Framebuffer,
    end_used: Vec<usize>,
    full_start: Framebuffer,
    full_used: Vec<usize>,
    full_end: Framebuffer,
    full_end_used: Vec<usize>,
)
    requires
        store.reusable(window, size),
        paints_soundly(draw),
        paints_locally(draw, textures),
        store.starts_with(window, size, clear, Some(clip), &start),
        call_ensures(draw, (pass, start, Some(clip), &textures, used), (end, end_used)),
        store.starts_with(window, size, clear, None, &full_start),
        call_ensures(
            draw,
            (pass, full_start, None, &textures, full_used),
            (full_end, full_end_used),
        ),
        forall|i: int|
            0 <= i < full_end.color@.len() && !virtual_gpu::index_in(i, size.width as int, clip)
                ==> #[trigger] full_end.color@[i] == store.framebuffers@[window]->0.color@[i]
                && full_end.depth@[i] == store.framebuffers@[window]->0.depth@[i],
    ensures
        end.color@ == full_end.color@,
        end.depth@ == full_end.depth@,
{
    assert(agree_locally(Some(clip), start, end, full_start, full_end)) by {
        reveal(paints_locally);
    }
    let n = end.color@.len() as int;
    assert forall|i: int| 0 <= i < n implies end.color@[i] == full_end.color@[i]
        && end.depth@[i] == full_end.depth@[i] by {
        assert(end.color@[i] == end.color@[i]);
        assert(full_end.color@[i] == full_end.color@[i]);
        assert(start.color@[i] == start.color@[i]);
        assert(start.depth@[i] == start.depth@[i]);
        assert(full_start.color@[i] == full_start.color@[i]);
        assert(full_start.depth@[i] == full_start.depth@[i]);
    }
    assert(end.color@ =~= full_end.color@);
    assert(end.depth@ =~= full_end.depth@);
}

/// Whether a frame can change the pixel at `index` of a window: a list that it draws
/// occupies it now, or did so the last time it was drawn.
pub open spec fn touched(
    store: &RenderStore,
    window: int,
    size: WindowPixels,
    lists: Seq<DrawList>,
    index: int,
) -> bool {
    let width = size.width as int;
    let (x, y) = (virtual_gpu::column(index, width), virtual_gpu::row(index, width));
    exists|id: DrawListId|
        {
            &&& #[trigger] store.drawn_in(window, size, lists).contains(id)
            &&& (damage::box_of(lists, id) matches Some(r) && r.has(x, y)) || (damage::known_box(
                store.boxes(window),
                id,
            ) matches Some(r) && r.has(x, y))
        }
}

/// The damage changes no pixel: if the lists keep to their boxes, so that painting
/// everything would change nothing but what the lists that are drawn occupy or have
/// occupied, then painting only the damage leaves the very framebuffer that painting
/// everything would leave. So it is the same from frame to frame whether the damage is
/// computed or not.
pub proof fn law_damage_changes_no_pixel<
    F: Fn(usize, Framebuffer, Option<ClipRect>, &Vec<CxTexture>, Vec<usize>) -> (
        Framebuffer,
        Vec<usize>,
    ),
>(
    store: &RenderStore,
    window: int,
    size: WindowPixels,
    lists: Seq<DrawList>,
    clear: Rgba,
    clip: ClipRect,
    pass: usize,
    textures: Vec<CxTexture>,
    draw: F,
    start: Framebuffer,
    used: Vec<usize>,
    end: Framebuffer,
    end_used: Vec<usize>,
    full_start: Framebuffer,
    full_used: Vec<usize>,
    full_end: Framebuffer,
    full_end_used: Vec<usize>,
)
    requires
        size.fits(),
        store.reusable(window, size),
        clip_of_damage(store.damage_in(window, size, lists)) == Some(clip),
        paints_soundly(draw),
        paints_locally(draw, textures),
        store.starts_with(window, size, clear, Some(clip), &start),
        call_ensures(draw, (pass, start, Some(clip), &textures, used), (end, end_used)),
        store.starts_with(window, size, clear, None, &full_start),
        call_ensures(
            draw,
            (pass, full_start, None, &textures, full_used),
            (full_end, full_end_used),
        ),
        forall|i: int|
            0 <= i < full_end.color@.len() && !touched(store, window, size, lists, i)
                ==> #[trigger] full_end.color@[i] == store.framebuffers@[window]->0.color@[i]
                && full_end.depth@[i] == store.framebuffers@[window]->0.depth@[i],
    ensures
        end.color@ == full_end.color@,
        end.depth@ == full_end.depth@,
{
    let w = size.width as int;
    assert forall|i: int|
        0 <= i < full_end.color@.len() && !virtual_gpu::index_in(
            i,
            w,
            clip,
        ) implies #[trigger] full_end.color@[i] == store.framebuffers@[window]->0.color@[i]
        && full_end.depth@[i] == store.framebuffers@[window]->0.depth@[i] by {
        virtual_gpu::lemma_index_splits(i, w, size.height as int);
        if touched(store, window, size, lists, i) {
            let (x, y) = (virtual_gpu::column(i, w), virtual_gpu::row(i, w));
            let id = choose|id: DrawListId|
                {
                    &&& #[trigger] store.drawn_in(window, size, lists).contains(id)
                    &&& (damage::box_of(lists, id) matches Some(r) && r.has(x, y)) || (
                    damage::known_box(store.boxes(window), id) matches Some(r) && r.has(x, y))
                };
            law_no_ghosts_in_any_window(store, window, size, lists, id, x, y);
            assert(virtual_gpu::index_in(i, w, clip));
        } else {
            assert(full_end.color@[i] == store.framebuffers@[window]->0.color@[i]);
            assert(full_end.depth@[i] == store.framebuffers@[window]->0.depth@[i]);
        }
    }
    law_a_partial_frame_is_a_full_one(
        store,
        window,
        size,
        clear,
        clip,
        pass,
        textures,
        draw,
        start,
        used,
        end,
        end_used,
        full_start,
        full_used,
        full_end,
        full_end_used,
    );
}

/// With the damage and without it, frame after frame is the same. `a` computes the damage
/// and `b` does not. If the window looks the same in both before a frame, and the lists keep
/// to their boxes, it looks the same in both after it.
pub proof fn law_with_and_without_damage<
    F: Fn(usize, Framebuffer, Option<ClipRect>, &Vec<CxTexture>, Vec<usize>) -> (
        Framebuffer,
        Vec<usize>,
    ),
>(
    a: &RenderStore,
    b: &RenderStore,
    window: int,
    size: WindowPixels,
    lists: Seq<Vec<DrawList>>,
    clear: Rgba,
    clip: Option<ClipRect>,
    pass: usize,
    textures: Vec<CxTexture>,
    draw: F,
    start_a: Framebuffer,
    used_a: Vec<usize>,
    end_a: Framebuffer,
    end_used_a: Vec<usize>,
    start_b: Framebuffer,
    used_b: Vec<usize>,
    end_b: Framebuffer,
    end_used_b: Vec<usize>,
)
    requires
        size.fits(),
        a.clip.forced is None,
        a.reusable(window, size) ==> {
            &&& a.framebuffers@[window]->0.color@ == b.framebuffers@[window]->0.color@
            &&& a.framebuffers@[window]->0.depth@ == b.framebuffers@[window]->0.depth@
        },
        clip == a.clip_for(window, size, a.frame_damage(window, size, true, lists)).rect(),
        paints_soundly(draw),
        paints_locally(draw, textures),
        a.starts_with(window, size, clear, clip, &start_a),
        call_ensures(draw, (pass, start_a, clip, &textures, used_a), (end_a, end_used_a)),
        b.starts_with(window, size, clear, None, &start_b),
        call_ensures(draw, (pass, start_b, None, &textures, used_b), (end_b, end_used_b)),
        a.reusable(window, size) ==> forall|i: int|
            0 <= i < end_b.color@.len() && !touched(
                a,
                window,
                size,
                lists[window]@,
                i,
            ) ==> #[trigger] end_b.color@[i] == b.framebuffers@[window]->0.color@[i]
                && end_b.depth@[i] == b.framebuffers@[window]->0.depth@[i],
    ensures
        end_a.color@ == end_b.color@,
        end_a.depth@ == end_b.depth@,
{
    match clip {
        Some(c) => {
            law_damage_changes_no_pixel(
                a,
                window,
                size,
                lists[window]@,
                clear,
                c,
                pass,
                textures,
                draw,
                start_a,
                used_a,
                end_a,
                end_used_a,
                start_b,
                used_b,
                end_b,
                end_used_b,
            );
        },
        None => {
            assert(agree_locally(None, start_a, end_a, start_b, end_b)) by {
                reveal(paints_locally);
            }
            assert forall|i: int| 0 <= i < end_a.color@.len() implies end_a.color@[i]
                == end_b.color@[i] && end_a.depth@[i] == end_b.depth@[i] by {
                assert(end_a.color@[i] == end_a.color@[i]);
                assert(start_a.color@[i] == start_b.color@[i]);
                assert(start_a.depth@[i] == start_b.depth@[i]);
            }
            assert(end_a.color@ =~= end_b.color@);
            assert(end_a.depth@ =~= end_b.depth@);
        },
    }
}

/// Whether `bytes` show a framebuffer, but for what was painted since.
pub open spec fn image_true<C: Fn(Rgba) -> Rgba8>(
    fb: Framebuffer,
    left: Painted,
    convert: C,
    bytes: Seq<u8>,
) -> bool {
    left == Painted::Whole || {
        &&& bytes.len() == fb.width * fb.height * 4
        &&& forall|i: int|
            0 <= i < fb.width * fb.height && !left.covers(i, fb.width as int) ==> call_ensures(
                convert,
                (fb.color@[i],),
                #[trigger] virtual_gpu::pixel_at(bytes, i),
            )
    }
}

/// The bytes that are kept of a window.
pub open spec fn bytes_of(images: Seq<Vec<u8>>, window: int) -> Seq<u8> {
    if 0 <= window < images.len() {
        images[window]@
    } else {
        Seq::empty()
    }
}

impl RenderStore {
    /// Whether the bytes of all windows show their framebuffers, but for what was painted
    /// since they were last handed out.
    pub open spec fn images_true<C: Fn(Rgba) -> Rgba8>(
        &self,
        images: Seq<Vec<u8>>,
        convert: C,
    ) -> bool {
        forall|w: int|
            0 <= w < self.framebuffers@.len() ==> ((#[trigger] self.framebuffers@[w]) matches Some(
                fb,
            ) ==> image_true(fb, self.unshown(w), convert, bytes_of(images, w)))
    }
}

proof fn lemma_window_keeps_images_true<
    F: Fn(usize, Framebuffer, Option<ClipRect>, &Vec<CxTexture>, Vec<usize>) -> (
        Framebuffer,
        Vec<usize>,
    ),
    C: Fn(Rgba) -> Rgba8,
>(
    before: Stage,
    after: Stage,
    pass: usize,
    window: usize,
    size: WindowPixels,
    clear: Rgba,
    damage: Option<ClipRect>,
    textures: Vec<CxTexture>,
    draw: F,
    images: Seq<Vec<u8>>,
    convert: C,
)
    requires
        paints_soundly(draw),
        window_painted(before, after, pass, window, size, clear, damage, textures, draw),
        before.store.wf(),
        before.store.images_true(images, convert),
    ensures
        after.store.wf(),
        after.store.images_true(images, convert),
{
    let clip = after.store.clip.rect();
    let (start, end) = choose|start: Framebuffer, end: Framebuffer|
        {
            &&& #[trigger] call_ensures(
                draw,
                (pass, start, clip, &textures, before.used),
                (end, after.used),
            )
            &&& before.store.starts_with(window as int, size, clear, clip, &start)
            &&& after.store.framebuffers@[window as int] == Some(end)
        };
    assert forall|w: int| 0 <= w < after.store.framebuffers@.len() implies ((
    #[trigger] after.store.framebuffers@[w]) matches Some(fb) ==> fb.wf() && image_true(
        fb,
        after.store.unshown(w),
        convert,
        bytes_of(images, w),
    )) by {
        let left = before.store.unshown(w);
        let now = after.store.unshown(w);
        let bytes = bytes_of(images, w);
        if w == window {
            if now != Painted::Whole {
                let old_fb = before.store.framebuffers@[w]->0;
                assert(before.store.framebuffers@[w] == Some(old_fb));
                assert(image_true(old_fb, left, convert, bytes));
                assert forall|i: int|
                    0 <= i < end.width * end.height && !now.covers(
                        i,
                        end.width as int,
                    ) implies call_ensures(
                    convert,
                    (end.color@[i],),
                    #[trigger] virtual_gpu::pixel_at(bytes, i),
                ) by {
                    assert(!left.covers(i, end.width as int));
                    assert(!virtual_gpu::shown(i, end.width as int, clip));
                    assert(end.color@[i] == start.color@[i]);
                    assert(start.color@[i] == old_fb.color@[i]);
                }
            }
        } else if w < before.store.framebuffers@.len() {
            assert(after.store.framebuffers@[w] == before.store.framebuffers@[w]);
        }
    }
    assert forall|i: int| 0 <= i < after.store.framebuffers@.len() implies ((
    #[trigger] after.store.framebuffers@[i]) matches Some(f) ==> f.wf()) by {}
}

/// Painting frames, any number of them, keeps the bytes of every window true: what they
/// do not show is noted as painted. So a window that is handed out later, after frames
/// that were not, is converted wherever it has changed.
pub proof fn law_painting_notes_what_it_changes<
    F: Fn(usize, Framebuffer, Option<ClipRect>, &Vec<CxTexture>, Vec<usize>) -> (
        Framebuffer,
        Vec<usize>,
    ),
    C: Fn(Rgba) -> Rgba8,
>(
    found: RenderStore,
    stages: Seq<Stage>,
    passes: Seq<PassState>,
    todo: Seq<usize>,
    windows: Seq<WindowPixels>,
    damage_on: bool,
    lists: Seq<Vec<DrawList>>,
    textures: Vec<CxTexture>,
    draw: F,
    images: Seq<Vec<u8>>,
    convert: C,
)
    requires
        paints_soundly(draw),
        passes_painted(found, stages, passes, todo, windows, damage_on, lists, textures, draw),
        stages[0].store.wf(),
        stages[0].store.images_true(images, convert),
    ensures
        stages.last().store.wf(),
        stages.last().store.images_true(images, convert),
    decreases todo.len(),
{
    if todo.len() > 0 {
        let fewer = todo.drop_last();
        let some = stages.drop_last();
        let n = todo.len() - 1;
        assert forall|i: int| 0 <= i < fewer.len() implies pass_painted(
            found,
            some[i],
            some[i + 1],
            passes,
            #[trigger] fewer[i],
            windows,
            damage_on,
            lists,
            textures,
            draw,
        ) by {
            assert(fewer[i] == todo[i]);
        }
        law_painting_notes_what_it_changes(
            found,
            some,
            passes,
            fewer,
            windows,
            damage_on,
            lists,
            textures,
            draw,
            images,
            convert,
        );
        let pass = todo[n];
        assert(some.last() == stages[n]);
        assert(pass_painted(
            found,
            stages[n],
            stages[n + 1],
            passes,
            pass,
            windows,
            damage_on,
            lists,
            textures,
            draw,
        ));
        match passes[pass as int].parent {
            PassParent::Window(window) => {
                lemma_window_keeps_images_true(
                    stages[n],
                    stages[n + 1],
                    pass,
                    window,
                    windows[window as int],
                    passes[pass as int].clear_color,
                    found.frame_damage(window as int, windows[window as int], damage_on, lists),
                    textures,
                    draw,
                    images,
                    convert,
                );
            },
            _ => {},
        }
    }
}

/// What was painted and not handed out grows with every frame: it covers what it covered, and
/// what the frame has painted; and of a window that was handed out, just that.
pub proof fn law_painted_parts_add_up(
    painted: Painted,
    clip: Option<ClipRect>,
    x: int,
    y: int,
    width: int,
)
    requires
        0 <= x < width,
        0 <= y,
    ensures
        painted.covers(y * width + x, width) ==> painted.joined(clip).covers(y * width + x, width),
        clip is None ==> painted.joined(clip).covers(y * width + x, width),
        clip matches Some(c) ==> {
            &&& c.0 <= x < c.2 && c.1 <= y < c.3 ==> painted.joined(clip).covers(
                y * width + x,
                width,
            )
            &&& painted == Painted::Nothing ==> (painted.joined(clip).covers(y * width + x, width)
                <==> c.0 <= x < c.2 && c.1 <= y < c.3)
        },
        !Painted::Nothing.covers(y * width + x, width),
        Painted::Whole.covers(y * width + x, width),
{
    virtual_gpu::lemma_row_and_column(x, y, width);
}

/// A frame of a window that is kept is cut down to nothing that has to be repainted: every
/// pixel on screen in which a list that was asked for is painted lies in the part that the
/// frame is cut down to, if it is cut down at all.
pub proof fn law_a_frame_repaints_what_was_asked_for(
    store: &RenderStore,
    tracker: DamageTracker,
    window: int,
    size: WindowPixels,
    lists: Seq<Vec<DrawList>>,
    i: int,
    r: DamageRect,
    x: int,
    y: int,
)
    requires
        size.fits(),
        store.tracker(window) == Some(tracker),
        0 <= i < lists[window]@.len(),
        forall|j: int|
            0 <= j < i ==> (#[trigger] lists[window]@[j]).id != lists[window]@[i].id,
        tracker.pending().contains(lists[window]@[i].id) || tracker.pending_deep().contains(
            lists[window]@[i].id,
        ),
        lists[window]@[i].painted == Some(r),
        r.x0 <= x < r.x1,
        r.y0 <= y < r.y1,
        0 <= x < size.width,
        0 <= y < size.height,
    ensures
        store.frame_damage(window, size, true, lists) matches Some(c) ==> c.0 <= x < c.2 && c.1
            <= y < c.3,
{
    damage::law_damage_covers_what_is_painted(
        &tracker,
        lists[window]@,
        size.width as i32,
        size.height as i32,
        i,
        r,
        x,
        y,
    );
}

/// A frame is cut down only if the window is shown at the size that is kept, by what is known
/// of it: a window that is new or has changed its size is painted in full, and so is one that
/// nothing was noted of, or that was asked to paint everything.
pub proof fn law_new_windows_are_painted_in_full(
    store: &RenderStore,
    window: int,
    size: WindowPixels,
    lists: Seq<Vec<DrawList>>,
    damage: Option<ClipRect>,
)
    ensures
        window >= store.framebuffers@.len() || store.framebuffers@[window] is None
            ==> store.frame_damage(window, size, true, lists) is None && store.clip_for(
            window,
            size,
            damage,
        ).rect() is None,
        0 <= window < store.framebuffers@.len() ==> (store.framebuffers@[window] matches Some(fb)
            ==> {
            &&& fb.width != size.width || fb.height != size.height ==> store.frame_damage(
                window,
                size,
                true,
                lists,
            ) is None && store.clip_for(window, size, damage).rect() is None
            &&& fb.width == size.width && fb.height == size.height && store.clip.forced is None
                ==> store.clip_for(window, size, damage).rect() == damage
            &&& fb.width == size.width && fb.height == size.height && store.clip.forced is Some
                ==> store.clip_for(window, size, damage).rect() == store.clip.forced
        }),
        store.tracker(window) is None ==> store.frame_damage(window, size, true, lists) is None,
        (store.tracker(window) matches Some(t) && t.everything()) ==> store.frame_damage(
            window,
            size,
            true,
            lists,
        ) is None,
        store.frame_damage(window, size, false, lists) == store.clip.damage,
{
}

/// A frame starts cleared where it is painted, at the greatest depth, and with what was there
/// where it is not.
pub proof fn law_a_frame_starts_cleared_where_it_is_painted(
    store: &RenderStore,
    window: int,
    size: WindowPixels,
    clear: Rgba,
    clip: Option<ClipRect>,
    fb: &Framebuffer,
    x: int,
    y: int,
)
    requires
        store.starts_with(window, size, clear, clip, fb),
        0 <= x < size.width,
        0 <= y < size.height,
    ensures
        fb.width == size.width,
        fb.height == size.height,
        ({
            let at = y * size.width + x;
            let kept = store.framebuffers@[window]->0;
            let painted = clip matches Some(c) ==> c.0 <= x < c.2 && c.1 <= y < c.3;
            &&& painted ==> fb.color@[at] == clear && fb.depth@[at].bits == 0x3f80_0000
            &&& !painted ==> fb.color@[at] == kept.color@[at] && fb.depth@[at] == kept.depth@[at]
        }),
{
    let w = size.width as int;
    virtual_gpu::lemma_row_and_column(x, y, w);
    virtual_gpu::lemma_index_in_range(x, y, w, size.height as int);
}

/// Painting a window changes that window: what `draw` gives is kept for it, and the frames of
/// the others, what was noted of them and what is left of them to hand out, stay.
pub proof fn law_painting_a_window_leaves_the_others<
    F: Fn(usize, Framebuffer, Option<ClipRect>, &Vec<CxTexture>, Vec<usize>) -> (
        Framebuffer,
        Vec<usize>,
    ),
>(
    before: Stage,
    after: Stage,
    pass: usize,
    window: usize,
    size: WindowPixels,
    clear: Rgba,
    damage: Option<ClipRect>,
    textures: Vec<CxTexture>,
    draw: F,
    other: int,
)
    requires
        window_painted(before, after, pass, window, size, clear, damage, textures, draw),
        0 <= other,
        other != window,
    ensures
        window < after.store.framebuffers@.len(),
        after.store.framebuffers@[window as int] is Some,
        other < before.store.framebuffers@.len() ==> other < after.store.framebuffers@.len()
            && after.store.framebuffers@[other] == before.store.framebuffers@[other],
        after.store.unshown(other) == before.store.unshown(other),
        after.store.tracker(other) == before.store.tracker(other),
        after.store.clip.forced == before.store.clip.forced,
        exists|start: Framebuffer, end: Framebuffer|
            {
                &&& #[trigger] call_ensures(
                    draw,
                    (pass, start, after.store.clip.rect(), &textures, before.used),
                    (end, after.used),
                )
                &&& after.store.framebuffers@[window as int] == Some(end)
            },
{
}

/// The windows that are painted are those of the passes, in the order of the passes; passes
/// without a window add none.
pub proof fn law_windows_are_painted_in_the_order_of_passes(
    passes: Seq<PassState>,
    first: Seq<usize>,
    second: Seq<usize>,
    pass: usize,
)
    ensures
        windows_of(passes, first + second) == windows_of(passes, first) + windows_of(
            passes,
            second,
        ),
        match passes[pass as int].parent {
            PassParent::Window(window) => windows_of(passes, seq![pass]) == seq![window],
            _ => windows_of(passes, seq![pass]).len() == 0,
        },
    decreases second.len(),
{
    reveal_with_fuel(windows_of, 2);
    let none = Seq::<usize>::empty();
    assert(seq![pass].drop_last() =~= none);
    match passes[pass as int].parent {
        PassParent::Window(window) => {
            assert(none.push(window) =~= seq![window]);
        },
        _ => {},
    }
    if second.len() > 0 {
        law_windows_are_painted_in_the_order_of_passes(passes, first, second.drop_last(), pass);
        assert((first + second).drop_last() =~= first + second.drop_last());
        assert(windows_of(passes, first + second) =~= windows_of(passes, first) + windows_of(
            passes,
            second,
        ));
    } else {
        assert(first + second =~= first);
        assert(windows_of(passes, first) + none =~= windows_of(passes, first));
    }
}

/// What a frame notes of a window is the rectangle in which each list is painted: of the lists
/// that it draws, of all if it paints everything, and of those that were never noted.
pub proof fn law_a_frame_notes_where_lists_are_painted(
    store: &RenderStore,
    window: int,
    size: WindowPixels,
    lists: Seq<DrawList>,
    i: int,
    r: DamageRect,
)
    requires
        0 <= i < lists.len(),
        forall|j: int| 0 <= j < i ==> (#[trigger] lists[j]).id != lists[i].id,
        lists[i].painted == Some(r),
        r.x0 < r.x1,
        r.y0 < r.y1,
    ensures
        ({
            let noted = store.boxes_after(window, size, lists);
            let drawn = store.damage_in(window, size, lists) is None || store.drawn_in(
                window,
                size,
                lists,
            ).contains(lists[i].id);
            &&& noted.contains_key(lists[i].id)
            &&& drawn ==> noted[lists[i].id] == r
            &&& !drawn && store.boxes(window).contains_key(lists[i].id) ==> noted[lists[i].id]
                == store.boxes(window)[lists[i].id]
            &&& !drawn && !store.boxes(window).contains_key(lists[i].id) ==> noted[lists[i].id] == r
        }),
{
    let ids = store.noted_in(window, size, lists);
    let recorded = damage::recorded(lists, store.boxes(window), ids);
    damage::law_new_lists_are_remembered(lists, recorded, i, r);
    assert(damage::all_ids(lists)[i] == lists[i].id);
    if ids.contains(lists[i].id) {
        damage::law_the_last_box_is_remembered(lists, store.boxes(window), ids, i, r);
    } else {
        damage::law_boxes_stay_until_noted_again(lists, store.boxes(window), ids, lists[i].id);
    }
}

/// What is left to hand out covers what was left and what was painted since.
pub proof fn law_nothing_painted_is_forgotten(
    painted: Painted,
    clip: Option<ClipRect>,
    r: Painted,
    x: int,
    y: int,
    width: int,
)
    requires
        call_ensures(Painted::join, (painted, clip), r),
        0 <= x < width,
        0 <= y,
    ensures
        painted == Painted::Whole || clip is None ==> r == Painted::Whole,
        (clip matches Some(c) && c.0 <= x < c.2 && c.1 <= y < c.3) ==> r.covers(
            y * width + x,
            width,
        ),
        painted.covers(y * width + x, width) ==> r.covers(y * width + x, width),
        painted == Painted::Nothing ==> (clip matches Some(c) ==> r == Painted::Part(c)),
{
    law_painted_parts_add_up(painted, clip, x, y, width);
}

/// What an event names has to be repainted in every window, and nothing else of an earlier
/// event; what was painted, and where, stays known.
pub proof fn law_an_event_reaches_every_window(
    store: &mut RenderStore,
    ev: &DrawEvent,
    window: int,
    before: DamageTracker,
)
    requires
        call_ensures(RenderStore::observar, (store, ev), ()),
        old(store).tracker(window) == Some(before),
    ensures
        final(store).framebuffers@ == old(store).framebuffers@,
        final(store).painted@ == old(store).painted@,
        final(store).boxes(window) == old(store).boxes(window),
        final(store).tracker(window) matches Some(t) && t.everything() == ev.redraw_all
            && t.pending() == ev.draw_lists@ && t.pending_deep() == ev.draw_lists_and_children@,
{
    let args = (store, ev);
    let after = final(store).tracker(window);
    let boxes = final(store).boxes(window);
}

/// The passes of a frame paint their windows: each of them has a framebuffer of its size in
/// the end, the passes count as painted, and others keep their state.
pub proof fn law_the_passes_paint_their_windows<
    F: Fn(usize, Framebuffer, Option<ClipRect>, &Vec<CxTexture>, Vec<usize>) -> (
        Framebuffer,
        Vec<usize>,
    ),
>(
    store: &mut RenderStore,
    passes: &mut Vec<PassState>,
    todo: &Vec<usize>,
    windows: &Vec<WindowPixels>,
    damage_on: bool,
    lists: &Vec<Vec<DrawList>>,
    textures: &mut Vec<CxTexture>,
    draw: &F,
    r: Vec<usize>,
    i: int,
    pass: int,
)
    requires
        call_ensures(
            headless_render_all_passes::<F>,
            (store, passes, todo, windows, damage_on, lists, textures, draw),
            r,
        ),
        0 <= i < todo@.len(),
        0 <= pass < old(passes)@.len(),
    ensures
        (old(passes)@[todo@[i] as int].parent matches PassParent::Window(w) ==> r@.contains(w) && w
            < windows@.len() && w < final(store).framebuffers@.len() && (final(store).framebuffers@[w as int] matches Some(fb) && fb.width == windows@[w as int].width
            && fb.height == windows@[w as int].height)),
        final(passes)@.len() == old(passes)@.len(),
        final(passes)@[pass].parent == old(passes)@[pass].parent,
        final(passes)@[pass].clear_color == old(passes)@[pass].clear_color,
        todo@.contains(pass as usize) ==> !final(passes)@[pass].paint_dirty,
        !todo@.contains(pass as usize) ==> final(passes)@[pass].paint_dirty == old(
            passes,
        )@[pass].paint_dirty,
        final(textures)@.len() == old(textures)@.len(),
{
    let state = final(passes)@[pass];
    lemma_window_is_shown(old(passes)@, todo@, i);
    match old(passes)@[todo@[i] as int].parent {
        PassParent::Window(w) => {
            let k = choose|k: int| 0 <= k < r@.len() && r@[k] == w;
            let shown = r@[k];
        },
        _ => {},
    }
}

proof fn lemma_window_is_shown(passes: Seq<PassState>, todo: Seq<usize>, i: int)
    requires
        0 <= i < todo.len(),
    ensures
        passes[todo[i] as int].parent matches PassParent::Window(w) ==> windows_of(
            passes,
            todo,
        ).contains(w),
    decreases todo.len(),
{
    match passes[todo[i] as int].parent {
        PassParent::Window(w) => {
            let all = windows_of(passes, todo);
            if i == todo.len() - 1 {
                assert(all[all.len() - 1] == w);
            } else {
                lemma_window_is_shown(passes, todo.drop_last(), i);
                let before = windows_of(passes, todo.drop_last());
                let k = choose|k: int| 0 <= k < before.len() && before[k] == w;
                assert(all[k] == w);
            }
        },
        _ => {},
    }
}

} // verus!
