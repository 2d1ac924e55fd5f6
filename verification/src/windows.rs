//! The windows of an application that draws without a display, and what it asks of them.

use crate::double;
use crate::double::{Vec2d, F64};
use crate::text;
use std::collections::VecDeque;
use vstd::prelude::*;

verus! {

/// The width of a window whose size is not known.
pub const DEFAULT_WIDTH: u32 = 1280;

/// The height of a window whose size is not known.
pub const DEFAULT_HEIGHT: u32 = 720;

/// A window as the renderer keeps it.
#[derive(Clone, Copy, Debug, PartialEq, Eq)]
pub struct HeadlessWindowState {
    pub created: bool,
    pub width: u32,
    pub height: u32,
    pub dpi_factor: F64,
    /// The number of the next frame.
    pub frame_id: u64,
    /// The image that the host shows, if one was agreed on.
    pub presentable_id: Option<u64>,
}

/// A window as the application sees it.
#[derive(Clone, Copy, Debug, PartialEq, Eq)]
pub struct CxWindow {
    /// Whether the window exists.
    pub valid: bool,
    pub is_created: bool,
    pub kind_id: usize,
    pub create_inner_size: Option<Vec2d>,
    pub create_position: Option<Vec2d>,
    pub position: Vec2d,
    pub inner_size: Vec2d,
    pub outer_size: Vec2d,
    pub dpi_factor: F64,
    pub is_popup: bool,
    pub popup_parent: Option<usize>,
    pub popup_position: Option<Vec2d>,
    pub popup_size: Option<Vec2d>,
    pub popup_grab_keyboard: bool,
}

/// What an application asks of its platform.
pub enum OsOp {
    CreateWindow(usize),
    CreatePopupWindow {
        window_id: usize,
        parent_window_id: usize,
        position: Vec2d,
        size: Vec2d,
        grab_keyboard: bool,
    },
    ResizeWindow(usize, Vec2d),
    SetCursor(u32),
    StartTimer { timer_id: u64, interval: F64, repeats: bool },
    StopTimer(u64),
    CopyToClipboard(String),
    Quit,
    /// Something that has no meaning without a display.
    Other,
}

/// What the application tells the host.
pub enum AppMessage {
    BeforeStartup,
    AfterStartup,
    RequestAnimationFrame,
    CreateWindow { window_id: usize, kind_id: usize },
    SetCursor(u32),
    SetClipboard(String),
    Screenshot { request_ids: Vec<u64>, png: Vec<u8>, width: u32, height: u32 },
    DrawCompleteAndFlip { window_id: usize, target_id: u64, width: u32, height: u32 },
}

/// What has to be done for something that was asked.
pub enum OpEffect {
    /// Tell the host.
    Send(AppMessage),
    /// Everything has to be drawn again.
    RedrawAll,
    StartTimer { timer_id: u64, interval: F64, repeats: bool },
    StopTimer(u64),
}

/// What is configured for all windows.
#[derive(Clone, Copy, Debug, PartialEq, Eq)]
pub struct WindowConfig {
    /// The size of every window, whatever the application asks for.
    pub forced_size: Option<Vec2d>,
    pub dpi: F64,
}

/// A window that nothing is known of.
pub open spec fn unknown_window() -> HeadlessWindowState {
    HeadlessWindowState {
        created: false,
        width: 0,
        height: 0,
        dpi_factor: double::of_bits(0),
        frame_id: 0,
        presentable_id: None,
    }
}

/// The window that is there if the application asks for none.
pub open spec fn fallback_window() -> HeadlessWindowState {
    HeadlessWindowState {
        created: true,
        width: DEFAULT_WIDTH,
        height: DEFAULT_HEIGHT,
        dpi_factor: double::of_bits(double::ONE_BITS),
        frame_id: 0,
        presentable_id: None,
    }
}

impl Default for HeadlessWindowState {
    fn default() -> (r: Self)
        ensures
            r == unknown_window(),
    {
        HeadlessWindowState {
            created: false,
            width: 0,
            height: 0,
            dpi_factor: F64 { bits: 0 },
            frame_id: 0,
            presentable_id: None,
        }
    }
}

impl HeadlessWindowState {
    /// The window with a default for each side that is at most one pixel, and for a
    /// scale that is not positive.
    pub open spec fn with_size_defaults(self) -> HeadlessWindowState {
        HeadlessWindowState {
            width: if self.width <= 1 {
                DEFAULT_WIDTH
            } else {
                self.width
            },
            height: if self.height <= 1 {
                DEFAULT_HEIGHT
            } else {
                self.height
            },
            dpi_factor: if self.dpi_factor.not_positive() {
                double::of_bits(double::ONE_BITS)
            } else {
                self.dpi_factor
            },
            ..self
        }
    }

    pub fn ensure_size_defaults(&mut self)
        ensures
            *final(self) == old(self).with_size_defaults(),
    {
        if self.width <= 1 {
            self.width = DEFAULT_WIDTH;
        }
        if self.height <= 1 {
            self.height = DEFAULT_HEIGHT;
        }
        if self.dpi_factor.is_not_positive() {
            self.dpi_factor = F64 { bits: double::ONE_BITS };
        }
    }

    /// A window that was created with a size.
    pub open spec fn sized(self, size: Vec2d) -> HeadlessWindowState {
        HeadlessWindowState {
            created: true,
            width: size.x.pixels(),
            height: size.y.pixels(),
            ..self
        }
    }
}

/// Once the defaults are set, setting them again changes nothing, and no side is less
/// than two pixels.
pub proof fn law_size_defaults_settle(state: HeadlessWindowState)
    ensures
        state.with_size_defaults().with_size_defaults() == state.with_size_defaults(),
        state.with_size_defaults().width >= 2,
        state.with_size_defaults().height >= 2,
        !state.with_size_defaults().dpi_factor.not_positive(),
{
    assert(!double::of_bits(double::ONE_BITS).not_positive());
}

/// The windows, with unknown ones added behind them until there is one at `id`.
pub open spec fn with_window(windows: Seq<HeadlessWindowState>, id: int) -> Seq<
    HeadlessWindowState,
> {
    if id < windows.len() {
        windows
    } else {
        windows + Seq::new((id + 1 - windows.len()) as nat, |i: int| unknown_window())
    }
}

/// Makes sure that there is a window at `id`.
fn grow_to(windows: &mut Vec<HeadlessWindowState>, id: usize)
    requires
        id < usize::MAX,
    ensures
        final(windows)@ == with_window(old(windows)@, id as int),
{
    let ghost before = windows@;
    while windows.len() <= id
        invariant
            id < usize::MAX,
            before.len() <= windows@.len(),
            windows@.len() <= id + 1 || windows@.len() == before.len(),
            windows@ =~= before + Seq::new(
                (windows@.len() - before.len()) as nat,
                |i: int| unknown_window(),
            ),
        decreases id + 1 - windows@.len(),
    {
        windows.push(HeadlessWindowState::default());
    }
    assert(windows@ =~= with_window(before, id as int));
}

/// The size that a window is created with: the forced one, else the one that was asked
/// for, else the usual one.
pub open spec fn creation_size(config: WindowConfig, window: CxWindow) -> Vec2d {
    match config.forced_size {
        Some(size) => size,
        None => match window.create_inner_size {
            Some(size) => size,
            None => double::vec_of_bits(double::N1920_BITS, double::N1080_BITS),
        },
    }
}

/// The windows, as the renderer keeps them and as the application sees them.
pub struct Windows {
    pub states: Vec<HeadlessWindowState>,
    pub pool: Vec<CxWindow>,
}

/// The windows in mathematical terms.
pub struct WindowsView {
    pub states: Seq<HeadlessWindowState>,
    pub pool: Seq<CxWindow>,
}

impl Windows {
    pub open spec fn model(&self) -> WindowsView {
        WindowsView { states: self.states@, pool: self.pool@ }
    }
}

impl WindowsView {
    /// The windows after the one at `id` was created.
    pub open spec fn created(self, id: int, config: WindowConfig) -> WindowsView {
        let window = self.pool[id];
        let size = creation_size(config, window);
        let states = with_window(self.states, id);
        WindowsView {
            states: states.update(
                id,
                HeadlessWindowState { dpi_factor: config.dpi, ..states[id].sized(size) },
            ),
            pool: self.pool.update(
                id,
                CxWindow {
                    is_created: true,
                    position: match window.create_position {
                        Some(p) => p,
                        None => double::vec_of_bits(0, 0),
                    },
                    inner_size: size,
                    outer_size: size,
                    dpi_factor: config.dpi,
                    ..window
                },
            ),
        }
    }

    /// The windows after the one at `id` was created as a popup.
    pub open spec fn popped_up(
        self,
        id: int,
        parent: usize,
        position: Vec2d,
        size: Vec2d,
        grab_keyboard: bool,
    ) -> WindowsView {
        let states = with_window(self.states, id);
        WindowsView {
            states: states.update(id, states[id].sized(size).with_size_defaults()),
            pool: self.pool.update(
                id,
                CxWindow {
                    is_created: true,
                    position,
                    inner_size: size,
                    outer_size: size,
                    is_popup: true,
                    popup_parent: Some(parent),
                    popup_position: Some(position),
                    popup_size: Some(size),
                    popup_grab_keyboard: grab_keyboard,
                    ..self.pool[id]
                },
            ),
        }
    }

    /// The windows after the one at `id` was given a size.
    pub open spec fn resized(self, id: int, size: Vec2d) -> WindowsView {
        let states = with_window(self.states, id);
        WindowsView {
            states: states.update(id, states[id].sized(size).with_size_defaults()),
            pool: if id < self.pool.len() && self.pool[id].valid {
                self.pool.update(id, CxWindow { inner_size: size, ..self.pool[id] })
            } else {
                self.pool
            },
        }
    }

    /// The windows after something was asked of the platform.
    pub open spec fn after_op(self, op: OsOp, config: WindowConfig) -> WindowsView {
        match op {
            OsOp::CreateWindow(id) => self.created(id as int, config),
            OsOp::CreatePopupWindow {
                window_id,
                parent_window_id,
                position,
                size,
                grab_keyboard,
            } => self.popped_up(window_id as int, parent_window_id, position, size, grab_keyboard),
            OsOp::ResizeWindow(id, size) => self.resized(id as int, size),
            _ => self,
        }
    }

    /// What has to be done for something that was asked. The host is told only where
    /// there is one.
    pub open spec fn effects_of(self, op: OsOp, send_protocol: bool) -> Seq<OpEffect> {
        match op {
            OsOp::CreateWindow(id) => if send_protocol {
                seq![
                    OpEffect::Send(
                        AppMessage::CreateWindow {
                            window_id: id,
                            kind_id: self.pool[id as int].kind_id,
                        },
                    ),
                    OpEffect::RedrawAll,
                ]
            } else {
                seq![OpEffect::RedrawAll]
            },
            OsOp::CreatePopupWindow { .. } => seq![OpEffect::RedrawAll],
            OsOp::ResizeWindow(..) => seq![OpEffect::RedrawAll],
            OsOp::SetCursor(cursor) => if send_protocol {
                seq![OpEffect::Send(AppMessage::SetCursor(cursor))]
            } else {
                Seq::empty()
            },
            OsOp::StartTimer { timer_id, interval, repeats } => seq![
                OpEffect::StartTimer { timer_id, interval, repeats },
            ],
            OsOp::StopTimer(timer_id) => seq![OpEffect::StopTimer(timer_id)],
            OsOp::CopyToClipboard(content) => if send_protocol {
                seq![OpEffect::Send(AppMessage::SetClipboard(content))]
            } else {
                Seq::empty()
            },
            OsOp::Quit => Seq::empty(),
            OsOp::Other => Seq::empty(),
        }
    }

    /// Whether something can be asked: the window it is about is one of the application's.
    pub open spec fn can_handle(self, op: OsOp) -> bool {
        match op {
            OsOp::CreateWindow(id) => id < self.pool.len(),
            OsOp::CreatePopupWindow { window_id, .. } => window_id < self.pool.len(),
            OsOp::ResizeWindow(id, _) => id < usize::MAX,
            _ => true,
        }
    }
}

/// What became of the things that were asked of the platform.
pub struct OpsResult {
    pub windows: WindowsView,
    pub effects: Seq<OpEffect>,
    /// Whether the application goes on.
    pub running: bool,
    /// What was not looked at any more.
    pub rest: Seq<OsOp>,
}

/// What becomes of the things that were asked, one after the other, until one of them
/// is to quit.
pub open spec fn after_ops(
    windows: WindowsView,
    ops: Seq<OsOp>,
    effects: Seq<OpEffect>,
    config: WindowConfig,
    send_protocol: bool,
) -> OpsResult
    decreases ops.len(),
{
    if ops.len() == 0 {
        OpsResult { windows, effects, running: true, rest: ops }
    } else if ops[0] is Quit {
        OpsResult { windows, effects, running: false, rest: ops.skip(1) }
    } else {
        after_ops(
            windows.after_op(ops[0], config),
            ops.skip(1),
            effects + windows.effects_of(ops[0], send_protocol),
            config,
            send_protocol,
        )
    }
}

impl Windows {
    fn create(&mut self, id: usize, config: WindowConfig)
        requires
            id < old(self).pool@.len(),
        ensures
            final(self).model() == old(self).model().created(id as int, config),
    {
        let windows: usize = self.pool.len();
        let ghost before = self.model();
        grow_to(&mut self.states, id);
        let window = self.pool[id];
        let size: Vec2d = match config.forced_size {
            Some(size) => size,
            None => match window.create_inner_size {
                Some(size) => size,
                None => Vec2d {
                    x: F64 { bits: double::N1920_BITS },
                    y: F64 { bits: double::N1080_BITS },
                },
            },
        };
        let position: Vec2d = match window.create_position {
            Some(p) => p,
            None => Vec2d { x: F64 { bits: 0 }, y: F64 { bits: 0 } },
        };
        let state = self.states[id];
        self.states.set(
            id,
            HeadlessWindowState {
                created: true,
                dpi_factor: config.dpi,
                width: size.x.to_pixels(),
                height: size.y.to_pixels(),
                ..state
            },
        );
        self.pool.set(
            id,
            CxWindow {
                is_created: true,
                position,
                inner_size: size,
                outer_size: size,
                dpi_factor: config.dpi,
                ..window
            },
        );
        proof {
            let after = before.created(id as int, config);
            assert(self.states@ =~= after.states);
            assert(self.pool@ =~= after.pool);
        }
    }

    /// Gives a window a size, with defaults where that is at most one pixel.
    fn give_size(&mut self, id: usize, size: Vec2d)
        requires
            id < usize::MAX,
        ensures
            final(self).states@ == with_window(old(self).states@, id as int).update(
                id as int,
                with_window(old(self).states@, id as int)[id as int].sized(
                    size,
                ).with_size_defaults(),
            ),
            final(self).pool == old(self).pool,
    {
        let ghost before = self.states@;
        grow_to(&mut self.states, id);
        let mut state = self.states[id];
        state.created = true;
        state.width = size.x.to_pixels();
        state.height = size.y.to_pixels();
        state.ensure_size_defaults();
        self.states.set(id, state);
        assert(self.states@ =~= with_window(before, id as int).update(id as int, state));
    }

    fn pop_up(
        &mut self,
        id: usize,
        parent: usize,
        position: Vec2d,
        size: Vec2d,
        grab_keyboard: bool,
    )
        requires
            id < old(self).pool@.len(),
        ensures
            final(self).model() == old(self).model().popped_up(
                id as int,
                parent,
                position,
                size,
                grab_keyboard,
            ),
    {
        let windows: usize = self.pool.len();
        let ghost before = self.model();
        self.give_size(id, size);
        let window = self.pool[id];
        self.pool.set(
            id,
            CxWindow {
                is_created: true,
                position,
                inner_size: size,
                outer_size: size,
                is_popup: true,
                popup_parent: Some(parent),
                popup_position: Some(position),
                popup_size: Some(size),
                popup_grab_keyboard: grab_keyboard,
                ..window
            },
        );
        proof {
            let after = before.popped_up(id as int, parent, position, size, grab_keyboard);
            assert(self.states@ =~= after.states);
            assert(self.pool@ =~= after.pool);
        }
    }

    fn resize(&mut self, id: usize, size: Vec2d)
        requires
            id < usize::MAX,
        ensures
            final(self).model() == old(self).model().resized(id as int, size),
    {
        let ghost before = self.model();
        self.give_size(id, size);
        if id < self.pool.len() && self.pool[id].valid {
            let window = self.pool[id];
            self.pool.set(id, CxWindow { inner_size: size, ..window });
        }
        proof {
            let after = before.resized(id as int, size);
            assert(self.states@ =~= after.states);
            assert(self.pool@ =~= after.pool);
        }
    }

    /// Does what was asked of the platform, in order, until one of the things asked is
    /// to quit. Says whether the application goes on; `effects` collects what the caller
    /// has to do.
    pub fn headless_handle_platform_ops(
        &mut self,
        ops: &mut VecDeque<OsOp>,
        config: WindowConfig,
        send_protocol: bool,
        effects: &mut Vec<OpEffect>,
    ) -> (running: bool)
        requires
            forall|i: int| 0 <= i < old(ops)@.len() ==> old(self).model().can_handle(
                #[trigger] old(ops)@[i],
            ),
        ensures
            after_ops(
                old(self).model(),
                old(ops)@,
                old(effects)@,
                config,
                send_protocol,
            ) == (OpsResult {
                windows: final(self).model(),
                effects: final(effects)@,
                running,
                rest: final(ops)@,
            }),
    {
        let ghost goal = after_ops(self.model(), ops@, effects@, config, send_protocol);
        let ghost count = self.pool@.len();
        loop
            invariant
                self.pool@.len() == count,
                forall|i: int|
                    0 <= i < ops@.len() ==> self.model().can_handle(#[trigger] ops@[i]),
                after_ops(self.model(), ops@, effects@, config, send_protocol) == goal,
                goal == after_ops(
                    old(self).model(),
                    old(ops)@,
                    old(effects)@,
                    config,
                    send_protocol,
                ),
            decreases ops@.len(),
        {
            let ghost waiting = ops@;
            let ghost before = self.model();
            let ghost done = effects@;
            let op: OsOp = match ops.pop_front() {
                Some(op) => op,
                None => {
                    return true;
                },
            };
            proof {
                assert(waiting[0] == op);
                assert(ops@ =~= waiting.skip(1));
                assert forall|i: int| 0 <= i < ops@.len() implies before.can_handle(
                    #[trigger] ops@[i],
                ) by {
                    assert(ops@[i] == waiting[i + 1]);
                }
                assert(before.can_handle(op));
            }
            match op {
                OsOp::CreateWindow(id) => {
                    let kind_id: usize = self.pool[id].kind_id;
                    self.create(id, config);
                    if send_protocol {
                        effects.push(
                            OpEffect::Send(AppMessage::CreateWindow { window_id: id, kind_id }),
                        );
                    }
                    effects.push(OpEffect::RedrawAll);
                },
                OsOp::CreatePopupWindow {
                    window_id,
                    parent_window_id,
                    position,
                    size,
                    grab_keyboard,
                } => {
                    self.pop_up(window_id, parent_window_id, position, size, grab_keyboard);
                    effects.push(OpEffect::RedrawAll);
                },
                OsOp::ResizeWindow(id, size) => {
                    self.resize(id, size);
                    effects.push(OpEffect::RedrawAll);
                },
                OsOp::SetCursor(cursor) => {
                    if send_protocol {
                        effects.push(OpEffect::Send(AppMessage::SetCursor(cursor)));
                    }
                },
                OsOp::StartTimer { timer_id, interval, repeats } => {
                    effects.push(OpEffect::StartTimer { timer_id, interval, repeats });
                },
                OsOp::StopTimer(timer_id) => {
                    effects.push(OpEffect::StopTimer(timer_id));
                },
                OsOp::CopyToClipboard(content) => {
                    if send_protocol {
                        effects.push(OpEffect::Send(AppMessage::SetClipboard(content)));
                    }
                },
                OsOp::Quit => {
                    return false;
                },
                OsOp::Other => {},
            }
            assert(effects@ =~= done + before.effects_of(op, send_protocol));
        }
    }

    /// Adds the window that is there if the application asks for none.
    pub fn ensure_any(&mut self)
        ensures
            final(self).pool == old(self).pool,
            final(self).states@ == if old(self).states@.len() == 0 {
                seq![fallback_window()]
            } else {
                old(self).states@
            },
    {
        if self.states.len() == 0 {
            self.states.push(
                HeadlessWindowState {
                    created: true,
                    width: DEFAULT_WIDTH,
                    height: DEFAULT_HEIGHT,
                    dpi_factor: F64 { bits: double::ONE_BITS },
                    frame_id: 0,
                    presentable_id: None,
                },
            );
            assert(self.states@ =~= seq![fallback_window()]);
        }
    }

    /// Takes over the geometry that the host gives a window. Says whether the window is
    /// one of the application's, which then is told.
    pub fn window_geom_change(
        &mut self,
        id: usize,
        dpi_factor: F64,
        position: Vec2d,
        size: Vec2d,
    ) -> (known: bool)
        requires
            id < usize::MAX,
        ensures
            known == (id < old(self).pool@.len() && old(self).pool@[id as int].valid),
            final(self).states@ == with_window(old(self).states@, id as int).update(
                id as int,
                (HeadlessWindowState {
                    dpi_factor,
                    ..with_window(old(self).states@, id as int)[id as int].sized(size)
                }).with_size_defaults(),
            ),
            final(self).pool@ == if known {
                old(self).pool@.update(
                    id as int,
                    CxWindow {
                        position,
                        dpi_factor,
                        inner_size: size,
                        outer_size: double::vec_of_bits(0, 0),
                        ..old(self).pool@[id as int]
                    },
                )
            } else {
                old(self).pool@
            },
    {
        let ghost before = self.states@;
        grow_to(&mut self.states, id);
        let mut state = self.states[id];
        state.created = true;
        state.dpi_factor = dpi_factor;
        state.width = size.x.to_pixels();
        state.height = size.y.to_pixels();
        state.ensure_size_defaults();
        self.states.set(id, state);
        assert(self.states@ =~= with_window(before, id as int).update(id as int, state));
        if id < self.pool.len() && self.pool[id].valid {
            let window = self.pool[id];
            let zero = F64 { bits: 0 };
            self.pool.set(
                id,
                CxWindow {
                    position,
                    dpi_factor,
                    inner_size: size,
                    outer_size: Vec2d { x: zero, y: zero },
                    ..window
                },
            );
            true
        } else {
            false
        }
    }

    /// Takes over the images that the host shows a window through: their size, and the
    /// first of them, if there is one.
    pub fn swapchain(
        &mut self,
        id: usize,
        alloc_width: u32,
        alloc_height: u32,
        images: &Vec<u64>,
    )
        requires
            id < usize::MAX,
        ensures
            final(self).pool == old(self).pool,
            final(self).states@ == with_window(old(self).states@, id as int).update(
                id as int,
                (HeadlessWindowState {
                    created: true,
                    width: if alloc_width < 1 {
                        1
                    } else {
                        alloc_width
                    },
                    height: if alloc_height < 1 {
                        1
                    } else {
                        alloc_height
                    },
                    presentable_id: if images@.len() > 0 {
                        Some(images@[0])
                    } else {
                        None
                    },
                    ..with_window(old(self).states@, id as int)[id as int]
                }).with_size_defaults(),
            ),
    {
        let ghost before = self.states@;
        grow_to(&mut self.states, id);
        let mut state = self.states[id];
        state.created = true;
        state.width = if alloc_width < 1 {
            1
        } else {
            alloc_width
        };
        state.height = if alloc_height < 1 {
            1
        } else {
            alloc_height
        };
        state.presentable_id = if images.len() > 0 {
            Some(images[0])
        } else {
            None
        };
        state.ensure_size_defaults();
        self.states.set(id, state);
        assert(self.states@ =~= with_window(before, id as int).update(id as int, state));
    }
}

/// The scale of the windows. A screenshot is expected to match what a display would
/// show, so it is two unless a positive number is asked for. `parse` reads a number.
pub fn configured_headless_dpi<P: Fn(String) -> Option<F64>>(
    setting: Option<&str>,
    parse: &P,
) -> (r: F64)
    requires
        forall|s: String| call_requires(*parse, (s,)),
    ensures
        match setting {
            Some(raw) => exists|s: String, number: Option<F64>| #[trigger]
                call_ensures(*parse, (s,), number) && s@ == raw@ && r == match number {
                    Some(dpi) if dpi.positive() => dpi,
                    _ => double::of_bits(double::TWO_BITS),
                },
            None => r == double::of_bits(double::TWO_BITS),
        },
{
    let usual = F64 { bits: double::TWO_BITS };
    match setting {
        Some(raw) => {
            let s: String = text::owned(raw);
            let number: Option<F64> = parse(s);
            match number {
                Some(dpi) => if dpi.is_positive() {
                    dpi
                } else {
                    usual
                },
                None => usual,
            }
        },
        None => usual,
    }
}

/// Where the first `x` of a text stands, small or large.
pub open spec fn first_cross(s: Seq<char>) -> Option<int>
    decreases s.len(),
{
    if s.len() == 0 {
        None
    } else {
        match first_cross(s.drop_last()) {
            Some(i) => Some(i),
            None => if s.last() == 'x' || s.last() == 'X' {
                Some(s.len() - 1)
            } else {
                None
            },
        }
    }
}

/// The two parts of a text of the form `WIDTHxHEIGHT`, without the spaces around them.
pub fn size_parts(raw: &str) -> (r: Option<(String, String)>)
    ensures
        match first_cross(raw@) {
            Some(i) => r matches Some(p) && p.0@ == text::trimmed(raw@.take(i)) && p.1@
                == text::trimmed(raw@.skip(i + 1)),
            None => r is None,
        },
{
    let cs = text::chars_of(raw);
    let mut i: usize = 0;
    assert(cs@.take(0) =~= Seq::<char>::empty());
    while i < cs.len()
        invariant
            cs@ == raw@,
            i <= cs@.len(),
            first_cross(cs@.take(i as int)) is None,
        decreases cs@.len() - i,
    {
        proof {
            assert(cs@.take(i + 1).drop_last() =~= cs@.take(i as int));
        }
        if cs[i] == 'x' || cs[i] == 'X' {
            proof {
                lemma_first_cross_stays(cs@, i + 1);
            }
            let left = text::chars_between(&cs, 0, i);
            let right = text::chars_between(&cs, i + 1, cs.len());
            assert(left@ =~= raw@.take(i as int));
            assert(right@ =~= raw@.skip(i + 1));
            let w = text::trim_chars(&left);
            let h = text::trim_chars(&right);
            return Some((text::string_of(&w), text::string_of(&h)));
        }
        i = i + 1;
    }
    assert(cs@.take(i as int) =~= cs@);
    None
}

proof fn lemma_first_cross_stays(s: Seq<char>, n: int)
    requires
        0 <= n <= s.len(),
        first_cross(s.take(n)) is Some,
    ensures
        first_cross(s) == first_cross(s.take(n)),
    decreases s.len(),
{
    if n == s.len() {
        assert(s.take(n) =~= s);
    } else {
        assert(s.drop_last().take(n) =~= s.take(n));
        lemma_first_cross_stays(s.drop_last(), n);
    }
}

/// The size that every window is given, if the two numbers of the setting could be read
/// and are positive.
pub open spec fn forced_size_of(w: Option<F64>, h: Option<F64>) -> Option<Vec2d> {
    match (w, h) {
        (Some(x), Some(y)) => if x.positive() && y.positive() {
            Some(Vec2d { x, y })
        } else {
            None
        },
        _ => None,
    }
}

/// The size that every window is given, from a setting of the form `WIDTHxHEIGHT`.
/// `parse` reads a number.
pub fn headless_forced_window_size<P: Fn(String) -> Option<F64>>(
    setting: Option<&str>,
    parse: &P,
) -> (r: Option<Vec2d>)
    requires
        forall|s: String| call_requires(*parse, (s,)),
    ensures
        match setting {
            Some(raw) => match first_cross(raw@) {
                Some(i) => exists|a: String, w: Option<F64>, b: String, h: Option<F64>|
                    {
                        &&& #[trigger] call_ensures(*parse, (a,), w)
                        &&& #[trigger] call_ensures(*parse, (b,), h)
                        &&& a@ == text::trimmed(raw@.take(i))
                        &&& b@ == text::trimmed(raw@.skip(i + 1))
                        &&& r == forced_size_of(w, h)
                    },
                None => r is None,
            },
            None => r is None,
        },
{
    let raw = match setting {
        Some(raw) => raw,
        None => {
            return None;
        },
    };
    let (a, b) = match size_parts(raw) {
        Some(p) => p,
        None => {
            return None;
        },
    };
    let w: Option<F64> = parse(a);
    let h: Option<F64> = parse(b);
    match (w, h) {
        (Some(x), Some(y)) => if x.is_positive() && y.is_positive() {
            Some(Vec2d { x, y })
        } else {
            None
        },
        _ => None,
    }
}

/// Nothing that was asked after a request to quit is done.
pub proof fn law_nothing_is_done_after_quit(
    windows: WindowsView,
    before: Seq<OsOp>,
    after: Seq<OsOp>,
    effects: Seq<OpEffect>,
    config: WindowConfig,
    send_protocol: bool,
)
    requires
        forall|i: int| 0 <= i < before.len() ==> !(#[trigger] before[i] is Quit),
    ensures
        ({
            let with_quit = after_ops(
                windows,
                before + seq![OsOp::Quit] + after,
                effects,
                config,
                send_protocol,
            );
            let alone = after_ops(windows, before, effects, config, send_protocol);
            &&& !with_quit.running
            &&& alone.running
            &&& with_quit.windows == alone.windows
            &&& with_quit.effects == alone.effects
            &&& with_quit.rest == after
        }),
    decreases before.len(),
{
    let all = before + seq![OsOp::Quit] + after;
    if before.len() == 0 {
        assert(all[0] == OsOp::Quit);
        assert(all.skip(1) =~= after);
    } else {
        assert(all[0] == before[0]);
        assert(!(before[0] is Quit));
        assert(all.skip(1) =~= before.skip(1) + seq![OsOp::Quit] + after);
        assert forall|i: int| 0 <= i < before.skip(1).len() implies !(#[trigger] before.skip(1)[i]
            is Quit) by {
            assert(before.skip(1)[i] == before[i + 1]);
        }
        law_nothing_is_done_after_quit(
            windows.after_op(before[0], config),
            before.skip(1),
            after,
            effects + windows.effects_of(before[0], send_protocol),
            config,
            send_protocol,
        );
    }
}

/// Sizes of one pixel or none count as unknown, and so does a scale that is not positive:
/// they become twelve hundred and eighty by seven hundred and twenty pixels at a scale of
/// one. Known ones stay, and so does all else.
pub proof fn law_unknown_sizes_get_defaults(state: HeadlessWindowState)
    ensures
        ({
            let full = state.with_size_defaults();
            &&& state.width > 1 ==> full.width == state.width
            &&& state.width <= 1 ==> full.width == 1280
            &&& state.height > 1 ==> full.height == state.height
            &&& state.height <= 1 ==> full.height == 720
            &&& 0 < state.dpi_factor.bits < 0x8000_0000_0000_0000 ==> full.dpi_factor
                == state.dpi_factor
            &&& state.dpi_factor.bits == 0 || 0x8000_0000_0000_0000 <= state.dpi_factor.bits
                <= 0xfff0_0000_0000_0000 ==> full.dpi_factor.bits == 0x3ff0_0000_0000_0000
            &&& full.created == state.created
            &&& full.frame_id == state.frame_id
            &&& full.presentable_id == state.presentable_id
        }),
{
}

/// Making room for a window leaves the windows that are there, and adds unknown ones: not
/// created, without a size, before their first frame.
pub proof fn law_making_room_keeps_the_windows(
    windows: Seq<HeadlessWindowState>,
    id: int,
    i: int,
)
    requires
        0 <= id,
    ensures
        with_window(windows, id).len() == if id < windows.len() {
            windows.len() as int
        } else {
            id + 1
        },
        0 <= i < windows.len() ==> with_window(windows, id)[i] == windows[i],
        windows.len() <= i < with_window(windows, id).len() ==> {
            let new = with_window(windows, id)[i];
            !new.created && new.width == 0 && new.height == 0 && new.frame_id == 0
                && new.presentable_id is None && new.dpi_factor.bits == 0
        },
{
}

/// A window has the size that is forced on all windows, else the size that it asks for, else
/// nineteen hundred and twenty by ten hundred and eighty; it stands where it asks to, or in
/// the corner, at the scale of all windows. Its frames go on being counted, and no other
/// window changes.
pub proof fn law_a_window_is_created_as_it_asks(
    windows: WindowsView,
    id: int,
    config: WindowConfig,
    size: Vec2d,
    other: int,
)
    requires
        0 <= id < windows.pool.len(),
        config.forced_size == Some(size) || (config.forced_size is None && (
        windows.pool[id].create_inner_size == Some(size) || (
        windows.pool[id].create_inner_size is None && size.x.bits == 0x409e_0000_0000_0000
            && size.y.bits == 0x4090_e000_0000_0000))),
        0 <= other,
        other != id,
    ensures
        ({
            let after = windows.created(id, config);
            let state = after.states[id];
            let window = after.pool[id];
            &&& id < after.states.len()
            &&& after.pool.len() == windows.pool.len()
            &&& state.created && state.width == size.x.pixels() && state.height == size.y.pixels()
            &&& state.dpi_factor == config.dpi
            &&& id < windows.states.len() ==> state.frame_id == windows.states[id].frame_id
                && state.presentable_id == windows.states[id].presentable_id
            &&& id >= windows.states.len() ==> state.frame_id == 0 && state.presentable_id is None
            &&& window.is_created && window.inner_size == size && window.outer_size == size
            &&& window.dpi_factor == config.dpi
            &&& window.kind_id == windows.pool[id].kind_id
            &&& windows.pool[id].create_position matches Some(p) ==> window.position == p
            &&& windows.pool[id].create_position is None ==> window.position.x.bits == 0
                && window.position.y.bits == 0
            &&& other < windows.states.len() ==> after.states[other] == windows.states[other]
            &&& other < windows.pool.len() ==> after.pool[other] == windows.pool[other]
        }),
{
}

/// A popup has the size and the place that are asked for, and knows its parent; no other
/// window changes.
pub proof fn law_a_popup_stands_where_it_is_asked_for(
    windows: WindowsView,
    id: int,
    parent: usize,
    position: Vec2d,
    size: Vec2d,
    grab_keyboard: bool,
    other: int,
)
    requires
        0 <= id < windows.pool.len(),
        0 <= other,
        other != id,
    ensures
        ({
            let after = windows.popped_up(id, parent, position, size, grab_keyboard);
            let state = after.states[id];
            let window = after.pool[id];
            &&& id < after.states.len()
            &&& after.pool.len() == windows.pool.len()
            &&& state.created
            &&& size.x.pixels() > 1 ==> state.width == size.x.pixels()
            &&& size.y.pixels() > 1 ==> state.height == size.y.pixels()
            &&& id < windows.states.len() ==> state.frame_id == windows.states[id].frame_id
            &&& window.is_created && window.is_popup && window.inner_size == size
                && window.outer_size == size && window.position == position
            &&& window.popup_parent == Some(parent) && window.popup_position == Some(position)
                && window.popup_size == Some(size) && window.popup_grab_keyboard == grab_keyboard
            &&& other < windows.states.len() ==> after.states[other] == windows.states[other]
            &&& other < windows.pool.len() ==> after.pool[other] == windows.pool[other]
        }),
{
}

/// A window that is resized has its new size; no other window changes, and of the window
/// itself nothing else does.
pub proof fn law_a_window_is_resized(windows: WindowsView, id: int, size: Vec2d, other: int)
    requires
        0 <= id,
        0 <= other,
        other != id,
    ensures
        ({
            let after = windows.resized(id, size);
            let state = after.states[id];
            &&& id < after.states.len()
            &&& after.pool.len() == windows.pool.len()
            &&& state.created
            &&& size.x.pixels() > 1 ==> state.width == size.x.pixels()
            &&& size.y.pixels() > 1 ==> state.height == size.y.pixels()
            &&& id < windows.states.len() ==> state.frame_id == windows.states[id].frame_id
                && state.presentable_id == windows.states[id].presentable_id
            &&& id < windows.pool.len() && windows.pool[id].valid ==> after.pool[id] == (CxWindow {
                inner_size: size,
                ..windows.pool[id]
            })
            &&& id < windows.pool.len() && !windows.pool[id].valid ==> after.pool == windows.pool
            &&& other < windows.states.len() ==> after.states[other] == windows.states[other]
            &&& other < windows.pool.len() ==> after.pool[other] == windows.pool[other]
        }),
{
}

/// What is asked of the platform has its effects: a window that is created, popped up or
/// resized has everything drawn again, timers are started and stopped as they are asked for,
/// and a host, where there is one, is told of windows, of the cursor and of what is copied.
/// Where there is none, nothing is told.
pub proof fn law_what_is_asked_for_has_its_effects(
    windows: WindowsView,
    op: OsOp,
    send_protocol: bool,
)
    ensures
        ({
            let effects = windows.effects_of(op, send_protocol);
            &&& forall|i: int|
                0 <= i < effects.len() && (#[trigger] effects[i]) is Send ==> send_protocol
            &&& match op {
                OsOp::CreateWindow(id) => effects.len() > 0 && effects.last() is RedrawAll && (
                send_protocol ==> effects.len() == 2 && effects[0] == OpEffect::Send(
                    AppMessage::CreateWindow {
                        window_id: id,
                        kind_id: windows.pool[id as int].kind_id,
                    },
                )),
                OsOp::CreatePopupWindow { .. } => effects.len() == 1 && effects[0] is RedrawAll,
                OsOp::ResizeWindow(_, _) => effects.len() == 1 && effects[0] is RedrawAll,
                OsOp::SetCursor(cursor) => send_protocol ==> effects.len() == 1 && effects[0]
                    == OpEffect::Send(AppMessage::SetCursor(cursor)),
                OsOp::StartTimer { timer_id, interval, repeats } => effects.len() == 1
                    && effects[0] == (OpEffect::StartTimer { timer_id, interval, repeats }),
                OsOp::StopTimer(timer_id) => effects.len() == 1 && effects[0]
                    == OpEffect::StopTimer(timer_id),
                OsOp::CopyToClipboard(content) => send_protocol ==> effects.len() == 1
                    && effects[0] == OpEffect::Send(AppMessage::SetClipboard(content)),
                OsOp::Quit => effects.len() == 0,
                OsOp::Other => effects.len() == 0,
            }
        }),
{
}

/// What changes no window leaves them all as they are.
pub proof fn law_other_requests_change_no_window(
    windows: WindowsView,
    op: OsOp,
    config: WindowConfig,
)
    requires
        !(op is CreateWindow) && !(op is CreatePopupWindow) && !(op is ResizeWindow),
    ensures
        windows.after_op(op, config) == windows,
{
}

/// Requests are dealt with in their order: one after the other, on the windows that the one
/// before has left, and each adds its effects behind those of the ones before; as long as
/// none of them quits.
pub proof fn law_requests_are_dealt_with_in_order(
    windows: WindowsView,
    first: Seq<OsOp>,
    second: Seq<OsOp>,
    op: OsOp,
    effects: Seq<OpEffect>,
    config: WindowConfig,
    send_protocol: bool,
)
    requires
        forall|i: int| 0 <= i < first.len() ==> !((#[trigger] first[i]) is Quit),
    ensures
        ({
            let mid = after_ops(windows, first, effects, config, send_protocol);
            let end = after_ops(windows, first + second, effects, config, send_protocol);
            &&& mid.running
            &&& mid.rest.len() == 0
            &&& end == after_ops(mid.windows, second, mid.effects, config, send_protocol)
        }),
        !(op is Quit) ==> ({
            let one = after_ops(windows, seq![op], effects, config, send_protocol);
            &&& one.running
            &&& one.windows == windows.after_op(op, config)
            &&& one.effects == effects + windows.effects_of(op, send_protocol)
        }),
        op is Quit ==> !after_ops(windows, seq![op] + second, effects, config, send_protocol).running
            && after_ops(windows, seq![op] + second, effects, config, send_protocol).rest == second,
    decreases first.len(),
{
    reveal_with_fuel(after_ops, 2);
    assert(seq![op].skip(1) =~= Seq::<OsOp>::empty());
    assert((seq![op] + second).skip(1) =~= second);
    if first.len() == 0 {
        assert(first + second =~= second);
    } else {
        assert(!(first[0] is Quit));
        let rest = first.skip(1);
        assert forall|i: int| 0 <= i < rest.len() implies !((#[trigger] rest[i]) is Quit) by {
            assert(rest[i] == first[i + 1]);
        }
        assert((first + second)[0] == first[0]);
        assert((first + second).skip(1) =~= rest + second);
        law_requests_are_dealt_with_in_order(
            windows.after_op(first[0], config),
            rest,
            second,
            op,
            effects + windows.effects_of(first[0], send_protocol),
            config,
            send_protocol,
        );
    }
}

/// A size is split at the first cross in it.
pub proof fn law_a_size_is_split_at_its_first_cross(s: Seq<char>)
    ensures
        match first_cross(s) {
            Some(i) => {
                &&& 0 <= i < s.len()
                &&& s[i] == 'x' || s[i] == 'X'
                &&& forall|j: int| 0 <= j < i ==> (#[trigger] s[j]) != 'x' && s[j] != 'X'
            },
            None => forall|j: int| 0 <= j < s.len() ==> (#[trigger] s[j]) != 'x' && s[j] != 'X',
        },
    decreases s.len(),
{
    if s.len() > 0 {
        let front = s.drop_last();
        law_a_size_is_split_at_its_first_cross(front);
        assert(forall|j: int| 0 <= j < front.len() ==> #[trigger] s[j] == front[j]);
    }
}

/// A size is forced if both its sides are positive numbers.
pub proof fn law_forced_sizes_are_positive(w: F64, h: F64)
    ensures
        0 < w.bits <= 0x7ff0_0000_0000_0000 && 0 < h.bits <= 0x7ff0_0000_0000_0000
            ==> forced_size_of(Some(w), Some(h)) == Some(Vec2d { x: w, y: h }),
        !(0 < w.bits <= 0x7ff0_0000_0000_0000) || !(0 < h.bits <= 0x7ff0_0000_0000_0000)
            ==> forced_size_of(Some(w), Some(h)) is None,
        forced_size_of(None, Some(h)) is None,
        forced_size_of(Some(w), None) is None,
{
}

/// The first request is dealt with before the others: creating a window gives it its size at
/// once, has everything drawn again, and leaves the other windows.
pub proof fn law_a_requested_window_is_there(
    windows: &mut Windows,
    ops: &mut VecDeque<OsOp>,
    config: WindowConfig,
    effects: &mut Vec<OpEffect>,
    running: bool,
    id: usize,
    size: Vec2d,
    other: int,
)
    requires
        call_ensures(
            Windows::headless_handle_platform_ops,
            (windows, ops, config, false, effects),
            running,
        ),
        old(ops)@ == seq![OsOp::CreateWindow(id)],
        old(effects)@.len() == 0,
        id < old(windows).pool@.len(),
        config.forced_size == Some(size) || (config.forced_size is None && old(
            windows,
        ).pool@[id as int].create_inner_size == Some(size)),
        0 <= other < old(windows).states@.len(),
        other != id,
    ensures
        running,
        final(ops)@.len() == 0,
        final(windows).states@[id as int].created,
        final(windows).states@[id as int].width == size.x.pixels(),
        final(windows).states@[id as int].height == size.y.pixels(),
        final(windows).states@[id as int].dpi_factor == config.dpi,
        final(windows).states@[other] == old(windows).states@[other],
        final(effects)@.len() == 1 && final(effects)@[0] is RedrawAll,
{
    let none = Seq::<OsOp>::empty();
    law_requests_are_dealt_with_in_order(
        old(windows).model(),
        none,
        none,
        OsOp::CreateWindow(id),
        old(effects)@,
        config,
        false,
    );
    law_a_window_is_created_as_it_asks(
        old(windows).model(),
        id as int,
        config,
        size,
        other,
    );
    law_what_is_asked_for_has_its_effects(
        old(windows).model(),
        OsOp::CreateWindow(id),
        false,
    );
    reveal_with_fuel(after_ops, 2);
    assert(seq![OsOp::CreateWindow(id)].skip(1) =~= none);
}

/// A host gives a window its geometry and its images: the size and the scale that it says, and
/// the first of the images; other windows stay, and frames go on being counted.
pub proof fn law_a_host_gives_a_window_its_geometry(
    moved: &mut Windows,
    id: usize,
    dpi_factor: F64,
    position: Vec2d,
    size: Vec2d,
    known: bool,
    shown: &mut Windows,
    width: u32,
    height: u32,
    images: &Vec<u64>,
    other: int,
)
    requires
        call_ensures(Windows::window_geom_change, (moved, id, dpi_factor, position, size), known),
        call_ensures(Windows::swapchain, (shown, id, width, height, images), ()),
        *old(shown) == *final(moved),
        0 <= other < old(moved).states@.len(),
        other != id,
        0 < dpi_factor.bits <= 0x7ff0_0000_0000_0000,
    ensures
        final(moved).states@[id as int].created,
        size.x.pixels() > 1 ==> final(moved).states@[id as int].width == size.x.pixels(),
        size.y.pixels() > 1 ==> final(moved).states@[id as int].height == size.y.pixels(),
        final(moved).states@[id as int].dpi_factor == dpi_factor,
        known <==> id < old(moved).pool@.len() && old(moved).pool@[id as int].valid,
        known ==> final(moved).pool@[id as int].inner_size == size && final(moved).pool@[id as int].position == position,
        final(moved).states@[other] == old(moved).states@[other],
        width > 1 ==> final(shown).states@[id as int].width == width,
        height > 1 ==> final(shown).states@[id as int].height == height,
        images@.len() > 0 ==> final(shown).states@[id as int].presentable_id == Some(images@[0]),
        images@.len() == 0 ==> final(shown).states@[id as int].presentable_id is None,
        final(shown).states@[id as int].frame_id == final(moved).states@[id as int].frame_id,
        final(shown).states@[other] == old(moved).states@[other],
        final(shown).pool == final(moved).pool,
{
}

/// Where an application asks for no window there is one of twelve hundred and eighty by seven
/// hundred and twenty pixels; where it asks for one there is no other.
pub proof fn law_there_is_a_window(windows: &mut Windows)
    requires
        call_ensures(Windows::ensure_any, (windows,), ()),
    ensures
        old(windows).states@.len() > 0 ==> final(windows).states@ == old(windows).states@,
        old(windows).states@.len() == 0 ==> final(windows).states@.len() == 1 && final(windows).states@[0].created && final(windows).states@[0].width == 1280 && final(windows).states@[0].height == 720 && final(windows).states@[0].frame_id == 0 && final(windows).states@[0].dpi_factor.bits == 0x3ff0_0000_0000_0000,
{
}

/// The scale is two unless a positive number is asked for.
pub proof fn law_the_scale_is_two_unless_asked_for<P: Fn(String) -> Option<F64>>(
    setting: Option<&str>,
    parse: &P,
    n: F64,
    r: F64,
)
    requires
        call_ensures(configured_headless_dpi::<P>, (setting, parse), r),
        setting matches Some(raw) ==> forall|s: String, number: Option<F64>| #[trigger]
            call_ensures(*parse, (s,), number) && s@ == raw@ ==> number == Some(n),
    ensures
        setting is None ==> r.bits == 0x4000_0000_0000_0000,
        setting is Some && 0 < n.bits <= 0x7ff0_0000_0000_0000 ==> r == n,
        setting is Some && (n.bits == 0 || n.bits >= 0x8000_0000_0000_0000) ==> r.bits
            == 0x4000_0000_0000_0000,
{
}

/// A size is forced by two numbers with a cross between them, the width in front of it.
pub proof fn law_a_size_is_forced_by_two_numbers<P: Fn(String) -> Option<F64>>(
    raw: &str,
    parse: &P,
    width: Seq<char>,
    height: Seq<char>,
    w: F64,
    h: F64,
    r: Option<Vec2d>,
)
    requires
        call_ensures(headless_forced_window_size::<P>, (Some(raw), parse), r),
        raw@ == width + seq!['x'] + height,
        forall|i: int|
            0 <= i < width.len() ==> (#[trigger] width[i]) != 'x' && width[i] != 'X',
        forall|s: String, number: Option<F64>| #[trigger]
            call_ensures(*parse, (s,), number) && s@ == text::trimmed(width) ==> number == Some(w),
        forall|s: String, number: Option<F64>| #[trigger]
            call_ensures(*parse, (s,), number) && s@ == text::trimmed(height) ==> number == Some(h),
    ensures
        0 < w.bits <= 0x7ff0_0000_0000_0000 && 0 < h.bits <= 0x7ff0_0000_0000_0000 ==> r == Some(
            Vec2d { x: w, y: h },
        ),
        !(0 < w.bits <= 0x7ff0_0000_0000_0000) || !(0 < h.bits <= 0x7ff0_0000_0000_0000)
            ==> r is None,
{
    let s = raw@;
    let n = width.len() as int;
    law_a_size_is_split_at_its_first_cross(s);
    assert(s[n] == 'x');
    match first_cross(s) {
        Some(i) => {
            if i < n {
                assert(s[i] == width[i]);
            }
            assert(i == n);
            assert(s.take(n) =~= width);
            assert(s.skip(n + 1) =~= height);
        },
        None => {},
    }
    law_forced_sizes_are_positive(w, h);
}

/// The text that is split at its first cross gives the two parts without the white space
/// around them; a text without a cross is not split.
pub proof fn law_sizes_are_split_at_the_cross(
    raw: &str,
    r: Option<(String, String)>,
    width: Seq<char>,
    height: Seq<char>,
)
    requires
        call_ensures(size_parts, (raw,), r),
        forall|j: int| 0 <= j < width.len() ==> (#[trigger] width[j]) != 'x' && width[j] != 'X',
    ensures
        raw@ == width ==> r is None,
        raw@ == width + seq!['x'] + height || raw@ == width + seq!['X'] + height ==> (r matches Some(
            p,
        ) && p.0@ == text::trimmed(width) && p.1@ == text::trimmed(height)),
{
    law_a_size_is_split_at_its_first_cross(raw@);
    let n = width.len() as int;
    if raw@ == width + seq!['x'] + height || raw@ == width + seq!['X'] + height {
        assert(raw@[n] == 'x' || raw@[n] == 'X');
        assert(first_cross(raw@) == Some(n)) by {
            match first_cross(raw@) {
                Some(i) => {
                    if i < n {
                        assert(raw@[i] == width[i]);
                    }
                },
                None => {},
            }
        }
        assert(raw@.take(n) =~= width);
        assert(raw@.skip(n + 1) =~= height);
    }
}

} // verus!
