//! The event loops of an application without a display of its own.
//!
//! There are three. One paints a single frame. One goes round a given number of times.
//! One is driven by a host: the host owns the frame clock, and apart from a first frame
//! at the start nothing is drawn, and no frame is asked for, but in answer to a tick.
//!
//! A loop is a machine: it says what to do next, is told how that went, and goes on.

use vstd::prelude::*;

verus! {

/// Which loop is run.
#[derive(Clone, Copy, Debug, PartialEq, Eq, Structural)]
pub enum LoopKind {
    /// One frame.
    Single,
    /// A number of rounds.
    Bounded,
    /// Driven by a host.
    Stdin,
}

/// What the host says, as far as the loop depends on it.
#[derive(Clone, Copy, Debug, PartialEq, Eq, Structural)]
pub enum Message {
    /// The connection is closed.
    Closed,
    /// Keys, text, the mouse: something that the application is told.
    Input,
    /// The application is asked for the text that is selected.
    Clipboard,
    /// A window has a new geometry.
    WindowGeomChange,
    /// A window has new images.
    Swapchain,
    /// Nothing that concerns the loop.
    Ignored,
    /// The frame clock.
    Tick,
    /// Anything else.
    Other,
}

/// What the loop asks to be done.
#[derive(Clone, Copy, Debug, PartialEq, Eq, Structural)]
pub enum Action {
    SendBeforeStartup,
    CallStartup,
    /// Do what the application has asked of the platform. The answer says whether it
    /// goes on.
    HandleOps,
    /// Add a window if there is none.
    EnsureWindow,
    SendAfterStartup,
    StartWatchdog,
    /// Wait for the next message of the host.
    Receive,
    /// Hand the message to the application.
    Deliver,
    /// Ask the application for its selected text. The answer says whether there is any.
    AskClipboard,
    SendClipboard,
    TakeGeometry,
    TakeSwapchain,
    NoteTick,
    /// Hand the message to the dispatcher. The answer says whether the loop ends.
    Dispatch,
    /// Was the user interface signalled?
    CheckUiSignal,
    HandleUiSignal,
    /// Were actions posted?
    CheckActionSignal,
    HandleActions,
    DispatchNetwork,
    DispatchTimers,
    /// Is anything waiting for the next frame?
    CheckNextFrames,
    CallNextFrames,
    RedrawAll,
    /// Is there anything to draw?
    CheckNeedRedraw,
    /// Draw. The answer says whether a frame was rendered.
    DrawCycle,
    /// Is there a timer, or is anything waiting for the next frame?
    CheckWaiting,
    SendRequestFrame,
    /// Tell the watchdog whether there is anything to draw.
    NotePending,
    Sleep,
    Stop,
}

/// How an action went: the answer to a question, and the message that was received.
#[derive(Clone, Copy, Debug, PartialEq, Eq, Structural)]
pub struct Reply {
    pub flag: bool,
    pub message: Message,
}

/// Where a loop stands: what was asked last.
#[derive(Clone, Copy, Debug, PartialEq, Eq, Structural)]
pub enum Phase {
    Begin,
    Opened,
    Startup,
    FirstOps,
    FirstNeedRedraw,
    FirstDraw,
    Announced,
    Watched,
    Ensured,
    Receiving,
    Delivered,
    AskedClipboard,
    SentClipboard,
    Moved,
    MovedRedraw,
    Ticked,
    Dispatched,
    DispatchedOps,
    DispatchedFrames,
    DispatchedCalled,
    UiSignal,
    UiHandled,
    ActionSignal,
    ActionsHandled,
    Network,
    Timers,
    LoopOps,
    NextFrames,
    NextCalled,
    Forced,
    NeedRedraw,
    Drawing,
    Waiting,
    Requested,
    Noted,
    Sleeping,
    Stopped,
}

/// A loop that runs.
#[derive(Clone, Copy, Debug, PartialEq, Eq, Structural)]
pub struct LoopState {
    pub kind: LoopKind,
    pub phase: Phase,
    /// The number of rounds to go.
    pub draw_cycles: usize,
    /// The number of rounds that were completed.
    pub completed: usize,
    /// Whether drawing is switched off: the application is asked to draw in every round,
    /// and nothing is rendered.
    pub no_draw: bool,
    /// Whether everything is drawn in every round.
    pub force_redraw: bool,
    /// Whether the application has asked to quit, or the host has ended the connection.
    pub quit: bool,
    /// The message that is dealt with.
    pub message: Message,
}

impl LoopState {
    pub open spec fn to(self, phase: Phase, action: Action) -> (LoopState, Action) {
        (LoopState { phase, ..self }, action)
    }

    pub open spec fn stopped(self) -> (LoopState, Action) {
        self.to(Phase::Stopped, Action::Stop)
    }

    pub open spec fn ended(self) -> (LoopState, Action) {
        (LoopState { phase: Phase::Stopped, quit: true, ..self }, Action::Stop)
    }

    /// The head of a round: another one is begun as long as there are any to go.
    pub open spec fn round(self) -> (LoopState, Action) {
        if self.completed < self.draw_cycles {
            self.to(Phase::UiSignal, Action::CheckUiSignal)
        } else {
            self.stopped()
        }
    }

    /// What waits for the next frame was called.
    pub open spec fn after_next_frames(self) -> (LoopState, Action) {
        if self.kind == LoopKind::Bounded && self.force_redraw {
            self.to(Phase::Forced, Action::RedrawAll)
        } else {
            self.before_draw()
        }
    }

    /// Drawing comes next, if there is anything to draw or drawing is switched off.
    pub open spec fn before_draw(self) -> (LoopState, Action) {
        if self.no_draw {
            self.to(Phase::Drawing, Action::DrawCycle)
        } else {
            self.to(Phase::NeedRedraw, Action::CheckNeedRedraw)
        }
    }

    /// Drawing is done, or there was nothing to draw; `rendered` says whether a frame
    /// was rendered.
    pub open spec fn after_draw(self, rendered: bool) -> (LoopState, Action) {
        match self.kind {
            LoopKind::Single => self.stopped(),
            LoopKind::Bounded => (
                LoopState {
                    phase: Phase::Sleeping,
                    completed: (self.completed + 1) as usize,
                    ..self
                },
                Action::Sleep,
            ),
            LoopKind::Stdin => if rendered {
                self.to(Phase::Requested, Action::SendRequestFrame)
            } else {
                self.to(Phase::Waiting, Action::CheckWaiting)
            },
        }
    }

    /// The next message is waited for, once the watchdog knows whether there is anything
    /// to draw.
    pub open spec fn message_done(self) -> (LoopState, Action) {
        self.to(Phase::Noted, Action::NotePending)
    }

    /// A message has come.
    pub open spec fn received(self, message: Message) -> (LoopState, Action) {
        let with_message = LoopState { message, ..self };
        match message {
            Message::Closed => with_message.ended(),
            Message::Input => with_message.to(Phase::Delivered, Action::Deliver),
            Message::Clipboard => with_message.to(Phase::AskedClipboard, Action::AskClipboard),
            Message::WindowGeomChange => with_message.to(Phase::Moved, Action::TakeGeometry),
            Message::Swapchain => with_message.to(Phase::Moved, Action::TakeSwapchain),
            Message::Ignored => with_message.message_done(),
            Message::Tick => with_message.to(Phase::Ticked, Action::NoteTick),
            Message::Other => with_message.to(Phase::Dispatched, Action::Dispatch),
        }
    }

    /// Where the loop goes from here, and what it asks to be done.
    pub open spec fn next(self, reply: Reply) -> (LoopState, Action) {
        match self.phase {
            Phase::Begin => if self.kind == LoopKind::Stdin {
                self.to(Phase::Opened, Action::SendBeforeStartup)
            } else {
                self.to(Phase::Startup, Action::CallStartup)
            },
            Phase::Opened => self.to(Phase::Startup, Action::CallStartup),
            Phase::Startup => self.to(Phase::FirstOps, Action::HandleOps),
            Phase::FirstOps => if self.kind == LoopKind::Stdin {
                if !reply.flag {
                    (
                        LoopState { phase: Phase::Announced, quit: true, ..self },
                        Action::SendAfterStartup,
                    )
                } else if self.no_draw {
                    self.to(Phase::FirstDraw, Action::DrawCycle)
                } else {
                    self.to(Phase::FirstNeedRedraw, Action::CheckNeedRedraw)
                }
            } else {
                (
                    LoopState {
                        phase: Phase::Ensured,
                        quit: self.kind == LoopKind::Bounded && !reply.flag,
                        ..self
                    },
                    Action::EnsureWindow,
                )
            },
            Phase::Ensured => if self.kind == LoopKind::Single {
                self.to(Phase::NextFrames, Action::CheckNextFrames)
            } else if self.quit {
                self.stopped()
            } else {
                self.round()
            },
            Phase::FirstNeedRedraw => if reply.flag {
                self.to(Phase::FirstDraw, Action::DrawCycle)
            } else {
                self.to(Phase::Announced, Action::SendAfterStartup)
            },
            Phase::FirstDraw => self.to(Phase::Announced, Action::SendAfterStartup),
            Phase::Announced => self.to(Phase::Watched, Action::StartWatchdog),
            Phase::Watched => if self.quit {
                self.stopped()
            } else {
                self.to(Phase::Receiving, Action::Receive)
            },
            Phase::Receiving => self.received(reply.message),
            Phase::Delivered => self.message_done(),
            Phase::AskedClipboard => if reply.flag {
                self.to(Phase::SentClipboard, Action::SendClipboard)
            } else {
                self.message_done()
            },
            Phase::SentClipboard => self.message_done(),
            Phase::Moved => self.to(Phase::MovedRedraw, Action::RedrawAll),
            Phase::MovedRedraw => self.message_done(),
            Phase::Ticked => self.to(Phase::UiSignal, Action::CheckUiSignal),
            Phase::Dispatched => if reply.flag {
                self.ended()
            } else {
                self.to(Phase::DispatchedOps, Action::HandleOps)
            },
            Phase::DispatchedOps => if reply.flag {
                self.to(Phase::DispatchedFrames, Action::CheckNextFrames)
            } else {
                self.ended()
            },
            Phase::DispatchedFrames => if reply.flag {
                self.to(Phase::DispatchedCalled, Action::CallNextFrames)
            } else {
                self.message_done()
            },
            Phase::DispatchedCalled => self.message_done(),
            Phase::UiSignal => if reply.flag {
                self.to(Phase::UiHandled, Action::HandleUiSignal)
            } else {
                self.to(Phase::ActionSignal, Action::CheckActionSignal)
            },
            Phase::UiHandled => self.to(Phase::ActionSignal, Action::CheckActionSignal),
            Phase::ActionSignal => if reply.flag {
                self.to(Phase::ActionsHandled, Action::HandleActions)
            } else {
                self.to(Phase::Network, Action::DispatchNetwork)
            },
            Phase::ActionsHandled => self.to(Phase::Network, Action::DispatchNetwork),
            Phase::Network => self.to(Phase::Timers, Action::DispatchTimers),
            Phase::Timers => self.to(Phase::LoopOps, Action::HandleOps),
            Phase::LoopOps => if reply.flag {
                self.to(Phase::NextFrames, Action::CheckNextFrames)
            } else {
                self.ended()
            },
            Phase::NextFrames => if reply.flag {
                self.to(Phase::NextCalled, Action::CallNextFrames)
            } else {
                self.after_next_frames()
            },
            Phase::NextCalled => self.after_next_frames(),
            Phase::Forced => self.before_draw(),
            Phase::NeedRedraw => if reply.flag {
                self.to(Phase::Drawing, Action::DrawCycle)
            } else {
                self.after_draw(false)
            },
            Phase::Drawing => self.after_draw(reply.flag),
            Phase::Waiting => if reply.flag {
                self.to(Phase::Requested, Action::SendRequestFrame)
            } else {
                self.message_done()
            },
            Phase::Requested => self.message_done(),
            Phase::Noted => self.to(Phase::Receiving, Action::Receive),
            Phase::Sleeping => self.round(),
            Phase::Stopped => self.stopped(),
        }
    }

    /// Whether the loop is one that can come about: it is in a phase of its kind, it has
    /// not completed more rounds than it was given, and it has some to go while it is in
    /// one; and a loop that a host drives draws only in answer to a tick.
    #[verifier::opaque]
    pub open spec fn sound(self) -> bool {
        let in_round = self.phase == Phase::UiSignal || self.phase == Phase::UiHandled || self.phase
            == Phase::ActionSignal || self.phase == Phase::ActionsHandled || self.phase
            == Phase::Network || self.phase == Phase::Timers || self.phase == Phase::LoopOps
            || self.phase == Phase::NextFrames || self.phase == Phase::NextCalled || self.phase
            == Phase::Forced || self.phase == Phase::NeedRedraw || self.phase == Phase::Drawing;
        let of_host = self.phase == Phase::Opened || self.phase == Phase::FirstNeedRedraw
            || self.phase == Phase::FirstDraw || self.phase == Phase::Announced || self.phase
            == Phase::Watched || self.phase == Phase::Receiving || self.phase == Phase::Delivered
            || self.phase == Phase::AskedClipboard || self.phase == Phase::SentClipboard
            || self.phase == Phase::Moved || self.phase == Phase::MovedRedraw || self.phase
            == Phase::Ticked || self.phase == Phase::Dispatched || self.phase
            == Phase::DispatchedOps || self.phase == Phase::DispatchedFrames || self.phase
            == Phase::DispatchedCalled || self.phase == Phase::Waiting || self.phase
            == Phase::Requested || self.phase == Phase::Noted;
        &&& self.completed <= self.draw_cycles
        &&& (of_host ==> self.kind == LoopKind::Stdin)
        &&& (self.phase == Phase::Ensured ==> self.kind != LoopKind::Stdin)
        &&& (self.phase == Phase::Sleeping || self.phase == Phase::Forced ==> self.kind
            == LoopKind::Bounded)
        &&& (self.kind == LoopKind::Bounded && in_round ==> self.completed < self.draw_cycles)
        &&& (self.kind == LoopKind::Bounded && self.phase == Phase::Stopped ==> self.quit
            || self.completed == self.draw_cycles)
        &&& (self.kind == LoopKind::Bounded && !(self.phase == Phase::Stopped || self.phase
            == Phase::Ensured) ==> !self.quit)
        &&& (self.kind == LoopKind::Stdin && (in_round || self.phase == Phase::Waiting
            || self.phase == Phase::Requested) ==> self.message == Message::Tick)
        &&& (self.phase == Phase::Ticked ==> self.message == Message::Tick)
        &&& (self.phase == Phase::Dispatched || self.phase == Phase::DispatchedOps || self.phase
            == Phase::DispatchedFrames || self.phase == Phase::DispatchedCalled ==> self.message
            == Message::Other)
        &&& (self.phase == Phase::Begin || self.phase == Phase::Opened || self.phase
            == Phase::Startup || self.phase == Phase::FirstOps ==> self.completed == 0
            && !self.quit)
    }

    fn going(self, phase: Phase, action: Action) -> (r: (LoopState, Action))
        ensures
            r == self.to(phase, action),
    {
        (LoopState { phase, ..self }, action)
    }

    fn begin_round(self) -> (r: (LoopState, Action))
        ensures
            r == self.round(),
    {
        if self.completed < self.draw_cycles {
            self.going(Phase::UiSignal, Action::CheckUiSignal)
        } else {
            self.going(Phase::Stopped, Action::Stop)
        }
    }

    fn go_drawing(self) -> (r: (LoopState, Action))
        ensures
            r == self.before_draw(),
    {
        if self.no_draw {
            self.going(Phase::Drawing, Action::DrawCycle)
        } else {
            self.going(Phase::NeedRedraw, Action::CheckNeedRedraw)
        }
    }

    fn frames_called(self) -> (r: (LoopState, Action))
        ensures
            r == self.after_next_frames(),
    {
        if self.kind == LoopKind::Bounded && self.force_redraw {
            self.going(Phase::Forced, Action::RedrawAll)
        } else {
            self.go_drawing()
        }
    }

    fn drawn(self, rendered: bool) -> (r: (LoopState, Action))
        requires
            self.kind == LoopKind::Bounded ==> self.completed < self.draw_cycles,
        ensures
            r == self.after_draw(rendered),
    {
        match self.kind {
            LoopKind::Single => self.going(Phase::Stopped, Action::Stop),
            LoopKind::Bounded => (
                LoopState { phase: Phase::Sleeping, completed: self.completed + 1, ..self },
                Action::Sleep,
            ),
            LoopKind::Stdin => if rendered {
                self.going(Phase::Requested, Action::SendRequestFrame)
            } else {
                self.going(Phase::Waiting, Action::CheckWaiting)
            },
        }
    }

    fn take(self, message: Message) -> (r: (LoopState, Action))
        ensures
            r == self.received(message),
    {
        let with_message = LoopState { message, ..self };
        match message {
            Message::Closed => (
                LoopState { phase: Phase::Stopped, quit: true, ..with_message },
                Action::Stop,
            ),
            Message::Input => with_message.going(Phase::Delivered, Action::Deliver),
            Message::Clipboard => with_message.going(Phase::AskedClipboard, Action::AskClipboard),
            Message::WindowGeomChange => with_message.going(Phase::Moved, Action::TakeGeometry),
            Message::Swapchain => with_message.going(Phase::Moved, Action::TakeSwapchain),
            Message::Ignored => with_message.going(Phase::Noted, Action::NotePending),
            Message::Tick => with_message.going(Phase::Ticked, Action::NoteTick),
            Message::Other => with_message.going(Phase::Dispatched, Action::Dispatch),
        }
    }

    /// Goes on, given how the last action went, and says what is to be done next.
    pub fn advance(&mut self, reply: Reply) -> (r: Action)
        requires
            old(self).sound(),
        ensures
            (*final(self), r) == old(self).next(reply),
            final(self).sound(),
    {
        let s = *self;
        proof {
            law_loops_stay_sound(s, reply);
            lemma_round_is_due(s);
        }
        let (state, action): (LoopState, Action) = match s.phase {
            Phase::Begin => if s.kind == LoopKind::Stdin {
                s.going(Phase::Opened, Action::SendBeforeStartup)
            } else {
                s.going(Phase::Startup, Action::CallStartup)
            },
            Phase::Opened => s.going(Phase::Startup, Action::CallStartup),
            Phase::Startup => s.going(Phase::FirstOps, Action::HandleOps),
            Phase::FirstOps => if s.kind == LoopKind::Stdin {
                if !reply.flag {
                    (
                        LoopState { phase: Phase::Announced, quit: true, ..s },
                        Action::SendAfterStartup,
                    )
                } else if s.no_draw {
                    s.going(Phase::FirstDraw, Action::DrawCycle)
                } else {
                    s.going(Phase::FirstNeedRedraw, Action::CheckNeedRedraw)
                }
            } else {
                (
                    LoopState {
                        phase: Phase::Ensured,
                        quit: s.kind == LoopKind::Bounded && !reply.flag,
                        ..s
                    },
                    Action::EnsureWindow,
                )
            },
            Phase::Ensured => if s.kind == LoopKind::Single {
                s.going(Phase::NextFrames, Action::CheckNextFrames)
            } else if s.quit {
                s.going(Phase::Stopped, Action::Stop)
            } else {
                s.begin_round()
            },
            Phase::FirstNeedRedraw => if reply.flag {
                s.going(Phase::FirstDraw, Action::DrawCycle)
            } else {
                s.going(Phase::Announced, Action::SendAfterStartup)
            },
            Phase::FirstDraw => s.going(Phase::Announced, Action::SendAfterStartup),
            Phase::Announced => s.going(Phase::Watched, Action::StartWatchdog),
            Phase::Watched => if s.quit {
                s.going(Phase::Stopped, Action::Stop)
            } else {
                s.going(Phase::Receiving, Action::Receive)
            },
            Phase::Receiving => s.take(reply.message),
            Phase::Delivered => s.going(Phase::Noted, Action::NotePending),
            Phase::AskedClipboard => if reply.flag {
                s.going(Phase::SentClipboard, Action::SendClipboard)
            } else {
                s.going(Phase::Noted, Action::NotePending)
            },
            Phase::SentClipboard => s.going(Phase::Noted, Action::NotePending),
            Phase::Moved => s.going(Phase::MovedRedraw, Action::RedrawAll),
            Phase::MovedRedraw => s.going(Phase::Noted, Action::NotePending),
            Phase::Ticked => s.going(Phase::UiSignal, Action::CheckUiSignal),
            Phase::Dispatched => if reply.flag {
                (LoopState { phase: Phase::Stopped, quit: true, ..s }, Action::Stop)
            } else {
                s.going(Phase::DispatchedOps, Action::HandleOps)
            },
            Phase::DispatchedOps => if reply.flag {
                s.going(Phase::DispatchedFrames, Action::CheckNextFrames)
            } else {
                (LoopState { phase: Phase::Stopped, quit: true, ..s }, Action::Stop)
            },
            Phase::DispatchedFrames => if reply.flag {
                s.going(Phase::DispatchedCalled, Action::CallNextFrames)
            } else {
                s.going(Phase::Noted, Action::NotePending)
            },
            Phase::DispatchedCalled => s.going(Phase::Noted, Action::NotePending),
            Phase::UiSignal => if reply.flag {
                s.going(Phase::UiHandled, Action::HandleUiSignal)
            } else {
                s.going(Phase::ActionSignal, Action::CheckActionSignal)
            },
            Phase::UiHandled => s.going(Phase::ActionSignal, Action::CheckActionSignal),
            Phase::ActionSignal => if reply.flag {
                s.going(Phase::ActionsHandled, Action::HandleActions)
            } else {
                s.going(Phase::Network, Action::DispatchNetwork)
            },
            Phase::ActionsHandled => s.going(Phase::Network, Action::DispatchNetwork),
            Phase::Network => s.going(Phase::Timers, Action::DispatchTimers),
            Phase::Timers => s.going(Phase::LoopOps, Action::HandleOps),
            Phase::LoopOps => if reply.flag {
                s.going(Phase::NextFrames, Action::CheckNextFrames)
            } else {
                (LoopState { phase: Phase::Stopped, quit: true, ..s }, Action::Stop)
            },
            Phase::NextFrames => if reply.flag {
                s.going(Phase::NextCalled, Action::CallNextFrames)
            } else {
                s.frames_called()
            },
            Phase::NextCalled => s.frames_called(),
            Phase::Forced => s.go_drawing(),
            Phase::NeedRedraw => if reply.flag {
                s.going(Phase::Drawing, Action::DrawCycle)
            } else {
                s.drawn(false)
            },
            Phase::Drawing => s.drawn(reply.flag),
            Phase::Waiting => if reply.flag {
                s.going(Phase::Requested, Action::SendRequestFrame)
            } else {
                s.going(Phase::Noted, Action::NotePending)
            },
            Phase::Requested => s.going(Phase::Noted, Action::NotePending),
            Phase::Noted => s.going(Phase::Receiving, Action::Receive),
            Phase::Sleeping => s.begin_round(),
            Phase::Stopped => s.going(Phase::Stopped, Action::Stop),
        };
        *self = state;
        action
    }
}

/// In a round there is one to go.
proof fn lemma_round_is_due(s: LoopState)
    requires
        s.sound(),
    ensures
        s.kind == LoopKind::Bounded && (s.phase == Phase::NeedRedraw || s.phase == Phase::Drawing)
            ==> s.completed < s.draw_cycles,
{
    reveal(LoopState::sound);
}

/// Whatever the answers are, a loop that can come about goes on to one that can.
#[verifier::spinoff_prover]
#[verifier::rlimit(50)]
pub proof fn law_loops_stay_sound(s: LoopState, reply: Reply)
    requires
        s.sound(),
    ensures
        s.next(reply).0.sound(),
{
    reveal(LoopState::sound);
}

/// A loop at its beginning.
pub open spec fn fresh_loop(
    kind: LoopKind,
    draw_cycles: usize,
    no_draw: bool,
    force_redraw: bool,
) -> LoopState {
    LoopState {
        kind,
        phase: Phase::Begin,
        draw_cycles,
        completed: 0,
        no_draw,
        force_redraw,
        quit: false,
        message: Message::Ignored,
    }
}

/// Where a loop is after some answers, and all that it has asked to be done.
pub open spec fn run(s: LoopState, replies: Seq<Reply>) -> (LoopState, Seq<Action>)
    decreases replies.len(),
{
    if replies.len() == 0 {
        (s, Seq::empty())
    } else {
        let (before, actions) = run(s, replies.drop_last());
        let (after, action) = before.next(replies.last());
        (after, actions.push(action))
    }
}

/// How often some action was asked for.
pub open spec fn times(actions: Seq<Action>, action: Action) -> nat
    decreases actions.len(),
{
    if actions.len() == 0 {
        0
    } else {
        times(actions.drop_last(), action) + if actions.last() == action {
            1nat
        } else {
            0nat
        }
    }
}

proof fn lemma_fresh_loops_are_sound(
    kind: LoopKind,
    draw_cycles: usize,
    no_draw: bool,
    force_redraw: bool,
)
    ensures
        fresh_loop(kind, draw_cycles, no_draw, force_redraw).sound(),
{
    reveal(LoopState::sound);
}

proof fn lemma_kind_stays(s: LoopState, reply: Reply)
    ensures
        s.next(reply).0.kind == s.kind,
        s.next(reply).0.draw_cycles == s.draw_cycles,
        s.next(reply).0.no_draw == s.no_draw,
{
}

proof fn lemma_draw_is_completed(s: LoopState, reply: Reply)
    requires
        s.sound(),
        s.kind == LoopKind::Bounded,
    ensures
        ({
            let (after, action) = s.next(reply);
            &&& (action == Action::DrawCycle <==> after.phase == Phase::Drawing && s.phase
                != Phase::Drawing)
            &&& (after.phase == Phase::Drawing ==> s.phase != Phase::Drawing)
            &&& (s.phase == Phase::Drawing ==> after.completed == s.completed + 1)
            &&& after.completed >= s.completed
            &&& after.completed <= after.draw_cycles
            &&& (after.phase == Phase::Drawing ==> after.completed < after.draw_cycles)
        }),
{
    law_loops_stay_sound(s, reply);
    lemma_round_is_due(s);
    lemma_round_is_due(s.next(reply).0);
    assert(s.next(reply).0.completed <= s.next(reply).0.draw_cycles) by {
        reveal(LoopState::sound);
    }
    assert(s.phase != Phase::FirstNeedRedraw && s.phase != Phase::FirstDraw) by {
        reveal(LoopState::sound);
    }
    assert(s.phase == Phase::Drawing ==> s.completed < s.draw_cycles);
}

proof fn lemma_draws_so_far(
    draw_cycles: usize,
    no_draw: bool,
    force_redraw: bool,
    replies: Seq<Reply>,
)
    ensures
        ({
            let start = fresh_loop(LoopKind::Bounded, draw_cycles, no_draw, force_redraw);
            let (s, actions) = run(start, replies);
            &&& s.sound()
            &&& s.kind == LoopKind::Bounded
            &&& s.draw_cycles == draw_cycles
            &&& times(actions, Action::DrawCycle) <= s.completed + if s.phase == Phase::Drawing {
                1int
            } else {
                0int
            }
            &&& s.completed <= s.draw_cycles
            &&& (s.phase == Phase::Drawing ==> s.completed < s.draw_cycles)
        }),
    decreases replies.len(),
{
    let start = fresh_loop(LoopKind::Bounded, draw_cycles, no_draw, force_redraw);
    lemma_fresh_loops_are_sound(LoopKind::Bounded, draw_cycles, no_draw, force_redraw);
    if replies.len() > 0 {
        lemma_draws_so_far(draw_cycles, no_draw, force_redraw, replies.drop_last());
        let (before, actions) = run(start, replies.drop_last());
        let reply = replies.last();
        law_loops_stay_sound(before, reply);
        lemma_kind_stays(before, reply);
        lemma_draw_is_completed(before, reply);
        let (after, action) = before.next(reply);
        assert(actions.push(action).drop_last() =~= actions);
    }
}

/// A loop of a number of rounds draws at most that often, whatever happens.
pub proof fn law_bounded_loops_draw_no_more_than_asked(
    draw_cycles: usize,
    no_draw: bool,
    force_redraw: bool,
    replies: Seq<Reply>,
)
    ensures
        times(
            run(fresh_loop(LoopKind::Bounded, draw_cycles, no_draw, force_redraw), replies).1,
            Action::DrawCycle,
        ) <= draw_cycles,
{
    lemma_draws_so_far(draw_cycles, no_draw, force_redraw, replies);
}

/// A loop of a number of rounds that has stopped has completed all of them, unless the
/// application has asked to quit.
pub proof fn law_bounded_loops_complete_their_rounds(
    draw_cycles: usize,
    no_draw: bool,
    force_redraw: bool,
    replies: Seq<Reply>,
)
    ensures
        ({
            let s = run(
                fresh_loop(LoopKind::Bounded, draw_cycles, no_draw, force_redraw),
                replies,
            ).0;
            s.phase == Phase::Stopped ==> s.quit || s.completed == draw_cycles
        }),
{
    lemma_draws_so_far(draw_cycles, no_draw, force_redraw, replies);
    reveal(LoopState::sound);
}

/// How far a phase is from the end of its round, at most.
spec fn phase_left(phase: Phase) -> nat {
    match phase {
        Phase::Begin => 40,
        Phase::Opened => 39,
        Phase::Startup => 38,
        Phase::FirstOps => 37,
        Phase::Ensured => 36,
        Phase::Sleeping => 35,
        Phase::UiSignal => 20,
        Phase::UiHandled => 19,
        Phase::ActionSignal => 18,
        Phase::ActionsHandled => 17,
        Phase::Network => 16,
        Phase::Timers => 15,
        Phase::LoopOps => 14,
        Phase::NextFrames => 13,
        Phase::NextCalled => 12,
        Phase::Forced => 11,
        Phase::NeedRedraw => 10,
        Phase::Drawing => 9,
        Phase::Stopped => 0,
        _ => 1,
    }
}

/// How many steps a loop of a number of rounds can still take, at most.
pub closed spec fn steps_left(s: LoopState) -> nat {
    ((s.draw_cycles - s.completed) * 50 + phase_left(s.phase)) as nat
}

/// A loop of a number of rounds comes to its end: every step brings it nearer.
pub proof fn law_bounded_loops_end(s: LoopState, reply: Reply)
    requires
        s.sound(),
        s.kind == LoopKind::Bounded,
        s.phase != Phase::Stopped,
    ensures
        steps_left(s.next(reply).0) < steps_left(s),
{
    lemma_round_is_due(s);
    assert(s.completed <= s.draw_cycles && (s.phase == Phase::Opened || s.phase
        == Phase::FirstNeedRedraw || s.phase == Phase::FirstDraw || s.phase == Phase::Announced
        || s.phase == Phase::Watched || s.phase == Phase::Receiving || s.phase == Phase::Delivered
        || s.phase == Phase::AskedClipboard || s.phase == Phase::SentClipboard || s.phase
        == Phase::Moved || s.phase == Phase::MovedRedraw || s.phase == Phase::Ticked || s.phase
        == Phase::Dispatched || s.phase == Phase::DispatchedOps || s.phase
        == Phase::DispatchedFrames || s.phase == Phase::DispatchedCalled || s.phase
        == Phase::Waiting || s.phase == Phase::Requested || s.phase == Phase::Noted ==> s.kind == LoopKind::Stdin)) by {
        reveal(LoopState::sound);
    }
}

/// A loop that has stopped stays so, and asks for nothing any more.
pub proof fn law_stopped_loops_stay_stopped(s: LoopState, reply: Reply)
    requires
        s.phase == Phase::Stopped,
    ensures
        s.next(reply) == (s, Action::Stop),
{
}

/// A request to quit ends a loop before it draws again.
pub proof fn law_quitting_comes_before_drawing(s: LoopState, reply: Reply)
    requires
        s.phase == Phase::LoopOps || s.phase == Phase::DispatchedOps,
        !reply.flag,
    ensures
        s.next(reply).1 == Action::Stop,
        s.next(reply).0.phase == Phase::Stopped,
        s.next(reply).0.quit,
{
}

/// Whether a loop that a host drives is at its start, or deals with a message that
/// leads to no frame.
spec fn without_clock(s: LoopState) -> bool {
    &&& s.sound()
    &&& s.kind == LoopKind::Stdin
    &&& s.message != Message::Tick
}

proof fn lemma_no_clock_no_frame(s: LoopState, reply: Reply)
    requires
        without_clock(s),
        reply.message != Message::Tick,
    ensures
        without_clock(s.next(reply).0),
        s.next(reply).1 != Action::SendRequestFrame,
        s.next(reply).1 == Action::DrawCycle ==> s.phase == Phase::FirstOps || s.phase
            == Phase::FirstNeedRedraw,
        s.phase == Phase::FirstOps ==> s.next(reply).0.phase != Phase::FirstOps,
{
    law_loops_stay_sound(s, reply);
    reveal(LoopState::sound);
}

/// How often a loop that a host drives can still draw at its start.
spec fn first_draws_left(phase: Phase) -> nat {
    match phase {
        Phase::Begin => 1,
        Phase::Opened => 1,
        Phase::Startup => 1,
        Phase::FirstOps => 1,
        Phase::FirstNeedRedraw => 1,
        _ => 0,
    }
}

proof fn lemma_first_draw_only(s: LoopState, reply: Reply)
    requires
        without_clock(s),
        reply.message != Message::Tick,
    ensures
        first_draws_left(s.next(reply).0.phase) + if s.next(reply).1 == Action::DrawCycle {
            1nat
        } else {
            0nat
        } <= first_draws_left(s.phase),
{
    lemma_no_clock_no_frame(s, reply);
}

/// The host owns the frame clock. Whatever else it says, as long as no tick comes from
/// it, nothing is drawn but one frame at the start, and no frame is ever asked of it: a
/// host that ticks only when it is asked never starts.
pub proof fn law_without_ticks_there_is_no_frame(
    no_draw: bool,
    force_redraw: bool,
    draw_cycles: usize,
    replies: Seq<Reply>,
)
    requires
        forall|i: int|
            0 <= i < replies.len() ==> (#[trigger] replies[i]).message != Message::Tick,
    ensures
        ({
            let actions = run(
                fresh_loop(LoopKind::Stdin, draw_cycles, no_draw, force_redraw),
                replies,
            ).1;
            &&& times(actions, Action::DrawCycle) <= 1
            &&& times(actions, Action::SendRequestFrame) == 0
        }),
{
    lemma_silent_run(no_draw, force_redraw, draw_cycles, replies);
}

proof fn lemma_silent_run(
    no_draw: bool,
    force_redraw: bool,
    draw_cycles: usize,
    replies: Seq<Reply>,
)
    requires
        forall|i: int|
            0 <= i < replies.len() ==> (#[trigger] replies[i]).message != Message::Tick,
    ensures
        ({
            let (s, actions) = run(
                fresh_loop(LoopKind::Stdin, draw_cycles, no_draw, force_redraw),
                replies,
            );
            &&& without_clock(s)
            &&& times(actions, Action::DrawCycle) + first_draws_left(s.phase) <= 1
            &&& times(actions, Action::SendRequestFrame) == 0
        }),
    decreases replies.len(),
{
    let start = fresh_loop(LoopKind::Stdin, draw_cycles, no_draw, force_redraw);
    lemma_fresh_loops_are_sound(LoopKind::Stdin, draw_cycles, no_draw, force_redraw);
    if replies.len() > 0 {
        assert forall|i: int| 0 <= i < replies.drop_last().len() implies (
        #[trigger] replies.drop_last()[i]).message != Message::Tick by {
            assert(replies.drop_last()[i] == replies[i]);
        }
        lemma_silent_run(no_draw, force_redraw, draw_cycles, replies.drop_last());
        let (before, actions) = run(start, replies.drop_last());
        let reply = replies.last();
        assert(reply == replies[replies.len() - 1]);
        lemma_no_clock_no_frame(before, reply);
        lemma_first_draw_only(before, reply);
        let (after, action) = before.next(reply);
        assert(actions.push(action).drop_last() =~= actions);
    }
}

/// What a draw cycle consists of.
#[derive(Clone, Copy, Debug, PartialEq, Eq, Structural)]
pub enum DrawAction {
    /// Note what is about to be repainted, before the draw event is dispatched.
    ObserveDamage,
    CallDraw,
    /// Tell the watchdog that something was drawn.
    NoteDrew,
    CompileShaders,
    /// Render all passes, and hand nothing out.
    Render,
    /// Render all passes, and hand the frames out.
    Emit,
    RedrawAll,
}

/// A draw cycle: what to do, and whether a frame was rendered, where that does not
/// depend on whether any was handed out.
pub struct DrawCyclePlan {
    pub actions: Vec<DrawAction>,
    pub rendered: Option<bool>,
}

/// What the event loops depend on.
#[derive(Clone, Copy, Debug, PartialEq, Eq)]
pub struct Cx {
    pub in_makepad_studio: bool,
    /// The number of rounds that was asked for.
    pub draw_cycles: Option<usize>,
    pub no_draw: bool,
    pub no_draw_initialized: bool,
    /// Whether everything is drawn in every round.
    pub force_redraw: bool,
    /// Whether the first frame was painted once without being shown. Glyphs are drawn
    /// into their atlas while others already use it, and a first frame would show it
    /// half filled.
    pub warmup_done: bool,
}

/// Painting without showing anything, after which everything is to be drawn again.
pub open spec fn warm_up() -> Seq<DrawAction> {
    seq![
        DrawAction::ObserveDamage,
        DrawAction::CallDraw,
        DrawAction::NoteDrew,
        DrawAction::CompileShaders,
        DrawAction::Render,
        DrawAction::RedrawAll,
    ]
}

impl Cx {
    /// The rounds of a loop: at least one.
    pub open spec fn rounds(draw_cycles: usize) -> usize {
        if draw_cycles < 1 {
            1
        } else {
            draw_cycles
        }
    }

    /// What a draw cycle consists of.
    pub open spec fn draw_actions(self, send_protocol: bool, screenshots_waiting: bool) -> Seq<
        DrawAction,
    > {
        if self.no_draw {
            seq![DrawAction::CallDraw, DrawAction::NoteDrew]
        } else {
            let first = if self.warmup_done {
                Seq::empty()
            } else {
                warm_up()
            };
            first + seq![
                DrawAction::ObserveDamage,
                DrawAction::CallDraw,
                DrawAction::NoteDrew,
                DrawAction::CompileShaders,
                if send_protocol && !screenshots_waiting {
                    DrawAction::Render
                } else {
                    DrawAction::Emit
                },
            ]
        }
    }

    /// A context as an application starts with it, given its arguments and environment.
    pub fn init_cx_os(no_draw: bool, draw_cycles: Option<usize>, force_redraw: bool) -> (r: Cx)
        ensures
            r == (Cx {
                in_makepad_studio: false,
                draw_cycles,
                no_draw,
                no_draw_initialized: false,
                force_redraw,
                warmup_done: false,
            }),
    {
        Cx {
            in_makepad_studio: false,
            draw_cycles,
            no_draw,
            no_draw_initialized: false,
            force_redraw,
            warmup_done: false,
        }
    }

    fn fresh(&self, kind: LoopKind, draw_cycles: usize) -> (r: LoopState)
        ensures
            r == fresh_loop(kind, draw_cycles, self.no_draw, self.force_redraw),
            r.sound(),
    {
        proof {
            lemma_fresh_loops_are_sound(kind, draw_cycles, self.no_draw, self.force_redraw);
        }
        LoopState {
            kind,
            phase: Phase::Begin,
            draw_cycles,
            completed: 0,
            no_draw: self.no_draw,
            force_redraw: self.force_redraw,
            quit: false,
            message: Message::Ignored,
        }
    }

    /// The loop of the application: driven by a host if it was started by one, else of
    /// the number of rounds that was asked for, else for a single frame.
    pub fn event_loop(&mut self, stdin_loop: bool) -> (r: LoopState)
        ensures
            r.sound(),
            *final(self) == (Cx {
                in_makepad_studio: old(self).in_makepad_studio || stdin_loop,
                ..*old(self)
            }),
            r == if stdin_loop {
                fresh_loop(LoopKind::Stdin, 0, old(self).no_draw, old(self).force_redraw)
            } else {
                match old(self).draw_cycles {
                    Some(n) => fresh_loop(
                        LoopKind::Bounded,
                        n,
                        old(self).no_draw,
                        old(self).force_redraw,
                    ),
                    None => fresh_loop(
                        LoopKind::Single,
                        0,
                        old(self).no_draw,
                        old(self).force_redraw,
                    ),
                }
            },
    {
        if stdin_loop {
            self.in_makepad_studio = true;
            self.stdin_event_loop()
        } else {
            match self.draw_cycles {
                Some(n) => self.headless_bounded_loop(n),
                None => self.headless_single_frame(),
            }
        }
    }

    /// A loop for a single frame.
    pub fn headless_single_frame(&self) -> (r: LoopState)
        ensures
            r.sound(),
            r == fresh_loop(LoopKind::Single, 0, self.no_draw, self.force_redraw),
    {
        self.fresh(LoopKind::Single, 0)
    }

    /// A loop of a number of rounds.
    pub fn headless_bounded_loop(&self, draw_cycles: usize) -> (r: LoopState)
        ensures
            r.sound(),
            r == fresh_loop(LoopKind::Bounded, draw_cycles, self.no_draw, self.force_redraw),
    {
        self.fresh(LoopKind::Bounded, draw_cycles)
    }

    /// A loop that a host drives.
    pub fn stdin_event_loop(&self) -> (r: LoopState)
        ensures
            r.sound(),
            r == fresh_loop(LoopKind::Stdin, 0, self.no_draw, self.force_redraw),
    {
        self.fresh(LoopKind::Stdin, 0)
    }

    /// A loop of a number of rounds, at least one.
    pub fn headless_event_loop_for_draw_cycles(&self, draw_cycles: usize) -> (r: LoopState)
        ensures
            r.sound(),
            r == fresh_loop(
                LoopKind::Bounded,
                Cx::rounds(draw_cycles),
                self.no_draw,
                self.force_redraw,
            ),
    {
        let rounds: usize = if draw_cycles < 1 {
            1
        } else {
            draw_cycles
        };
        self.headless_bounded_loop(rounds)
    }

    /// A loop of a number of rounds, at least one, in which nothing is rendered.
    pub fn headless_no_draw_event_loop_for_draw_cycles(&mut self, draw_cycles: usize) -> (r:
        LoopState)
        ensures
            r.sound(),
            *final(self) == (Cx { no_draw: true, no_draw_initialized: false, ..*old(self) }),
            r == fresh_loop(
                LoopKind::Bounded,
                Cx::rounds(draw_cycles),
                true,
                old(self).force_redraw,
            ),
    {
        self.no_draw = true;
        self.no_draw_initialized = false;
        self.headless_event_loop_for_draw_cycles(draw_cycles)
    }

    /// Plans a draw cycle. The first one that renders is preceded by one that is not
    /// shown. Where there is a host, frames are handed out only if it waits for
    /// screenshots.
    pub fn headless_process_draw_cycle(
        &mut self,
        send_protocol: bool,
        screenshots_waiting: bool,
    ) -> (r: DrawCyclePlan)
        ensures
            r.actions@ == old(self).draw_actions(send_protocol, screenshots_waiting),
            r.rendered == if old(self).no_draw {
                Some(false)
            } else if send_protocol && !screenshots_waiting {
                Some(true)
            } else {
                None
            },
            *final(self) == (Cx {
                no_draw_initialized: old(self).no_draw_initialized || old(self).no_draw,
                warmup_done: old(self).warmup_done || !old(self).no_draw,
                ..*old(self)
            }),
    {
        let ghost want = self.draw_actions(send_protocol, screenshots_waiting);
        let mut actions: Vec<DrawAction> = Vec::new();
        if self.no_draw {
            actions.push(DrawAction::CallDraw);
            actions.push(DrawAction::NoteDrew);
            self.no_draw_initialized = true;
            assert(actions@ =~= want);
            return DrawCyclePlan { actions, rendered: Some(false) };
        }
        if !self.warmup_done {
            actions.push(DrawAction::ObserveDamage);
            actions.push(DrawAction::CallDraw);
            actions.push(DrawAction::NoteDrew);
            actions.push(DrawAction::CompileShaders);
            actions.push(DrawAction::Render);
            actions.push(DrawAction::RedrawAll);
            self.warmup_done = true;
        }
        actions.push(DrawAction::ObserveDamage);
        actions.push(DrawAction::CallDraw);
        actions.push(DrawAction::NoteDrew);
        actions.push(DrawAction::CompileShaders);
        let only_render = send_protocol && !screenshots_waiting;
        if only_render {
            actions.push(DrawAction::Render);
        } else {
            actions.push(DrawAction::Emit);
        }
        assert(actions@ =~= want);
        DrawCyclePlan {
            actions,
            rendered: if only_render {
                Some(true)
            } else {
                None
            },
        }
    }
}

/// Nothing that is painted to warm up is handed out, and it happens once.
pub proof fn law_warming_up_shows_nothing(cx: Cx, send_protocol: bool, screenshots_waiting: bool)
    requires
        !cx.no_draw,
        !cx.warmup_done,
    ensures
        !warm_up().contains(DrawAction::Emit),
        cx.draw_actions(send_protocol, screenshots_waiting) == warm_up() + (Cx {
            warmup_done: true,
            ..cx
        }).draw_actions(send_protocol, screenshots_waiting),
{
    assert(cx.draw_actions(send_protocol, screenshots_waiting) =~= warm_up() + (Cx {
        warmup_done: true,
        ..cx
    }).draw_actions(send_protocol, screenshots_waiting));
}

/// What a pointer does.
#[derive(Clone, Copy, Debug, PartialEq, Eq, Structural)]
pub enum Pointer {
    Down,
    Move,
    Up,
    Scroll,
    TweakRay,
}

/// What a pointer's message leads to, one after another.
#[derive(Clone, Copy, Debug, PartialEq, Eq, Structural)]
pub enum PointerAction {
    /// Count the taps at the place.
    ProcessTapCount,
    /// Note that the button is held down in the window.
    HoldButton,
    /// Hand the message to the application.
    Deliver,
    /// Note that the button is held down no more.
    ReleaseButton,
    CycleHoverArea,
    SwitchCaptures,
}

/// The window that a pointer's message belongs to: while a button is held down, moving
/// and letting go belong to the window in which it was pressed; else it is the window
/// that holds the place.
pub fn pointer_window(pointer: Pointer, pressed_in: Option<usize>, containing: usize) -> (r: usize)
    ensures
        r == match (pointer, pressed_in) {
            (Pointer::Move, Some(window_id)) => window_id,
            (Pointer::Up, Some(window_id)) => window_id,
            _ => containing,
        },
{
    match pressed_in {
        Some(window_id) => match pointer {
            Pointer::Move => window_id,
            Pointer::Up => window_id,
            _ => containing,
        },
        None => containing,
    }
}

/// What a pointer's message leads to.
pub open spec fn pointer_plan(pointer: Pointer) -> Seq<PointerAction> {
    match pointer {
        Pointer::Down => seq![
            PointerAction::ProcessTapCount,
            PointerAction::HoldButton,
            PointerAction::Deliver,
        ],
        Pointer::Move => seq![
            PointerAction::Deliver,
            PointerAction::CycleHoverArea,
            PointerAction::SwitchCaptures,
        ],
        Pointer::Up => seq![
            PointerAction::Deliver,
            PointerAction::ReleaseButton,
            PointerAction::CycleHoverArea,
        ],
        Pointer::Scroll => seq![PointerAction::Deliver],
        Pointer::TweakRay => seq![PointerAction::Deliver],
    }
}

/// What a pointer's message leads to, in order.
pub fn pointer_actions(pointer: Pointer) -> (r: Vec<PointerAction>)
    ensures
        r@ == pointer_plan(pointer),
{
    let mut r: Vec<PointerAction> = Vec::new();
    match pointer {
        Pointer::Down => {
            r.push(PointerAction::ProcessTapCount);
            r.push(PointerAction::HoldButton);
            r.push(PointerAction::Deliver);
        },
        Pointer::Move => {
            r.push(PointerAction::Deliver);
            r.push(PointerAction::CycleHoverArea);
            r.push(PointerAction::SwitchCaptures);
        },
        Pointer::Up => {
            r.push(PointerAction::Deliver);
            r.push(PointerAction::ReleaseButton);
            r.push(PointerAction::CycleHoverArea);
        },
        Pointer::Scroll => {
            r.push(PointerAction::Deliver);
        },
        Pointer::TweakRay => {
            r.push(PointerAction::Deliver);
        },
    }
    r
}

/// The answer yes, whatever message came with it.
pub open spec fn yes(message: Message) -> Reply {
    Reply { flag: true, message }
}

/// The answer no, whatever message came with it.
pub open spec fn no(message: Message) -> Reply {
    Reply { flag: false, message }
}

/// An application with a host says that it starts, starts, does what it asks for, draws if there
/// is anything to draw, says that it has started, has itself watched, and waits for the host.
pub proof fn law_a_hosted_application_announces_itself(m: Message, cycles: usize, force: bool)
    ensures
        ({
            let a0 = fresh_loop(LoopKind::Stdin, cycles, false, force).next(yes(m));
            let a1 = a0.0.next(yes(m));
            let a2 = a1.0.next(yes(m));
            let a3 = a2.0.next(yes(m));
            let a4 = a3.0.next(yes(m));
            let a5 = a4.0.next(yes(m));
            let a6 = a5.0.next(yes(m));
            let a7 = a6.0.next(yes(m));
            &&& a0.1 == Action::SendBeforeStartup
            &&& a1.1 == Action::CallStartup
            &&& a2.1 == Action::HandleOps
            &&& a3.1 == Action::CheckNeedRedraw
            &&& a4.1 == Action::DrawCycle
            &&& a5.1 == Action::SendAfterStartup
            &&& a6.1 == Action::StartWatchdog
            &&& a7.1 == Action::Receive
        }),
{
}

/// An application with a host that has nothing to draw when it starts does not.
pub proof fn law_a_hosted_application_may_have_nothing_to_draw(m: Message, cycles: usize, force: bool)
    ensures
        ({
            let a0 = fresh_loop(LoopKind::Stdin, cycles, false, force).next(no(m));
            let a1 = a0.0.next(no(m));
            let a2 = a1.0.next(no(m));
            let a3 = a2.0.next(yes(m));
            let a4 = a3.0.next(no(m));
            let a5 = a4.0.next(no(m));
            let a6 = a5.0.next(no(m));
            &&& a0.1 == Action::SendBeforeStartup
            &&& a1.1 == Action::CallStartup
            &&& a2.1 == Action::HandleOps
            &&& a3.1 == Action::CheckNeedRedraw
            &&& a4.1 == Action::SendAfterStartup
            &&& a5.1 == Action::StartWatchdog
            &&& a6.1 == Action::Receive
        }),
{
}

/// An application with a host that quits when it starts says that it has started, and stops.
pub proof fn law_a_hosted_application_may_quit_at_once(m: Message, cycles: usize, force: bool)
    ensures
        ({
            let a0 = fresh_loop(LoopKind::Stdin, cycles, false, force).next(yes(m));
            let a1 = a0.0.next(yes(m));
            let a2 = a1.0.next(yes(m));
            let a3 = a2.0.next(no(m));
            let a4 = a3.0.next(yes(m));
            let a5 = a4.0.next(yes(m));
            let a6 = a5.0.next(yes(m));
            &&& a0.1 == Action::SendBeforeStartup
            &&& a1.1 == Action::CallStartup
            &&& a2.1 == Action::HandleOps
            &&& a3.1 == Action::SendAfterStartup
            &&& a4.1 == Action::StartWatchdog
            &&& a5.1 == Action::Stop
            &&& a6.1 == Action::Stop
        }),
{
}

/// With drawing switched off, an application with a host is asked to draw all the same when it
/// starts.
pub proof fn law_a_hosted_application_without_drawing_is_asked_all_the_same(m: Message, cycles: usize, force: bool)
    ensures
        ({
            let a0 = fresh_loop(LoopKind::Stdin, cycles, true, force).next(yes(m));
            let a1 = a0.0.next(yes(m));
            let a2 = a1.0.next(yes(m));
            let a3 = a2.0.next(yes(m));
            let a4 = a3.0.next(no(m));
            &&& a0.1 == Action::SendBeforeStartup
            &&& a1.1 == Action::CallStartup
            &&& a2.1 == Action::HandleOps
            &&& a3.1 == Action::DrawCycle
            &&& a4.1 == Action::SendAfterStartup
        }),
{
}

/// A tick of the host is noted; then the application is told of signals, actions, the network
/// and timers, what it asks for is done, what waits for the next frame is called, and if there
/// is anything to draw it is drawn. Whoever has rendered asks for the next frame.
pub proof fn law_a_tick_does_all_there_is_to_do(s: LoopState, m: Message)
    requires
        s.kind == LoopKind::Stdin,
        s.phase == Phase::Receiving,
        !s.no_draw,
    ensures
        ({
            let a0 = s.next((Reply { flag: true, message: Message::Tick }));
            let a1 = a0.0.next(yes(m));
            let a2 = a1.0.next(yes(m));
            let a3 = a2.0.next(yes(m));
            let a4 = a3.0.next(yes(m));
            let a5 = a4.0.next(yes(m));
            let a6 = a5.0.next(yes(m));
            let a7 = a6.0.next(yes(m));
            let a8 = a7.0.next(yes(m));
            let a9 = a8.0.next(yes(m));
            let a10 = a9.0.next(yes(m));
            let a11 = a10.0.next(yes(m));
            let a12 = a11.0.next(yes(m));
            let a13 = a12.0.next(yes(m));
            let a14 = a13.0.next(yes(m));
            &&& a0.1 == Action::NoteTick
            &&& a1.1 == Action::CheckUiSignal
            &&& a2.1 == Action::HandleUiSignal
            &&& a3.1 == Action::CheckActionSignal
            &&& a4.1 == Action::HandleActions
            &&& a5.1 == Action::DispatchNetwork
            &&& a6.1 == Action::DispatchTimers
            &&& a7.1 == Action::HandleOps
            &&& a8.1 == Action::CheckNextFrames
            &&& a9.1 == Action::CallNextFrames
            &&& a10.1 == Action::CheckNeedRedraw
            &&& a11.1 == Action::DrawCycle
            &&& a12.1 == Action::SendRequestFrame
            &&& a13.1 == Action::NotePending
            &&& a14.1 == Action::Receive
            &&& a14.0.quit == s.quit
        }),
{
}

/// A tick that finds nothing to do draws nothing, and asks for the next frame only if something
/// waits for it.
pub proof fn law_a_tick_does_nothing_there_is_no_need_for(s: LoopState, m: Message)
    requires
        s.kind == LoopKind::Stdin,
        s.phase == Phase::Receiving,
        !s.no_draw,
    ensures
        ({
            let a0 = s.next((Reply { flag: false, message: Message::Tick }));
            let a1 = a0.0.next(no(m));
            let a2 = a1.0.next(no(m));
            let a3 = a2.0.next(no(m));
            let a4 = a3.0.next(no(m));
            let a5 = a4.0.next(no(m));
            let a6 = a5.0.next(yes(m));
            let a7 = a6.0.next(no(m));
            let a8 = a7.0.next(no(m));
            let a9 = a8.0.next(no(m));
            let a10 = a9.0.next(no(m));
            &&& a0.1 == Action::NoteTick
            &&& a1.1 == Action::CheckUiSignal
            &&& a2.1 == Action::CheckActionSignal
            &&& a3.1 == Action::DispatchNetwork
            &&& a4.1 == Action::DispatchTimers
            &&& a5.1 == Action::HandleOps
            &&& a6.1 == Action::CheckNextFrames
            &&& a7.1 == Action::CheckNeedRedraw
            &&& a8.1 == Action::CheckWaiting
            &&& a9.1 == Action::NotePending
            &&& a10.1 == Action::Receive
            &&& a8.0.next(yes(m)).1 == Action::SendRequestFrame
        }),
{
}

/// An application that quits in a tick draws no more.
pub proof fn law_a_tick_ends_with_the_application(s: LoopState, m: Message)
    requires
        s.kind == LoopKind::Stdin,
        s.phase == Phase::Receiving,
    ensures
        ({
            let a0 = s.next((Reply { flag: true, message: Message::Tick }));
            let a1 = a0.0.next(no(m));
            let a2 = a1.0.next(no(m));
            let a3 = a2.0.next(no(m));
            let a4 = a3.0.next(no(m));
            let a5 = a4.0.next(no(m));
            let a6 = a5.0.next(no(m));
            let a7 = a6.0.next(yes(m));
            &&& a0.1 == Action::NoteTick
            &&& a1.1 == Action::CheckUiSignal
            &&& a2.1 == Action::CheckActionSignal
            &&& a3.1 == Action::DispatchNetwork
            &&& a4.1 == Action::DispatchTimers
            &&& a5.1 == Action::HandleOps
            &&& a6.1 == Action::Stop
            &&& a7.1 == Action::Stop
            &&& a6.0.quit
        }),
{
}

/// With drawing switched off, the application is asked to draw in every tick, and nothing has
/// to be rendered for the next frame to be asked for.
pub proof fn law_a_tick_without_drawing(s: LoopState, m: Message)
    requires
        s.kind == LoopKind::Stdin,
        s.phase == Phase::Receiving,
        s.no_draw,
    ensures
        ({
            let a0 = s.next((Reply { flag: true, message: Message::Tick }));
            let a1 = a0.0.next(no(m));
            let a2 = a1.0.next(no(m));
            let a3 = a2.0.next(no(m));
            let a4 = a3.0.next(no(m));
            let a5 = a4.0.next(no(m));
            let a6 = a5.0.next(yes(m));
            let a7 = a6.0.next(no(m));
            let a8 = a7.0.next(no(m));
            let a9 = a8.0.next(yes(m));
            let a10 = a9.0.next(no(m));
            &&& a0.1 == Action::NoteTick
            &&& a1.1 == Action::CheckUiSignal
            &&& a2.1 == Action::CheckActionSignal
            &&& a3.1 == Action::DispatchNetwork
            &&& a4.1 == Action::DispatchTimers
            &&& a5.1 == Action::HandleOps
            &&& a6.1 == Action::CheckNextFrames
            &&& a7.1 == Action::DrawCycle
            &&& a8.1 == Action::CheckWaiting
            &&& a9.1 == Action::SendRequestFrame
            &&& a10.1 == Action::NotePending
        }),
{
}

/// What the user does is delivered to the application, and nothing is drawn before the next
/// tick.
pub proof fn law_input_is_delivered(s: LoopState, m: Message)
    requires
        s.kind == LoopKind::Stdin,
        s.phase == Phase::Receiving,
    ensures
        ({
            let a0 = s.next((Reply { flag: true, message: Message::Input }));
            let a1 = a0.0.next(yes(m));
            let a2 = a1.0.next(yes(m));
            &&& a0.1 == Action::Deliver
            &&& a1.1 == Action::NotePending
            &&& a2.1 == Action::Receive
        }),
{
}

/// A host that asks for the selected text is sent it.
pub proof fn law_selected_text_is_sent(s: LoopState, m: Message)
    requires
        s.kind == LoopKind::Stdin,
        s.phase == Phase::Receiving,
    ensures
        ({
            let a0 = s.next((Reply { flag: true, message: Message::Clipboard }));
            let a1 = a0.0.next(yes(m));
            let a2 = a1.0.next(yes(m));
            let a3 = a2.0.next(yes(m));
            &&& a0.1 == Action::AskClipboard
            &&& a1.1 == Action::SendClipboard
            &&& a2.1 == Action::NotePending
            &&& a3.1 == Action::Receive
        }),
{
}

/// A host that asks for the selected text where there is none is sent nothing.
pub proof fn law_no_selected_text_is_not_sent(s: LoopState, m: Message)
    requires
        s.kind == LoopKind::Stdin,
        s.phase == Phase::Receiving,
    ensures
        ({
            let a0 = s.next((Reply { flag: true, message: Message::Clipboard }));
            let a1 = a0.0.next(no(m));
            let a2 = a1.0.next(no(m));
            &&& a0.1 == Action::AskClipboard
            &&& a1.1 == Action::NotePending
            &&& a2.1 == Action::Receive
        }),
{
}

/// A new geometry is taken over, and everything has to be drawn again.
pub proof fn law_a_new_geometry_has_everything_drawn_again(s: LoopState, m: Message)
    requires
        s.kind == LoopKind::Stdin,
        s.phase == Phase::Receiving,
    ensures
        ({
            let a0 = s.next((Reply { flag: true, message: Message::WindowGeomChange }));
            let a1 = a0.0.next(yes(m));
            let a2 = a1.0.next(yes(m));
            let a3 = a2.0.next(yes(m));
            &&& a0.1 == Action::TakeGeometry
            &&& a1.1 == Action::RedrawAll
            &&& a2.1 == Action::NotePending
            &&& a3.1 == Action::Receive
        }),
{
}

/// New images are taken over, and everything has to be drawn again.
pub proof fn law_new_images_have_everything_drawn_again(s: LoopState, m: Message)
    requires
        s.kind == LoopKind::Stdin,
        s.phase == Phase::Receiving,
    ensures
        ({
            let a0 = s.next((Reply { flag: true, message: Message::Swapchain }));
            let a1 = a0.0.next(yes(m));
            let a2 = a1.0.next(yes(m));
            let a3 = a2.0.next(yes(m));
            &&& a0.1 == Action::TakeSwapchain
            &&& a1.1 == Action::RedrawAll
            &&& a2.1 == Action::NotePending
            &&& a3.1 == Action::Receive
        }),
{
}

/// Any other message is dispatched, what the application then asks for is done, and what waits
/// for the next frame is called; nothing is drawn.
pub proof fn law_other_messages_are_dispatched(s: LoopState, m: Message)
    requires
        s.kind == LoopKind::Stdin,
        s.phase == Phase::Receiving,
    ensures
        ({
            let a0 = s.next((Reply { flag: true, message: Message::Other }));
            let a1 = a0.0.next(no(m));
            let a2 = a1.0.next(yes(m));
            let a3 = a2.0.next(yes(m));
            let a4 = a3.0.next(yes(m));
            let a5 = a4.0.next(yes(m));
            &&& a0.1 == Action::Dispatch
            &&& a1.1 == Action::HandleOps
            &&& a2.1 == Action::CheckNextFrames
            &&& a3.1 == Action::CallNextFrames
            &&& a4.1 == Action::NotePending
            &&& a5.1 == Action::Receive
            &&& a2.0.next(no(m)).1 == Action::NotePending
        }),
{
}

/// The loop ends when the connection is closed, when a dispatched message ends it, and when the
/// application quits; it passes over what does not concern it.
pub proof fn law_the_host_ends_the_loop(s: LoopState, m: Message)
    requires
        s.kind == LoopKind::Stdin,
        s.phase == Phase::Receiving,
    ensures
        ({
            let a0 = s.next((Reply { flag: true, message: Message::Closed }));
            let a1 = a0.0.next(yes(m));
            &&& a0.1 == Action::Stop
            &&& a1.1 == Action::Stop
            &&& s.next((Reply { flag: true, message: Message::Other })).0.next(yes(m)).1 == Action::Stop
            &&& s.next((Reply { flag: true, message: Message::Other })).0.next(no(m)).0.next(no(m)).1 == Action::Stop
            &&& s.next((Reply { flag: true, message: Message::Ignored })).1 == Action::NotePending
            &&& s.next((Reply { flag: true, message: Message::Ignored })).0.next(yes(m)).1 == Action::Receive
            &&& a0.0.quit
        }),
{
}

/// A loop of some rounds starts the application, does what it asks for, and sees to it that
/// there is a window. In each round the application is told of signals, actions, the network
/// and timers, what it asks for is done, and what waits for the next frame is called; with
/// drawing forced everything is drawn again, and then the loop sleeps.
pub proof fn law_a_round_draws_everything_if_forced(m: Message, cycles: usize)
    requires
        cycles > 1,
    ensures
        ({
            let a0 = fresh_loop(LoopKind::Bounded, cycles, false, true).next(yes(m));
            let a1 = a0.0.next(yes(m));
            let a2 = a1.0.next(yes(m));
            let a3 = a2.0.next(yes(m));
            let a4 = a3.0.next(yes(m));
            let a5 = a4.0.next(yes(m));
            let a6 = a5.0.next(yes(m));
            let a7 = a6.0.next(yes(m));
            let a8 = a7.0.next(yes(m));
            let a9 = a8.0.next(yes(m));
            let a10 = a9.0.next(yes(m));
            let a11 = a10.0.next(yes(m));
            let a12 = a11.0.next(yes(m));
            let a13 = a12.0.next(yes(m));
            let a14 = a13.0.next(yes(m));
            let a15 = a14.0.next(yes(m));
            let a16 = a15.0.next(yes(m));
            &&& a0.1 == Action::CallStartup
            &&& a1.1 == Action::HandleOps
            &&& a2.1 == Action::EnsureWindow
            &&& a3.1 == Action::CheckUiSignal
            &&& a4.1 == Action::HandleUiSignal
            &&& a5.1 == Action::CheckActionSignal
            &&& a6.1 == Action::HandleActions
            &&& a7.1 == Action::DispatchNetwork
            &&& a8.1 == Action::DispatchTimers
            &&& a9.1 == Action::HandleOps
            &&& a10.1 == Action::CheckNextFrames
            &&& a11.1 == Action::CallNextFrames
            &&& a12.1 == Action::RedrawAll
            &&& a13.1 == Action::CheckNeedRedraw
            &&& a14.1 == Action::DrawCycle
            &&& a15.1 == Action::Sleep
            &&& a16.1 == Action::CheckUiSignal
            &&& a15.0.completed == 1
        }),
{
}

/// A round in which there is nothing to do or to draw counts all the same, and after the last
/// one the loop stops.
pub proof fn law_a_round_draws_only_what_changed_unless_forced(m: Message)
    ensures
        ({
            let a0 = fresh_loop(LoopKind::Bounded, 1, false, false).next(no(m));
            let a1 = a0.0.next(no(m));
            let a2 = a1.0.next(yes(m));
            let a3 = a2.0.next(no(m));
            let a4 = a3.0.next(no(m));
            let a5 = a4.0.next(no(m));
            let a6 = a5.0.next(no(m));
            let a7 = a6.0.next(no(m));
            let a8 = a7.0.next(yes(m));
            let a9 = a8.0.next(no(m));
            let a10 = a9.0.next(no(m));
            let a11 = a10.0.next(no(m));
            &&& a0.1 == Action::CallStartup
            &&& a1.1 == Action::HandleOps
            &&& a2.1 == Action::EnsureWindow
            &&& a3.1 == Action::CheckUiSignal
            &&& a4.1 == Action::CheckActionSignal
            &&& a5.1 == Action::DispatchNetwork
            &&& a6.1 == Action::DispatchTimers
            &&& a7.1 == Action::HandleOps
            &&& a8.1 == Action::CheckNextFrames
            &&& a9.1 == Action::CheckNeedRedraw
            &&& a10.1 == Action::Sleep
            &&& a11.1 == Action::Stop
            &&& a10.0.completed == 1
            &&& a8.0.next(yes(m)).1 == Action::CallNextFrames
            &&& a8.0.next(yes(m)).0.next(yes(m)).1 == Action::CheckNeedRedraw
            &&& a7.0.next(no(m)).1 == Action::Stop
        }),
{
}

/// An application that quits when it starts gets no round.
pub proof fn law_a_bounded_loop_may_be_quit_at_once(m: Message, cycles: usize)
    ensures
        ({
            let a0 = fresh_loop(LoopKind::Bounded, cycles, false, true).next(yes(m));
            let a1 = a0.0.next(yes(m));
            let a2 = a1.0.next(no(m));
            let a3 = a2.0.next(yes(m));
            &&& a0.1 == Action::CallStartup
            &&& a1.1 == Action::HandleOps
            &&& a2.1 == Action::EnsureWindow
            &&& a3.1 == Action::Stop
        }),
{
}

/// With drawing switched off, the application is asked to draw in every round.
pub proof fn law_a_round_without_drawing(m: Message, cycles: usize)
    requires
        cycles > 0,
    ensures
        ({
            let a0 = fresh_loop(LoopKind::Bounded, cycles, true, false).next(no(m));
            let a1 = a0.0.next(no(m));
            let a2 = a1.0.next(yes(m));
            let a3 = a2.0.next(no(m));
            let a4 = a3.0.next(no(m));
            let a5 = a4.0.next(no(m));
            let a6 = a5.0.next(no(m));
            let a7 = a6.0.next(no(m));
            let a8 = a7.0.next(yes(m));
            let a9 = a8.0.next(no(m));
            let a10 = a9.0.next(no(m));
            &&& a0.1 == Action::CallStartup
            &&& a1.1 == Action::HandleOps
            &&& a2.1 == Action::EnsureWindow
            &&& a3.1 == Action::CheckUiSignal
            &&& a4.1 == Action::CheckActionSignal
            &&& a5.1 == Action::DispatchNetwork
            &&& a6.1 == Action::DispatchTimers
            &&& a7.1 == Action::HandleOps
            &&& a8.1 == Action::CheckNextFrames
            &&& a9.1 == Action::DrawCycle
            &&& a10.1 == Action::Sleep
        }),
{
}

/// A loop for a single frame starts the application, does what it asks for, sees to it that there
/// is a window, calls what waits for the next frame, draws if there is anything to draw, and
/// stops.
pub proof fn law_a_single_frame_is_drawn_and_the_loop_stops(m: Message, cycles: usize, force: bool)
    ensures
        ({
            let a0 = fresh_loop(LoopKind::Single, cycles, false, force).next(yes(m));
            let a1 = a0.0.next(yes(m));
            let a2 = a1.0.next(yes(m));
            let a3 = a2.0.next(yes(m));
            let a4 = a3.0.next(yes(m));
            let a5 = a4.0.next(yes(m));
            let a6 = a5.0.next(yes(m));
            let a7 = a6.0.next(yes(m));
            &&& a0.1 == Action::CallStartup
            &&& a1.1 == Action::HandleOps
            &&& a2.1 == Action::EnsureWindow
            &&& a3.1 == Action::CheckNextFrames
            &&& a4.1 == Action::CallNextFrames
            &&& a5.1 == Action::CheckNeedRedraw
            &&& a6.1 == Action::DrawCycle
            &&& a7.1 == Action::Stop
            &&& a3.0.next(no(m)).1 == Action::CheckNeedRedraw
            &&& a5.0.next(no(m)).1 == Action::Stop
            &&& a1.0.next(no(m)).1 == Action::EnsureWindow
        }),
{
}

/// A draw cycle notes what is to be repainted before the draw event, and compiles before it
/// renders; the frames are handed out unless a host has asked for none. The first cycle of
/// all paints once more before, without handing anything out. With drawing switched off, the
/// application is asked to draw, and nothing else is done.
pub proof fn law_a_draw_cycle_hands_out_what_is_asked_for(
    cx: Cx,
    send_protocol: bool,
    screenshots_waiting: bool,
)
    ensures
        ({
            let actions = cx.draw_actions(send_protocol, screenshots_waiting);
            let n = actions.len() as int;
            &&& cx.no_draw ==> n == 2 && actions[0] == DrawAction::CallDraw && actions[1]
                == DrawAction::NoteDrew
            &&& !cx.no_draw ==> {
                &&& n == if cx.warmup_done { 5int } else { 11int }
                &&& actions[n - 5] == DrawAction::ObserveDamage
                &&& actions[n - 4] == DrawAction::CallDraw
                &&& actions[n - 3] == DrawAction::NoteDrew
                &&& actions[n - 2] == DrawAction::CompileShaders
                &&& send_protocol && !screenshots_waiting ==> actions[n - 1] == DrawAction::Render
                &&& !send_protocol || screenshots_waiting ==> actions[n - 1] == DrawAction::Emit
                &&& !cx.warmup_done ==> actions[0] == DrawAction::ObserveDamage && actions[1]
                    == DrawAction::CallDraw && actions[2] == DrawAction::NoteDrew && actions[3]
                    == DrawAction::CompileShaders && actions[4] == DrawAction::Render && actions[5]
                    == DrawAction::RedrawAll
            }
        }),
        Cx::rounds(0) == 1,
        forall|n: usize| n > 0 ==> #[trigger] Cx::rounds(n) == n,
{
}

/// Every message of a pointer is delivered, once. Pressing counts the taps and holds the
/// button before that, and letting go releases it after; moving and letting go look for what
/// lies under the pointer after.
pub proof fn law_pointers_are_delivered_once(pointer: Pointer)
    ensures
        ({
            let plan = pointer_plan(pointer);
            &&& pointer == Pointer::Down ==> plan.len() == 3 && plan[0]
                == PointerAction::ProcessTapCount && plan[1] == PointerAction::HoldButton && plan[2]
                == PointerAction::Deliver
            &&& pointer == Pointer::Move ==> plan.len() == 3 && plan[0] == PointerAction::Deliver
                && plan[1] == PointerAction::CycleHoverArea && plan[2]
                == PointerAction::SwitchCaptures
            &&& pointer == Pointer::Up ==> plan.len() == 3 && plan[0] == PointerAction::Deliver
                && plan[1] == PointerAction::ReleaseButton && plan[2]
                == PointerAction::CycleHoverArea
            &&& pointer == Pointer::Scroll || pointer == Pointer::TweakRay ==> plan.len() == 1
                && plan[0] == PointerAction::Deliver
        }),
{
}

/// The loop of an application is driven by its host if it has one, else it goes the rounds
/// that were asked for, else it is for a single frame; nothing was done in it yet.
pub proof fn law_the_loop_is_the_one_asked_for(cx: &mut Cx, stdin_loop: bool, r: LoopState)
    requires
        call_ensures(Cx::event_loop, (cx, stdin_loop), r),
    ensures
        stdin_loop ==> r.kind == LoopKind::Stdin && final(cx).in_makepad_studio,
        !stdin_loop ==> (old(cx).draw_cycles matches Some(n) ==> r.kind == LoopKind::Bounded
            && r.draw_cycles == n),
        !stdin_loop && old(cx).draw_cycles is None ==> r.kind == LoopKind::Single,
        r.phase == Phase::Begin && r.completed == 0 && !r.quit,
        r.no_draw == old(cx).no_draw && r.force_redraw == old(cx).force_redraw,
        final(cx).no_draw == old(cx).no_draw && final(cx).draw_cycles == old(cx).draw_cycles,
{
}

/// A loop for some draw cycles goes that many rounds, but at least one; and one without
/// drawing switches drawing off.
pub proof fn law_draw_cycles_are_rounds(
    cx: &Cx,
    n: usize,
    drawing: LoopState,
    without: &mut Cx,
    silent: LoopState,
)
    requires
        call_ensures(Cx::headless_event_loop_for_draw_cycles, (cx, n), drawing),
        call_ensures(Cx::headless_no_draw_event_loop_for_draw_cycles, (without, n), silent),
    ensures
        drawing.kind == LoopKind::Bounded && silent.kind == LoopKind::Bounded,
        n >= 1 ==> drawing.draw_cycles == n && silent.draw_cycles == n,
        n == 0 ==> drawing.draw_cycles == 1 && silent.draw_cycles == 1,
        drawing.no_draw == cx.no_draw,
        silent.no_draw && final(without).no_draw,
{
}

/// The first draw cycle warms up and every later one does not; with a host that waits for no
/// screenshot nothing is handed out.
pub proof fn law_only_the_first_draw_cycle_warms_up(
    first: &mut Cx,
    send_protocol: bool,
    waiting: bool,
    plan: DrawCyclePlan,
    second: &mut Cx,
    next_plan: DrawCyclePlan,
)
    requires
        !old(first).no_draw,
        !old(first).warmup_done,
        call_ensures(Cx::headless_process_draw_cycle, (first, send_protocol, waiting), plan),
        *old(second) == *final(first),
        call_ensures(Cx::headless_process_draw_cycle, (second, send_protocol, waiting), next_plan),
    ensures
        plan.actions@.len() == 11,
        next_plan.actions@.len() == 5,
        plan.actions@.skip(6) == next_plan.actions@,
        plan.actions@[4] == DrawAction::Render && plan.actions@[5] == DrawAction::RedrawAll,
        send_protocol && !waiting ==> next_plan.actions@[4] == DrawAction::Render
            && plan.rendered == Some(true),
        !send_protocol || waiting ==> next_plan.actions@[4] == DrawAction::Emit
            && plan.rendered is None,
{
    law_a_draw_cycle_hands_out_what_is_asked_for(*old(first), send_protocol, waiting);
    law_a_draw_cycle_hands_out_what_is_asked_for(*old(second), send_protocol, waiting);
    assert(plan.actions@.skip(6) =~= next_plan.actions@);
}

/// While a button is held down, moving and letting go belong to the window in which it was
/// pressed; everything else belongs to the window under the pointer.
pub proof fn law_a_held_button_keeps_its_window(
    pointer: Pointer,
    pressed_in: Option<usize>,
    containing: usize,
    r: usize,
    actions: Vec<PointerAction>,
)
    requires
        call_ensures(pointer_window, (pointer, pressed_in, containing), r),
        call_ensures(pointer_actions, (pointer,), actions),
    ensures
        pressed_in is None ==> r == containing,
        pointer != Pointer::Move && pointer != Pointer::Up ==> r == containing,
        pointer == Pointer::Move || pointer == Pointer::Up ==> (pressed_in matches Some(w) ==> r
            == w),
        exists|k: int| 0 <= k < actions@.len() && actions@[k] == PointerAction::Deliver,
        actions@.contains(PointerAction::HoldButton) <==> pointer == Pointer::Down,
        actions@.contains(PointerAction::ReleaseButton) <==> pointer == Pointer::Up,
{
    let plan = pointer_plan(pointer);
    law_pointers_are_delivered_once(pointer);
    assert(pointer == Pointer::Down ==> plan[1] == PointerAction::HoldButton && plan[2]
        == PointerAction::Deliver);
    assert(pointer == Pointer::Up ==> plan[1] == PointerAction::ReleaseButton && plan[0]
        == PointerAction::Deliver);
    assert(pointer != Pointer::Down ==> plan[0] == PointerAction::Deliver);
}

/// A loop begins as it is asked for, and advancing it is one step of its run.
pub proof fn law_advancing_is_a_step_of_the_run(
    cx: &Cx,
    n: usize,
    single: LoopState,
    bounded: LoopState,
    hosted: LoopState,
    s: &mut LoopState,
    reply: Reply,
    r: Action,
)
    requires
        call_ensures(Cx::headless_single_frame, (cx,), single),
        call_ensures(Cx::headless_bounded_loop, (cx, n), bounded),
        call_ensures(Cx::stdin_event_loop, (cx,), hosted),
        call_ensures(LoopState::advance, (s, reply), r),
    ensures
        single.kind == LoopKind::Single && bounded.kind == LoopKind::Bounded && hosted.kind
            == LoopKind::Stdin,
        bounded.draw_cycles == n,
        single.phase == Phase::Begin && bounded.phase == Phase::Begin && hosted.phase
            == Phase::Begin,
        bounded.completed == 0 && !single.quit && !bounded.quit && !hosted.quit,
        single.no_draw == cx.no_draw && bounded.no_draw == cx.no_draw && hosted.no_draw
            == cx.no_draw,
        single.force_redraw == cx.force_redraw && bounded.force_redraw == cx.force_redraw
            && hosted.force_redraw == cx.force_redraw,
        run(*old(s), seq![reply]) == (*final(s), seq![r]),
{
    reveal_with_fuel(run, 2);
    assert(seq![reply].drop_last() =~= Seq::<Reply>::empty());
    assert(Seq::<Action>::empty().push(r) =~= seq![r]);
}

} // verus!
