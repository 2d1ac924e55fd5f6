use makepad_platform::event_loop::{
    pointer_actions, pointer_window, Action, Cx, DrawAction, LoopKind, LoopState, Message, Phase,
    Pointer, PointerAction, Reply,
};

fn say(flag: bool) -> Reply {
    Reply { flag, message: Message::Ignored }
}

fn tell(message: Message) -> Reply {
    Reply { flag: false, message }
}

fn cx() -> Cx {
    Cx::init_cx_os(false, None, false)
}

/// Answers every question of a loop, up to `limit` steps.
fn run(mut state: LoopState, limit: usize, answer: &dyn Fn(Action) -> Reply) -> (LoopState, Vec<Action>) {
    let mut actions = Vec::new();
    let mut reply = say(false);
    for _ in 0..limit {
        let action = state.advance(reply);
        actions.push(action);
        if action == Action::Stop {
            break;
        }
        reply = answer(action);
    }
    (state, actions)
}

fn count(actions: &[Action], what: Action) -> usize {
    actions.iter().filter(|a| **a == what).count()
}

#[test]
fn the_loop_is_chosen_by_what_was_asked_for() {
    let mut c = cx();
    assert_eq!(c.event_loop(false).kind, LoopKind::Single);
    c.draw_cycles = Some(7);
    let bounded = c.event_loop(false);
    assert_eq!((bounded.kind, bounded.draw_cycles), (LoopKind::Bounded, 7));
    assert!(!c.in_makepad_studio);
    assert_eq!(c.event_loop(true).kind, LoopKind::Stdin);
    assert!(c.in_makepad_studio);
    assert_eq!(cx().headless_event_loop_for_draw_cycles(0).draw_cycles, 1);
    assert_eq!(cx().stdin_event_loop().kind, LoopKind::Stdin);
    let mut c = cx();
    c.no_draw_initialized = true;
    let silent = c.headless_no_draw_event_loop_for_draw_cycles(3);
    assert!(c.no_draw && !c.no_draw_initialized && silent.no_draw);
    assert_eq!(silent.draw_cycles, 3);
}

#[test]
fn a_single_frame_is_painted_once() {
    let (end, actions) = run(cx().headless_single_frame(), 100, &|a| {
        say(matches!(a, Action::CheckNextFrames | Action::CheckNeedRedraw))
    });
    assert_eq!(
        actions,
        vec![
            Action::CallStartup,
            Action::HandleOps,
            Action::EnsureWindow,
            Action::CheckNextFrames,
            Action::CallNextFrames,
            Action::CheckNeedRedraw,
            Action::DrawCycle,
            Action::Stop,
        ]
    );
    assert_eq!(end.phase, Phase::Stopped);
}

#[test]
fn a_bounded_loop_goes_round_as_often_as_asked() {
    let (end, actions) = run(cx().headless_bounded_loop(3), 200, &|a| {
        say(matches!(a, Action::HandleOps | Action::CheckNeedRedraw))
    });
    assert_eq!(count(&actions, Action::DrawCycle), 3);
    assert_eq!(count(&actions, Action::Sleep), 3);
    assert_eq!(actions.last(), Some(&Action::Stop));
    assert_eq!(end.completed, 3);
    assert!(!end.quit);
    let (_, clean) = run(cx().headless_bounded_loop(3), 200, &|a| say(a == Action::HandleOps));
    assert_eq!(count(&clean, Action::DrawCycle), 0);
    assert_eq!(count(&clean, Action::Sleep), 3);
    let mut forced = cx();
    forced.force_redraw = true;
    let (_, all) = run(forced.headless_bounded_loop(2), 200, &|a| say(a == Action::HandleOps));
    assert_eq!(count(&all, Action::RedrawAll), 2);
}

#[test]
fn quitting_comes_before_drawing() {
    let (end, actions) = run(cx().headless_bounded_loop(3), 200, &|_| say(false));
    assert!(end.quit);
    assert_eq!(count(&actions, Action::DrawCycle), 0);
    assert_eq!(actions.last(), Some(&Action::Stop));
    let seen = std::cell::Cell::new(0);
    let (end, actions) = run(cx().headless_bounded_loop(3), 200, &|a| {
        if a == Action::HandleOps {
            seen.set(seen.get() + 1);
            return say(seen.get() < 3);
        }
        say(a == Action::CheckNeedRedraw)
    });
    assert!(end.quit);
    assert_eq!(count(&actions, Action::DrawCycle), 1);
}

#[test]
fn a_host_that_never_ticks_gets_one_frame() {
    let turn = std::cell::Cell::new(0usize);
    let messages = [Message::WindowGeomChange, Message::Swapchain, Message::Input, Message::Clipboard, Message::Ignored];
    let (_, actions) = run(cx().stdin_event_loop(), 400, &|a| {
        if a == Action::Receive {
            turn.set(turn.get() + 1);
            return tell(messages[turn.get() % 5]);
        }
        say(true)
    });
    assert_eq!(count(&actions, Action::DrawCycle), 1);
    assert_eq!(count(&actions, Action::SendRequestFrame), 0);
    assert!(count(&actions, Action::Receive) > 50);
    assert_eq!(&actions[0..2], &[Action::SendBeforeStartup, Action::CallStartup]);
}

#[test]
fn every_tick_can_draw_and_ask_for_the_next() {
    let turn = std::cell::Cell::new(0usize);
    let (end, actions) = run(cx().stdin_event_loop(), 1000, &|a| {
        if a == Action::Receive {
            turn.set(turn.get() + 1);
            return tell(if turn.get() <= 4 { Message::Tick } else { Message::Closed });
        }
        say(true)
    });
    assert_eq!(count(&actions, Action::NoteTick), 4);
    assert_eq!(count(&actions, Action::DrawCycle), 5);
    assert_eq!(count(&actions, Action::SendRequestFrame), 4);
    assert_eq!(count(&actions, Action::NotePending), 4);
    assert_eq!(count(&actions, Action::StartWatchdog), 1);
    assert!(end.quit);
    let mut stopped = end;
    assert_eq!(stopped.advance(tell(Message::Tick)), Action::Stop);
    assert_eq!(stopped, end);
}

#[test]
fn a_dispatched_message_can_end_the_loop() {
    let (end, actions) = run(cx().stdin_event_loop(), 1000, &|a| match a {
        Action::Receive => tell(Message::Other),
        _ => say(true),
    });
    assert_eq!(count(&actions, Action::Dispatch), 1);
    assert!(end.quit);
}

/// Only a tick turns what is to be drawn into a frame: no other message does, and no frame
/// is asked for.
#[test]
fn no_message_but_a_tick_draws() {
    for message in [
        Message::Input,
        Message::Clipboard,
        Message::WindowGeomChange,
        Message::Swapchain,
        Message::Ignored,
        Message::Other,
    ] {
        let turn = std::cell::Cell::new(0usize);
        let (_, actions) = run(cx().stdin_event_loop(), 1000, &|a| match a {
            Action::Receive => {
                turn.set(turn.get() + 1);
                tell(if turn.get() <= 3 { message } else { Message::Closed })
            }
            Action::Dispatch => say(false),
            _ => say(true),
        });
        assert_eq!(count(&actions, Action::DrawCycle), 1);
        assert_eq!(count(&actions, Action::SendRequestFrame), 0);
        assert_eq!(count(&actions, Action::NotePending), 3);
        let ops = if message == Message::Other { 4 } else { 1 };
        assert_eq!(count(&actions, Action::HandleOps), ops);
        let called = if message == Message::Other { 3 } else { 0 };
        assert_eq!(count(&actions, Action::CallNextFrames), called);
    }
}

#[test]
fn a_request_to_quit_behind_a_dispatched_message_ends_the_loop() {
    let handled = std::cell::Cell::new(0usize);
    let (end, actions) = run(cx().stdin_event_loop(), 1000, &|a| match a {
        Action::Receive => tell(Message::Other),
        Action::Dispatch => say(false),
        Action::HandleOps => {
            handled.set(handled.get() + 1);
            say(handled.get() < 2)
        }
        _ => say(true),
    });
    assert!(end.quit);
    assert_eq!(count(&actions, Action::Dispatch), 1);
    assert_eq!(count(&actions, Action::NotePending), 0);
}

#[test]
fn the_first_frame_is_preceded_by_one_that_is_not_shown() {
    let mut c = cx();
    let first = c.headless_process_draw_cycle(false, false);
    assert_eq!(
        first.actions,
        vec![
            DrawAction::ObserveDamage,
            DrawAction::CallDraw,
            DrawAction::NoteDrew,
            DrawAction::CompileShaders,
            DrawAction::Render,
            DrawAction::RedrawAll,
            DrawAction::ObserveDamage,
            DrawAction::CallDraw,
            DrawAction::NoteDrew,
            DrawAction::CompileShaders,
            DrawAction::Emit,
        ]
    );
    assert_eq!(first.rendered, None);
    let second = c.headless_process_draw_cycle(true, false);
    assert_eq!(second.actions.len(), 5);
    assert_eq!(second.actions[4], DrawAction::Render);
    assert_eq!(second.rendered, Some(true));
    assert_eq!(c.headless_process_draw_cycle(true, true).actions[4], DrawAction::Emit);
    let mut silent = Cx::init_cx_os(true, None, false);
    let plan = silent.headless_process_draw_cycle(true, false);
    assert_eq!(plan.actions, vec![DrawAction::CallDraw, DrawAction::NoteDrew]);
    assert_eq!(plan.rendered, Some(false));
    assert!(silent.no_draw_initialized && !silent.warmup_done);
}

#[test]
fn a_held_button_keeps_its_window() {
    for p in [Pointer::Down, Pointer::Move, Pointer::Up, Pointer::Scroll, Pointer::TweakRay] {
        assert_eq!(pointer_window(p, None, 4), 4);
        let held = matches!(p, Pointer::Move | Pointer::Up);
        assert_eq!(pointer_window(p, Some(9), 4), if held { 9 } else { 4 });
        assert!(pointer_actions(p).contains(&PointerAction::Deliver));
    }
    assert_eq!(
        pointer_actions(Pointer::Down),
        vec![PointerAction::ProcessTapCount, PointerAction::HoldButton, PointerAction::Deliver]
    );
    assert_eq!(
        pointer_actions(Pointer::Up),
        vec![PointerAction::Deliver, PointerAction::ReleaseButton, PointerAction::CycleHoverArea]
    );
}
