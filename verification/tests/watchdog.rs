use makepad_platform::double::F64;
use makepad_platform::studio_tick_watchdog::{
    note_studio_draw_pending, note_studio_drew, note_studio_tick, now_ms, report,
    start_studio_tick_watchdog, timeout, verdict, Round, StudioTickWatchdog, Verdict,
};

const TIMEOUT: u64 = 5_000;
const YA_DIBUJO: bool = true;
const SIN_TICKS: u64 = 0;

fn f(v: f64) -> F64 {
    F64 { bits: v.to_bits() }
}

#[test]
fn an_idle_app_is_never_accused() {
    assert_eq!(verdict(100_000, 0, 0, TIMEOUT, SIN_TICKS, YA_DIBUJO), Verdict::Quiet);
    assert_eq!(verdict(100_000, 0, 99_000, TIMEOUT, 99_000, YA_DIBUJO), Verdict::Quiet);
}

#[test]
fn waiting_less_than_the_timeout_is_not_a_fault() {
    assert_eq!(verdict(4_000, 1_000, 0, TIMEOUT, SIN_TICKS, YA_DIBUJO), Verdict::Quiet);
}

#[test]
fn ticks_flowing_and_never_a_draw_is_the_lost_bootstrap() {
    assert_eq!(
        verdict(100_000, 1_000, 99_000, TIMEOUT, 900, false),
        Verdict::TicksButNeverDrew
    );
}

#[test]
fn ticks_flowing_after_good_frames_is_a_different_verdict() {
    assert_eq!(
        verdict(100_000, 1_000, 99_000, TIMEOUT, 900, YA_DIBUJO),
        Verdict::TicksButFrameStuck
    );
}

#[test]
fn a_host_that_never_ticked_is_named_as_such() {
    assert_eq!(verdict(10_000, 1_000, 0, TIMEOUT, SIN_TICKS, YA_DIBUJO), Verdict::NeverTicked);
}

#[test]
fn a_host_that_stopped_ticking_is_a_different_verdict() {
    assert_eq!(
        verdict(10_000, 1_000, 900, TIMEOUT, 900, YA_DIBUJO),
        Verdict::TicksStopped
    );
}

#[test]
fn the_boundary_belongs_to_the_timeout_not_to_the_alarm() {
    assert_eq!(verdict(6_000, 1_000, 0, TIMEOUT, SIN_TICKS, YA_DIBUJO), Verdict::NeverTicked);
    assert_eq!(verdict(5_999, 1_000, 0, TIMEOUT, SIN_TICKS, YA_DIBUJO), Verdict::Quiet);
}

#[test]
fn every_verdict_is_reachable() {
    let todos = [
        verdict(100_000, 0, 0, TIMEOUT, SIN_TICKS, YA_DIBUJO),
        verdict(10_000, 1_000, 0, TIMEOUT, SIN_TICKS, YA_DIBUJO),
        verdict(10_000, 1_000, 900, TIMEOUT, 900, YA_DIBUJO),
        verdict(100_000, 1_000, 99_000, TIMEOUT, 900, false),
        verdict(100_000, 1_000, 99_000, TIMEOUT, 900, YA_DIBUJO),
    ];
    for esperado in [
        Verdict::Quiet,
        Verdict::NeverTicked,
        Verdict::TicksStopped,
        Verdict::TicksButNeverDrew,
        Verdict::TicksButFrameStuck,
    ] {
        assert!(todos.contains(&esperado));
    }
}

#[test]
fn nothing_drawn_is_noticed_exactly_at_the_timeout() {
    assert_eq!(verdict(5_900, 0, 5_800, TIMEOUT, 900, false), Verdict::TicksButNeverDrew);
    assert_eq!(verdict(5_899, 0, 5_800, TIMEOUT, 900, false), Verdict::Quiet);
}

#[test]
fn time_starts_at_one() {
    assert_eq!(now_ms(0), 1);
    assert_eq!(now_ms(41), 42);
}

#[test]
fn the_timeout_is_read_from_its_setting() {
    let parse = |s: String| s.parse::<f64>().ok().map(f);
    assert_eq!(timeout(None, &parse), Some(f(5.0)));
    assert_eq!(timeout(Some("2.5"), &parse), Some(f(2.5)));
    assert_eq!(timeout(Some("0"), &parse), None);
    assert_eq!(timeout(Some("-1"), &parse), None);
    assert_eq!(timeout(Some("soon"), &parse), Some(f(5.0)));
}

#[test]
fn a_watchdog_starts_once_and_only_with_a_timeout() {
    let mut w = StudioTickWatchdog::default();
    assert!(!start_studio_tick_watchdog(&mut w, None));
    let mut w = StudioTickWatchdog::default();
    assert!(start_studio_tick_watchdog(&mut w, Some(f(5.0))));
    assert!(!start_studio_tick_watchdog(&mut w, Some(f(5.0))));
}

#[test]
fn ticks_are_counted_and_the_first_is_remembered() {
    let mut w = StudioTickWatchdog::default();
    note_studio_tick(&mut w, 100);
    note_studio_tick(&mut w, 250);
    assert_eq!(w.first_tick_ms, 100);
    assert_eq!(w.last_tick_ms, 250);
    assert_eq!(w.ticks_seen, 2);
    assert!(!w.drew_ever);
    note_studio_drew(&mut w);
    assert!(w.drew_ever);
}

#[test]
fn pending_again_does_not_move_the_deadline() {
    let mut w = StudioTickWatchdog::default();
    note_studio_draw_pending(&mut w, true, 10);
    note_studio_draw_pending(&mut w, true, 5_000);
    assert_eq!(w.draw_pending_since_ms, 10);
    note_studio_draw_pending(&mut w, false, 6_000);
    assert_eq!(w.draw_pending_since_ms, 0);
    note_studio_draw_pending(&mut w, true, 7_000);
    assert_eq!(w.draw_pending_since_ms, 7_000);
}

#[test]
fn the_watchdog_speaks_once() {
    let mut w = StudioTickWatchdog::default();
    start_studio_tick_watchdog(&mut w, Some(f(5.0)));
    note_studio_draw_pending(&mut w, true, 1_000);
    assert_eq!(w.watchdog_round(3_000, TIMEOUT), Round::Wait);
    assert_eq!(
        w.watchdog_round(6_000, TIMEOUT),
        Round::Report { verdict: Verdict::NeverTicked, waited_ms: 5_000, last_tick_ms: 0, ticks: 0 }
    );
    assert_eq!(w.watchdog_round(7_000, TIMEOUT), Round::Retire);
}

#[test]
fn reports_name_the_cause() {
    let never = report(Verdict::NeverTicked, 0, "5.0", 0, "0.0");
    assert!(never.starts_with(
        "makepad embedding: nothing has been drawn for 5.0s and this app has NEVER received a \
         StudioToApp::Tick. In --stdin-loop (studio/embedded) mode the ONLY place"
    ));
    assert!(never.ends_with("Set MAKEPAD_STUDIO_TICK_TIMEOUT_S=0 to silence this check."));
    let stopped = report(Verdict::TicksStopped, 7, "5.0", 900, "9.1");
    assert!(stopped.starts_with(
        "makepad embedding: nothing has been drawn for 5.0s and the last StudioToApp::Tick \
         arrived 9.1s ago (7 received in total), and the ticks then stopped. In --stdin-loop"
    ));
    let lost = report(Verdict::TicksButNeverDrew, 414, "6.9", 99_000, "0.0");
    assert!(lost.starts_with(
        "makepad embedding: 414 StudioToApp::Tick received over 6.9s and this app has never \
         DRAWN once"
    ));
    assert!(lost.contains("`tools/studio_embed_host --ticks=always [--bootstrap-once]`"));
    let stuck = report(Verdict::TicksButFrameStuck, 12, "8.0", 99_000, "0.0");
    assert!(stuck.starts_with(
        "makepad embedding: 12 StudioToApp::Tick received and nothing has been drawn for 8.0s, \
         and this app HAS drawn before."
    ));
}
