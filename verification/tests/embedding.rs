use makepad_platform::double::F64;
use makepad_platform::embed_host::{
    aux_channel_path, child_args, frame_micros, listen_address, parse_args, studio_address, ArgError,
    ClockStep, FromApp, Host, TickPolicy, ToApp,
};
use makepad_platform::embed_probe::{App, ProbeEvent};
use makepad_platform::sonda_teclado_movil::SondaTecladoMovil;
use std::cell::RefCell;

fn strings(args: &[&str]) -> Vec<String> {
    args.iter().map(|a| a.to_string()).collect()
}

fn f(v: f64) -> F64 {
    F64 { bits: v.to_bits() }
}

fn geometry(window_id: usize, width: f64, height: f64) -> ToApp {
    ToApp::WindowGeomChange {
        dpi_factor: f(1.0),
        window_id,
        left: f(0.0),
        top: f(0.0),
        width: f(width),
        height: f(height),
    }
}

#[test]
fn policies_have_names() {
    assert_eq!(TickPolicy::parse("always"), Some(TickPolicy::Always));
    assert_eq!(TickPolicy::parse("raf"), Some(TickPolicy::OnRequestAnimationFrame));
    assert_eq!(TickPolicy::parse("on-raf"), Some(TickPolicy::OnRequestAnimationFrame));
    assert_eq!(TickPolicy::parse("none"), Some(TickPolicy::Never));
    assert_eq!(TickPolicy::parse("never"), Some(TickPolicy::Never));
    assert_eq!(TickPolicy::parse("Always"), None);
    for p in [TickPolicy::Always, TickPolicy::OnRequestAnimationFrame, TickPolicy::Never] {
        assert_eq!(p.name(), format!("{p:?}"));
    }
}

#[test]
fn a_command_line_is_read() {
    let a = parse_args(&strings(&["--", "./app"])).unwrap();
    assert_eq!(a.child, vec!["./app"]);
    let o = a.options;
    assert_eq!((o.ticks, o.port, o.seconds, o.host_fps), (TickPolicy::Always, 8099, 6, 60));
    assert_eq!((o.stop_ticks_after, o.bootstrap_once), (None, false));
    let a = parse_args(&strings(&[
        "--ticks=raf",
        "--port=1",
        "--ticks=none",
        "--seconds=0",
        "--fps=0",
        "--stop-ticks-after=3",
        "--bootstrap-once",
        "--",
        "./app",
        "--",
        "--port=x",
    ]))
    .unwrap();
    assert_eq!(a.child, vec!["./app", "--", "--port=x"]);
    let o = a.options;
    assert_eq!((o.ticks, o.port, o.seconds, o.host_fps), (TickPolicy::Never, 1, 0, 1));
    assert_eq!((o.stop_ticks_after, o.bootstrap_once), (Some(3), true));
}

#[test]
fn what_cannot_be_read_is_refused() {
    let refuse = |args: &[&str]| {
        let args = strings(args);
        let e = parse_args(&args).unwrap_err();
        (e, e.message(&args))
    };
    assert_eq!(
        refuse(&["--ticks=often", "--", "a"]),
        (ArgError::BadTicks { at: 0 }, "bad --ticks=often".to_string())
    );
    assert_eq!(
        refuse(&["--port=65536"]),
        (ArgError::BadPort { at: 0 }, "bad --port".to_string())
    );
    assert_eq!(
        refuse(&["--port=1", "--seconds="]),
        (ArgError::BadSeconds { at: 1 }, "bad --seconds".to_string())
    );
    assert_eq!(refuse(&["--fps=-1"]), (ArgError::BadFps { at: 0 }, "bad --fps".to_string()));
    assert_eq!(
        refuse(&["--stop-ticks-after=x"]),
        (ArgError::BadStopTicksAfter { at: 0 }, "bad --stop-ticks-after".to_string())
    );
    assert_eq!(
        refuse(&["--bootstrap-once", "-v", "--", "a"]),
        (ArgError::Unknown { at: 1 }, "unknown argument -v".to_string())
    );
    assert_eq!(
        refuse(&["--port=1"]),
        (ArgError::NoChild, "pass the child binary after `--`".to_string())
    );
    assert_eq!(refuse(&["--"]).0, ArgError::NoChild);
    assert_eq!(refuse(&[]).0, ArgError::NoChild);
}

#[test]
fn addresses_and_arguments() {
    assert_eq!(listen_address(8099), "127.0.0.1:8099");
    assert_eq!(
        studio_address(8099),
        "http://127.0.0.1:8099/app?build=1&crate=makepad-studio-embed-probe"
    );
    assert_eq!(aux_channel_path(8099, "1"), "/tmp/makepad-stdin-aux-8099-1.sock");
    assert_eq!(child_args(&strings(&["app", "-x"])), vec!["-x", "--stdin-loop"]);
    assert_eq!(frame_micros(60), 16666);
}

fn connected() -> Host {
    let mut h = Host::default();
    h.connected();
    h.handle_app_msg(FromApp::CreateWindow { window_id: 4 });
    h
}

fn frame(h: &mut Host, policy: TickPolicy, once: bool) -> Vec<ToApp> {
    match h.clock_step(policy, once, false) {
        ClockStep::Frame { msgs } => msgs,
        other => panic!("{other:?}"),
    }
}

#[test]
fn the_handshake_is_repeated_until_something_is_drawn() {
    let mut h = connected();
    let mut greeted = Vec::new();
    for n in 1..=46 {
        let msgs = frame(&mut h, TickPolicy::Always, false);
        assert_eq!(msgs.last(), Some(&ToApp::Tick));
        if msgs.len() > 1 {
            assert_eq!(msgs, vec![geometry(4, 420.0, 220.0), ToApp::Tick]);
            greeted.push(n);
        }
    }
    assert_eq!(greeted, vec![1, 15, 30, 45]);
    h.handle_app_msg(FromApp::LogItem { message: "PROBE-DRAW 1".to_string() });
    for _ in 0..30 {
        assert_eq!(frame(&mut h, TickPolicy::Always, false), vec![ToApp::Tick]);
    }
    assert_eq!(h.bootstraps_sent, 46);
    let mut once = connected();
    assert_eq!(frame(&mut once, TickPolicy::Always, true).len(), 2);
    for _ in 0..60 {
        assert_eq!(frame(&mut once, TickPolicy::Always, true), vec![ToApp::Tick]);
    }
}

#[test]
fn a_reply_only_host_ticks_as_often_as_it_is_asked() {
    let mut h = connected();
    assert!(frame(&mut h, TickPolicy::OnRequestAnimationFrame, false).is_empty());
    h.handle_app_msg(FromApp::RequestAnimationFrame);
    let told = h.handle_app_msg(FromApp::RequestAnimationFrame);
    assert_eq!(told.line, "[app] RequestAnimationFrame (pending=2)");
    for _ in 0..2 {
        assert_eq!(frame(&mut h, TickPolicy::OnRequestAnimationFrame, false), vec![ToApp::Tick]);
    }
    assert!(frame(&mut h, TickPolicy::OnRequestAnimationFrame, false).is_empty());
    assert!(frame(&mut h, TickPolicy::Never, false).is_empty());
}

#[test]
fn a_host_that_stops_sends_one_resize() {
    let mut h = connected();
    match h.clock_step(TickPolicy::Always, false, true) {
        ClockStep::Nudge { msgs } => assert_eq!(msgs, vec![geometry(4, 640.0, 480.0)]),
        other => panic!("{other:?}"),
    }
    assert!(matches!(h.clock_step(TickPolicy::Always, false, true), ClockStep::Idle));
    let mut gone = connected();
    gone.disconnected();
    assert!(matches!(gone.clock_step(TickPolicy::Always, false, false), ClockStep::Idle));
}

#[test]
fn ticks_count_when_they_are_on_the_wire() {
    let wire: RefCell<Vec<Vec<ToApp>>> = RefCell::new(Vec::new());
    let deliver = |m: Vec<ToApp>| {
        wire.borrow_mut().push(m);
        true
    };
    let mut h = Host::default();
    h.send(vec![ToApp::Tick], &deliver);
    assert_eq!(h.ticks_sent, 0);
    h.connected();
    h.send(vec![], &deliver);
    assert!(wire.borrow().is_empty());
    h.send(vec![geometry(1, 1.0, 1.0), ToApp::Tick, ToApp::Tick], &deliver);
    assert_eq!(h.ticks_sent, 2);
    h.send(vec![ToApp::Tick], &|_m| false);
    assert_eq!(h.ticks_sent, 2);
    h.disconnected();
    h.send(vec![ToApp::Tick], &deliver);
    assert_eq!(h.ticks_sent, 3);
    assert_eq!(wire.borrow().len(), 2);
    assert_eq!(
        h.result_line(TickPolicy::Always),
        "[host] RESULT policy=Always ticks_sent=3 draws_seen=0 bootstraps=0"
    );
}

#[test]
fn what_an_application_says_is_printed() {
    let mut h = Host::default();
    let mut say = |m| {
        let r = h.handle_app_msg(m);
        (r.line, r.reply.len())
    };
    assert_eq!(say(FromApp::BeforeStartup), ("[app] BeforeStartup".to_string(), 0));
    assert_eq!(say(FromApp::AfterStartup), ("[app] AfterStartup".to_string(), 0));
    assert_eq!(say(FromApp::CreateWindow { window_id: 2 }), ("[app] CreateWindow 2".to_string(), 1));
    assert_eq!(say(FromApp::CreateWindow { window_id: 0 }), ("[app] CreateWindow 0".to_string(), 2));
    assert_eq!(say(FromApp::CreateWindow { window_id: 2 }), ("[app] CreateWindow 2".to_string(), 2));
    assert_eq!(
        say(FromApp::LogItem { message: "hello \n".to_string() }),
        ("[app] log: hello".to_string(), 0)
    );
    assert_eq!(say(FromApp::DrawCompleteAndFlip), ("[app] DrawCompleteAndFlip".to_string(), 0));
    assert_eq!(
        say(FromApp::Other { description: "SetCursor(1)".to_string() }),
        ("[app] SetCursor(1)".to_string(), 0)
    );
    assert_eq!(h.windows, vec![2, 0]);
    assert_eq!(h.draws_seen, 0);
}

#[test]
fn a_probe_says_when_it_draws_and_a_host_counts_it() {
    let mut probe = App::default();
    let mut h = Host::default();
    let start = probe.handle_event(ProbeEvent::Startup).unwrap();
    assert_eq!(start, "PROBE-STARTUP 1");
    h.handle_app_msg(FromApp::LogItem { message: start });
    assert_eq!(h.draws_seen, 0);
    for n in 1..=12 {
        let line = probe.handle_event(ProbeEvent::Draw).unwrap();
        assert_eq!(line, format!("PROBE-DRAW {n}"));
        h.handle_app_msg(FromApp::LogItem { message: line });
        assert_eq!(h.draws_seen, n);
    }
    assert_eq!(probe.handle_event(ProbeEvent::Other), None);
    assert_eq!(probe, App { draws: 12, startups: 1 });
}

#[test]
fn what_is_typed_is_echoed() {
    let mut sonda = SondaTecladoMovil::default();
    assert_eq!(sonda.eco, "(sin escribir nada todavia)");
    assert!(!sonda.handle_actions(None));
    assert_eq!(sonda.eco, "(sin escribir nada todavia)");
    assert!(sonda.handle_actions(Some("hola")));
    assert_eq!(sonda.eco, "escrito: «hola»");
    assert!(sonda.handle_actions(Some("")));
    assert_eq!(sonda.eco, "escrito: «»");
}
