//! A small host for an embedded application, and the ways to host one wrongly.
//!
//! An embedded application has no event loop of its own: the only place where it draws
//! is its answer to a tick, so the host owns the frame clock. A host that ticks only in
//! reply to a request for an animation frame never starts the cycle, because the
//! application asks for one only while it answers a tick. And ticks alone are not
//! enough: the geometry of the windows is a handshake that can be lost while the
//! application starts, so a host repeats it until something is drawn.
//!
//! The host here can be told which kind of host to be, on its command line:
//!
//! | option | behaviour |
//! |---|---|
//! | `--ticks=always` | a tick on every frame of the host |
//! | `--ticks=raf` | a tick only in reply to a request for an animation frame |
//! | `--ticks=none` | no tick |
//! | `--bootstrap-once` | ticks as told, but the handshake is sent a single time |
//! | `--stop-ticks-after=` | the ticks stop after so many seconds |
//! | `--port=`, `--seconds=`, `--fps=` | where it listens, how long it runs, its frame rate |
//!
//! Behind `--` stands the application to start, with its own arguments.

use crate::double;
use crate::double::F64;
use crate::text;
use vstd::prelude::*;

verus! {

/// What an application logs whenever it draws.
pub const PROBE_DRAW: &'static str = "PROBE-DRAW";

/// How many frames pass before the handshake is sent again.
pub const BOOTSTRAP_EVERY: u64 = 15;

/// How the host decides when to tick.
#[derive(Clone, Copy, Debug, PartialEq, Eq, Structural)]
pub enum TickPolicy {
    /// On every frame of the host, whether or not the application asked.
    Always,
    /// Only in reply to a request for an animation frame.
    OnRequestAnimationFrame,
    /// Not at all.
    Never,
}

/// The policy that a word stands for.
pub open spec fn policy_of(s: Seq<char>) -> Option<TickPolicy> {
    if s == "always"@ {
        Some(TickPolicy::Always)
    } else if s == "raf"@ || s == "on-raf"@ {
        Some(TickPolicy::OnRequestAnimationFrame)
    } else if s == "none"@ || s == "never"@ {
        Some(TickPolicy::Never)
    } else {
        None
    }
}

impl TickPolicy {
    pub fn parse(s: &str) -> (r: Option<TickPolicy>)
        ensures
            r == policy_of(s@),
    {
        if text::same_text(s, "always") {
            Some(TickPolicy::Always)
        } else if text::same_text(s, "raf") || text::same_text(s, "on-raf") {
            Some(TickPolicy::OnRequestAnimationFrame)
        } else if text::same_text(s, "none") || text::same_text(s, "never") {
            Some(TickPolicy::Never)
        } else {
            None
        }
    }

    /// The name of the policy.
    pub open spec fn name_text(self) -> Seq<char> {
        match self {
            TickPolicy::Always => "Always"@,
            TickPolicy::OnRequestAnimationFrame => "OnRequestAnimationFrame"@,
            TickPolicy::Never => "Never"@,
        }
    }

    pub fn name(self) -> (r: &'static str)
        ensures
            r@ == self.name_text(),
    {
        match self {
            TickPolicy::Always => "Always",
            TickPolicy::OnRequestAnimationFrame => "OnRequestAnimationFrame",
            TickPolicy::Never => "Never",
        }
    }
}

/// What the options in front of `--` say.
#[derive(Clone, Copy, Debug)]
pub struct Options {
    pub ticks: TickPolicy,
    pub port: u16,
    pub seconds: u64,
    /// Frames per second of the host's clock.
    pub host_fps: u64,
    /// Stop ticking after so many seconds, as a host does that froze or parked its panel.
    pub stop_ticks_after: Option<u64>,
    /// Send the handshake a single time.
    pub bootstrap_once: bool,
}

/// The command line, read.
#[derive(Debug)]
pub struct Args {
    pub options: Options,
    /// The application to start and its arguments.
    pub child: Vec<String>,
}

/// Why a command line is refused. `at` is the place of the argument in question.
#[derive(Clone, Copy, Debug, PartialEq, Eq, Structural)]
pub enum ArgError {
    BadTicks { at: usize },
    BadPort { at: usize },
    BadSeconds { at: usize },
    BadFps { at: usize },
    BadStopTicksAfter { at: usize },
    Unknown { at: usize },
    /// No application is named behind `--`.
    NoChild,
}

/// The characters of each of the strings.
pub open spec fn texts(args: Seq<String>) -> Seq<Seq<char>> {
    Seq::new(args.len(), |i: int| args[i]@)
}

/// The options where the command line says nothing.
pub open spec fn default_options() -> Options {
    Options {
        ticks: TickPolicy::Always,
        port: 8099,
        seconds: 6,
        host_fps: 60,
        stop_ticks_after: None,
        bootstrap_once: false,
    }
}

/// What is left of `s` behind `prefix`.
pub open spec fn value_behind(s: Seq<char>, prefix: Seq<char>) -> Seq<char> {
    s.skip(prefix.len() as int)
}

/// The number behind `prefix`, if it is one up to `max`.
pub open spec fn number_behind(s: Seq<char>, prefix: Seq<char>, max: int) -> Option<nat> {
    text::unsigned_value(value_behind(s, prefix), max)
}

/// What one more option makes of the options so far.
pub open spec fn with_option(o: Options, arg: Seq<char>, at: usize) -> Result<Options, ArgError> {
    if text::starts_with(arg, "--ticks="@) {
        match policy_of(value_behind(arg, "--ticks="@)) {
            Some(p) => Ok(Options { ticks: p, ..o }),
            None => Err(ArgError::BadTicks { at }),
        }
    } else if text::starts_with(arg, "--port="@) {
        match number_behind(arg, "--port="@, u16::MAX as int) {
            Some(n) => Ok(Options { port: n as u16, ..o }),
            None => Err(ArgError::BadPort { at }),
        }
    } else if text::starts_with(arg, "--seconds="@) {
        match number_behind(arg, "--seconds="@, u64::MAX as int) {
            Some(n) => Ok(Options { seconds: n as u64, ..o }),
            None => Err(ArgError::BadSeconds { at }),
        }
    } else if text::starts_with(arg, "--fps="@) {
        match number_behind(arg, "--fps="@, u64::MAX as int) {
            Some(n) => Ok(Options { host_fps: if n == 0 { 1 } else { n as u64 }, ..o }),
            None => Err(ArgError::BadFps { at }),
        }
    } else if text::starts_with(arg, "--stop-ticks-after="@) {
        match number_behind(arg, "--stop-ticks-after="@, u64::MAX as int) {
            Some(n) => Ok(Options { stop_ticks_after: Some(n as u64), ..o }),
            None => Err(ArgError::BadStopTicksAfter { at }),
        }
    } else if arg == "--bootstrap-once"@ {
        Ok(Options { bootstrap_once: true, ..o })
    } else {
        Err(ArgError::Unknown { at })
    }
}

/// How many arguments stand in front of the first `--`.
pub open spec fn options_end(args: Seq<Seq<char>>) -> nat
    decreases args.len(),
{
    if args.len() == 0 || args[0] == "--"@ {
        0
    } else {
        1 + options_end(args.skip(1))
    }
}

/// What the first `n` arguments say as options, read from left to right: the last of
/// several that speak of one thing counts, and the first that cannot be read is refused.
pub open spec fn options_of(args: Seq<Seq<char>>, n: nat) -> Result<Options, ArgError>
    decreases n,
{
    if n == 0 {
        Ok(default_options())
    } else {
        match options_of(args, (n - 1) as nat) {
            Ok(o) => with_option(o, args[n - 1], (n - 1) as usize),
            Err(e) => Err(e),
        }
    }
}

/// What stands behind the first `--`.
pub open spec fn child_of(args: Seq<Seq<char>>) -> Seq<Seq<char>> {
    if options_end(args) < args.len() {
        args.skip(options_end(args) as int + 1)
    } else {
        Seq::empty()
    }
}

proof fn lemma_options_end(args: Seq<Seq<char>>)
    ensures
        options_end(args) <= args.len(),
        options_end(args) < args.len() ==> args[options_end(args) as int] == "--"@,
        forall|i: int| 0 <= i < options_end(args) ==> args[i] != "--"@,
    decreases args.len(),
{
    if args.len() > 0 && args[0] != "--"@ {
        lemma_options_end(args.skip(1));
        assert forall|i: int| 0 <= i < options_end(args) implies args[i] != "--"@ by {
            if i > 0 {
                assert(args[i] == args.skip(1)[i - 1]);
            }
        }
    }
}

/// The first `--` is where it is found.
proof fn lemma_first_separator(args: Seq<Seq<char>>, n: nat)
    requires
        n <= args.len(),
        n < args.len() ==> args[n as int] == "--"@,
        forall|i: int| 0 <= i < n ==> args[i] != "--"@,
    ensures
        options_end(args) == n,
{
    lemma_options_end(args);
    let e = options_end(args);
    if e < n {
        assert(args[e as int] == "--"@);
    }
    if n < e {
        assert(args[n as int] != "--"@);
    }
}

/// Reads the number behind `prefix`.
fn read_number(arg: &str, prefix: &str, max: u64) -> (r: Option<Option<u64>>)
    ensures
        r is Some <==> text::starts_with(arg@, prefix@),
        r matches Some(n) ==> match n {
            Some(v) => number_behind(arg@, prefix@, max as int) == Some(v as nat),
            None => number_behind(arg@, prefix@, max as int) is None,
        },
{
    match text::after_prefix(arg, prefix) {
        Some(v) => Some(text::parse_unsigned(&text::chars_of(v.as_str()), max)),
        None => None,
    }
}

/// Adds one option to the options so far.
pub fn add_option(o: Options, arg: &str, at: usize) -> (r: Result<Options, ArgError>)
    ensures
        r == with_option(o, arg@, at),
{
    if let Some(v) = text::after_prefix(arg, "--ticks=") {
        return match TickPolicy::parse(v.as_str()) {
            Some(ticks) => Ok(Options { ticks, ..o }),
            None => Err(ArgError::BadTicks { at }),
        };
    }
    if let Some(v) = read_number(arg, "--port=", 0xffff) {
        return match v {
            Some(n) => Ok(Options { port: n as u16, ..o }),
            None => Err(ArgError::BadPort { at }),
        };
    }
    if let Some(v) = read_number(arg, "--seconds=", u64::MAX) {
        return match v {
            Some(n) => Ok(Options { seconds: n, ..o }),
            None => Err(ArgError::BadSeconds { at }),
        };
    }
    if let Some(v) = read_number(arg, "--fps=", u64::MAX) {
        return match v {
            Some(n) => Ok(Options { host_fps: if n == 0 { 1 } else { n }, ..o }),
            None => Err(ArgError::BadFps { at }),
        };
    }
    if let Some(v) = read_number(arg, "--stop-ticks-after=", u64::MAX) {
        return match v {
            Some(n) => Ok(Options { stop_ticks_after: Some(n), ..o }),
            None => Err(ArgError::BadStopTicksAfter { at }),
        };
    }
    if text::same_text(arg, "--bootstrap-once") {
        return Ok(Options { bootstrap_once: true, ..o });
    }
    Err(ArgError::Unknown { at })
}

/// Reads the command line, which does not hold the program's own name.
pub fn parse_args(args: &Vec<String>) -> (r: Result<Args, ArgError>)
    ensures
        match options_of(texts(args@), options_end(texts(args@))) {
            Ok(o) => if child_of(texts(args@)).len() == 0 {
                r == Err::<Args, ArgError>(ArgError::NoChild)
            } else {
                &&& r is Ok
                &&& r->Ok_0.options == o
                &&& texts(r->Ok_0.child@) == child_of(texts(args@))
            },
            Err(e) => r == Err::<Args, ArgError>(e),
        },
        r matches Ok(a) ==> a.options.host_fps >= 1 && a.child@.len() > 0,
{
    let ghost all = texts(args@);
    let n: usize = args.len();
    let mut options = Options {
        ticks: TickPolicy::Always,
        port: 8099,
        seconds: 6,
        host_fps: 60,
        stop_ticks_after: None,
        bootstrap_once: false,
    };
    let mut at: usize = 0;
    let mut separated = false;
    while at < n && !separated
        invariant
            n == args@.len(),
            all == texts(args@),
            at <= n,
            separated ==> at < n && all[at as int] == "--"@,
            forall|i: int| 0 <= i < at ==> all[i] != "--"@,
            options_of(all, at as nat) == Ok::<Options, ArgError>(options),
            options.host_fps >= 1,
        decreases n - at + (if separated { 0int } else { 1 }),
    {
        assert(all[at as int] == args@[at as int]@);
        if text::same_text(args[at].as_str(), "--") {
            separated = true;
        } else {
            match add_option(options, args[at].as_str(), at) {
                Ok(o) => {
                    options = o;
                },
                Err(e) => {
                    proof {
                        lemma_refused(all, at as nat, e);
                    }
                    return Err(e);
                },
            }
            at = at + 1;
        }
    }
    proof {
        lemma_first_separator(all, at as nat);
    }
    let mut child: Vec<String> = Vec::new();
    if separated {
        let mut i: usize = at + 1;
        while i < n
            invariant
                n == args@.len(),
                all == texts(args@),
                at < i <= n,
                texts(child@) == all.subrange(at + 1, i as int),
            decreases n - i,
        {
            let ghost before = child@;
            child.push(text::owned(args[i].as_str()));
            assert(texts(child@) == texts(before).push(all[i as int]));
            assert(all.subrange(at + 1, i + 1) == all.subrange(at + 1, i as int).push(all[i as int]));
            i = i + 1;
        }
        assert(all.subrange(at + 1, n as int) == all.skip(at + 1));
    }
    assert(texts(child@) == child_of(all));
    if child.len() == 0 {
        return Err(ArgError::NoChild);
    }
    Ok(Args { options, child })
}

/// The argument that is refused stands in front of the first `--`, and nothing behind it
/// changes that.
proof fn lemma_refused(args: Seq<Seq<char>>, at: nat, e: ArgError)
    requires
        at < args.len(),
        args[at as int] != "--"@,
        forall|i: int| 0 <= i < at ==> args[i] != "--"@,
        options_of(args, at + 1) == Err::<Options, ArgError>(e),
    ensures
        options_of(args, options_end(args)) == Err::<Options, ArgError>(e),
{
    lemma_options_end(args);
    if options_end(args) <= at {
        assert(args[options_end(args) as int] == "--"@);
    }
    lemma_stays_refused(args, at + 1, options_end(args), e);
}

proof fn lemma_stays_refused(args: Seq<Seq<char>>, n: nat, m: nat, e: ArgError)
    requires
        n <= m,
        options_of(args, n) == Err::<Options, ArgError>(e),
    ensures
        options_of(args, m) == Err::<Options, ArgError>(e),
    decreases m,
{
    if n < m {
        lemma_stays_refused(args, n, (m - 1) as nat, e);
    }
}

impl ArgError {
    /// The place of the argument in question, if there is one.
    pub open spec fn place(self) -> Option<usize> {
        match self {
            ArgError::BadTicks { at } => Some(at),
            ArgError::BadPort { at } => Some(at),
            ArgError::BadSeconds { at } => Some(at),
            ArgError::BadFps { at } => Some(at),
            ArgError::BadStopTicksAfter { at } => Some(at),
            ArgError::Unknown { at } => Some(at),
            ArgError::NoChild => None,
        }
    }

    pub open spec fn message_text(self, args: Seq<Seq<char>>) -> Seq<char> {
        match self {
            ArgError::BadTicks { at } => "bad "@ + args[at as int],
            ArgError::BadPort { at } => "bad --port"@,
            ArgError::BadSeconds { at } => "bad --seconds"@,
            ArgError::BadFps { at } => "bad --fps"@,
            ArgError::BadStopTicksAfter { at } => "bad --stop-ticks-after"@,
            ArgError::Unknown { at } => "unknown argument "@ + args[at as int],
            ArgError::NoChild => "pass the child binary after `--`"@,
        }
    }

    /// The error in words.
    pub fn message(self, args: &Vec<String>) -> (r: String)
        requires
            self.place() matches Some(at) ==> at < args@.len(),
        ensures
            r@ == self.message_text(texts(args@)),
    {
        match self {
            ArgError::BadTicks { at } => {
                let mut s = text::owned("bad ");
                text::append_text(&mut s, args[at].as_str());
                s
            },
            ArgError::BadPort { at: _ } => text::owned("bad --port"),
            ArgError::BadSeconds { at: _ } => text::owned("bad --seconds"),
            ArgError::BadFps { at: _ } => text::owned("bad --fps"),
            ArgError::BadStopTicksAfter { at: _ } => text::owned("bad --stop-ticks-after"),
            ArgError::Unknown { at } => {
                let mut s = text::owned("unknown argument ");
                text::append_text(&mut s, args[at].as_str());
                s
            },
            ArgError::NoChild => text::owned("pass the child binary after `--`"),
        }
    }
}

/// What the host tells the application.
#[derive(Clone, Copy, Debug, PartialEq, Eq, Structural)]
pub enum ToApp {
    /// The frame clock.
    Tick,
    /// A window has this geometry now.
    WindowGeomChange {
        dpi_factor: F64,
        window_id: usize,
        left: F64,
        top: F64,
        width: F64,
        height: F64,
    },
}

/// What the application tells the host.
#[derive(Debug)]
pub enum FromApp {
    BeforeStartup,
    AfterStartup,
    CreateWindow { window_id: usize },
    RequestAnimationFrame,
    LogItem { message: String },
    DrawCompleteAndFlip,
    /// Anything else, by the text that describes it.
    Other { description: String },
}

/// What the host keeps of the application.
#[derive(Debug)]
pub struct Host {
    /// An application has connected at some time: there is somewhere to send to.
    pub has_channel: bool,
    /// The windows that the application asked for, in the order in which it asked.
    pub windows: Vec<usize>,
    /// Requests for an animation frame that are not answered yet.
    pub pending_raf: u64,
    /// Ticks that were put on the wire. They are counted where they are sent: a count
    /// inside of the application cannot tell ticks that were not sent from ticks that
    /// were lost.
    pub ticks_sent: u64,
    /// Frames that the application said it has drawn.
    pub draws_seen: u64,
    /// Frames of the host that went by while nothing was drawn yet.
    pub bootstraps_sent: u64,
    /// The application is connected.
    pub app_connected: bool,
    /// The resize that follows the end of the ticks was sent.
    pub nudged: bool,
}

/// What a [`Host`] holds.
pub struct HostView {
    pub has_channel: bool,
    pub windows: Seq<usize>,
    pub pending_raf: nat,
    pub ticks_sent: nat,
    pub draws_seen: nat,
    pub bootstraps_sent: nat,
    pub app_connected: bool,
    pub nudged: bool,
}

impl View for Host {
    type V = HostView;

    open spec fn view(&self) -> HostView {
        HostView {
            has_channel: self.has_channel,
            windows: self.windows@,
            pending_raf: self.pending_raf as nat,
            ticks_sent: self.ticks_sent as nat,
            draws_seen: self.draws_seen as nat,
            bootstraps_sent: self.bootstraps_sent as nat,
            app_connected: self.app_connected,
            nudged: self.nudged,
        }
    }
}

/// A host that nobody has connected to.
pub open spec fn new_host() -> HostView {
    HostView {
        has_channel: false,
        windows: Seq::empty(),
        pending_raf: 0,
        ticks_sent: 0,
        draws_seen: 0,
        bootstraps_sent: 0,
        app_connected: false,
        nudged: false,
    }
}

/// The message that gives a window its size, at the origin and unscaled.
pub open spec fn geometry(window_id: usize, width: u64, height: u64) -> ToApp {
    ToApp::WindowGeomChange {
        dpi_factor: double::of_bits(double::ONE_BITS),
        window_id,
        left: double::of_bits(0),
        top: double::of_bits(0),
        width: double::of_bits(width),
        height: double::of_bits(height),
    }
}

/// The geometry of every window, in the order in which they were asked for.
pub open spec fn geometries(windows: Seq<usize>, width: u64, height: u64) -> Seq<ToApp> {
    Seq::new(windows.len(), |i: int| geometry(windows[i], width, height))
}

/// The handshake: every window is 420 wide and 220 high.
pub open spec fn handshake(windows: Seq<usize>) -> Seq<ToApp> {
    geometries(windows, double::N420_BITS, double::N220_BITS)
}

/// How many of the messages are ticks.
pub open spec fn ticks_in(msgs: Seq<ToApp>) -> nat
    decreases msgs.len(),
{
    if msgs.len() == 0 {
        0
    } else {
        ticks_in(msgs.drop_last()) + (if msgs.last() == ToApp::Tick { 1nat } else { 0nat })
    }
}

/// Whether the handshake goes out on the frame with this number: on the first, and then
/// again and again unless it is to be sent once.
pub open spec fn handshake_due(frame: nat, once: bool) -> bool {
    frame == 1 || (!once && frame % (BOOTSTRAP_EVERY as nat) == 0)
}

impl HostView {
    /// Nothing was drawn yet, and the host does what it can about that.
    pub open spec fn starting(self, policy: TickPolicy) -> bool {
        self.draws_seen == 0 && policy == TickPolicy::Always
    }

    /// Whether the next frame carries a tick.
    pub open spec fn tick_due(self, policy: TickPolicy) -> bool {
        match policy {
            TickPolicy::Always => true,
            TickPolicy::OnRequestAnimationFrame => self.pending_raf > 0,
            TickPolicy::Never => false,
        }
    }

    /// Whether the next frame carries the handshake.
    pub open spec fn greets(self, policy: TickPolicy, once: bool) -> bool {
        self.starting(policy) && handshake_due(self.bootstraps_sent + 1, once)
    }

    /// What the next frame sends.
    pub open spec fn frame_messages(self, policy: TickPolicy, once: bool) -> Seq<ToApp> {
        let greeting = if self.greets(policy, once) {
            handshake(self.windows)
        } else {
            Seq::empty()
        };
        if self.tick_due(policy) {
            greeting.push(ToApp::Tick)
        } else {
            greeting
        }
    }

    /// What the next frame leaves behind, apart from what is counted when it is sent.
    pub open spec fn after_frame(self, policy: TickPolicy) -> HostView {
        HostView {
            bootstraps_sent: if self.starting(policy) {
                self.bootstraps_sent + 1
            } else {
                self.bootstraps_sent
            },
            pending_raf: if policy == TickPolicy::OnRequestAnimationFrame && self.pending_raf > 0 {
                (self.pending_raf - 1) as nat
            } else {
                self.pending_raf
            },
            ..self
        }
    }

    /// What sending leaves behind: ticks count once they are on the wire.
    pub open spec fn after_sending(self, msgs: Seq<ToApp>, delivered: bool) -> HostView {
        HostView {
            ticks_sent: if delivered {
                self.ticks_sent + ticks_in(msgs)
            } else {
                self.ticks_sent
            },
            ..self
        }
    }

    /// What a message from the application leaves behind.
    pub open spec fn after_message(self, msg: FromApp) -> HostView {
        match msg {
            FromApp::CreateWindow { window_id } => if self.windows.contains(window_id) {
                self
            } else {
                HostView { windows: self.windows.push(window_id), ..self }
            },
            FromApp::RequestAnimationFrame => HostView {
                pending_raf: self.pending_raf + 1,
                ..self
            },
            FromApp::LogItem { message } => if text::occurs(message@, PROBE_DRAW@) {
                HostView { draws_seen: self.draws_seen + 1, ..self }
            } else {
                self
            },
            _ => self,
        }
    }

    /// The line that is printed when the message has left the host in this state.
    pub open spec fn line(self, msg: FromApp) -> Seq<char> {
        match msg {
            FromApp::BeforeStartup => "[app] BeforeStartup"@,
            FromApp::AfterStartup => "[app] AfterStartup"@,
            FromApp::CreateWindow { window_id } => "[app] CreateWindow "@ + text::dec_text(
                window_id as nat,
            ),
            FromApp::RequestAnimationFrame => "[app] RequestAnimationFrame (pending="@
                + text::dec_text(self.pending_raf) + ")"@,
            FromApp::LogItem { message } => "[app] log: "@ + text::without_trailing(message@),
            FromApp::DrawCompleteAndFlip => "[app] DrawCompleteAndFlip"@,
            FromApp::Other { description } => "[app] "@ + description@,
        }
    }

    /// No window is listed twice.
    pub open spec fn sound(self) -> bool {
        self.windows.no_duplicates()
    }
}

/// What the frame clock of the host does.
#[derive(Debug)]
pub enum ClockStep {
    /// Nothing.
    Idle,
    /// The ticks have stopped: send these, which give every window another size, so that
    /// the application waits for a frame that will not come.
    Nudge { msgs: Vec<ToApp> },
    /// Send these, if there are any.
    Frame { msgs: Vec<ToApp> },
}

/// What becomes of a message from the application.
#[derive(Debug)]
pub struct Handled {
    /// The line to print.
    pub line: String,
    /// What to send back, if anything.
    pub reply: Vec<ToApp>,
}

impl Default for Host {
    fn default() -> (r: Host)
        ensures
            r@ == new_host(),
            r@.sound(),
    {
        Host {
            has_channel: false,
            windows: Vec::new(),
            pending_raf: 0,
            ticks_sent: 0,
            draws_seen: 0,
            bootstraps_sent: 0,
            app_connected: false,
            nudged: false,
        }
    }
}

/// Counts the ticks.
fn count_ticks(msgs: &Vec<ToApp>) -> (r: usize)
    ensures
        r == ticks_in(msgs@),
        r <= msgs@.len(),
{
    let n: usize = msgs.len();
    let mut count: usize = 0;
    let mut i: usize = 0;
    assert(msgs@.take(0).len() == 0);
    while i < n
        invariant
            i <= n == msgs@.len(),
            count <= i,
            count == ticks_in(msgs@.take(i as int)),
        decreases n - i,
    {
        assert(msgs@.take(i + 1).drop_last() == msgs@.take(i as int));
        match msgs[i] {
            ToApp::Tick => {
                count = count + 1;
            },
            _ => {},
        }
        i = i + 1;
    }
    assert(msgs@.take(n as int) == msgs@);
    count
}

impl Host {
    /// An application has connected.
    pub fn connected(&mut self)
        ensures
            final(self)@ == (HostView { has_channel: true, app_connected: true, ..old(self)@ }),
    {
        self.has_channel = true;
        self.app_connected = true;
    }

    /// The application has gone. What is sent to it goes nowhere, but the host may try.
    pub fn disconnected(&mut self)
        ensures
            final(self)@ == (HostView { app_connected: false, ..old(self)@ }),
    {
        self.app_connected = false;
    }

    /// Sends messages. `deliver` puts them on the wire and says whether that worked; it is
    /// called where there is something to send and somewhere to send it to.
    pub fn send<D: Fn(Vec<ToApp>) -> bool>(&mut self, msgs: Vec<ToApp>, deliver: &D)
        requires
            old(self)@.ticks_sent + ticks_in(msgs@) <= u64::MAX,
            call_requires(*deliver, (msgs,)),
        ensures
            if msgs@.len() == 0 || !old(self)@.has_channel {
                final(self)@ == old(self)@
            } else {
                exists|delivered: bool|
                    call_ensures(*deliver, (msgs,), delivered) && final(self)@
                        == #[trigger] old(self)@.after_sending(msgs@, delivered)
            },
    {
        if msgs.len() == 0 || !self.has_channel {
            return;
        }
        let ticks: usize = count_ticks(&msgs);
        let delivered = deliver(msgs);
        if delivered {
            self.ticks_sent = self.ticks_sent + ticks as u64;
        }
        assert(self@ == old(self)@.after_sending(msgs@, delivered));
    }

    /// The size message for every window.
    fn sizes(&self, width: u64, height: u64) -> (r: Vec<ToApp>)
        ensures
            r@ == geometries(self@.windows, width, height),
    {
        let n: usize = self.windows.len();
        let mut r: Vec<ToApp> = Vec::new();
        let mut i: usize = 0;
        while i < n
            invariant
                i <= n == self.windows@.len(),
                r@ == geometries(self.windows@, width, height).take(i as int),
            decreases n - i,
        {
            let all = ToApp::WindowGeomChange {
                dpi_factor: F64 { bits: double::ONE_BITS },
                window_id: self.windows[i],
                left: F64 { bits: 0 },
                top: F64 { bits: 0 },
                width: F64 { bits: width },
                height: F64 { bits: height },
            };
            r.push(all);
            i = i + 1;
        }
        r
    }

    /// The handshake.
    pub fn bootstrap_msgs(&self) -> (r: Vec<ToApp>)
        ensures
            r@ == handshake(self@.windows),
    {
        self.sizes(double::N420_BITS, double::N220_BITS)
    }

    /// One step of the frame clock. `stopped` says that the ticks have been stopped.
    pub fn clock_step(&mut self, policy: TickPolicy, once: bool, stopped: bool) -> (r: ClockStep)
        requires
            old(self)@.bootstraps_sent < u64::MAX,
        ensures
            stopped && !old(self)@.nudged ==> {
                &&& r matches ClockStep::Nudge { msgs } && msgs@ == geometries(
                    old(self)@.windows,
                    double::N640_BITS,
                    double::N480_BITS,
                )
                &&& final(self)@ == (HostView { nudged: true, ..old(self)@ })
            },
            (if stopped {
                old(self)@.nudged
            } else {
                !old(self)@.app_connected
            }) ==> r is Idle && final(self)@ == old(self)@,
            !stopped && old(self)@.app_connected ==> {
                &&& r matches ClockStep::Frame { msgs } && msgs@ == old(self)@.frame_messages(
                    policy,
                    once,
                )
                &&& final(self)@ == old(self)@.after_frame(policy)
            },
    {
        if stopped {
            if self.nudged {
                return ClockStep::Idle;
            }
            self.nudged = true;
            return ClockStep::Nudge { msgs: self.sizes(double::N640_BITS, double::N480_BITS) };
        }
        if !self.app_connected {
            return ClockStep::Idle;
        }
        let mut msgs: Vec<ToApp> = Vec::new();
        if self.draws_seen == 0 && policy == TickPolicy::Always {
            self.bootstraps_sent = self.bootstraps_sent + 1;
            let due = if once {
                self.bootstraps_sent == 1
            } else {
                self.bootstraps_sent == 1 || self.bootstraps_sent % BOOTSTRAP_EVERY == 0
            };
            if due {
                msgs = self.bootstrap_msgs();
            }
        }
        match policy {
            TickPolicy::Always => {
                msgs.push(ToApp::Tick);
            },
            TickPolicy::OnRequestAnimationFrame => {
                if self.pending_raf > 0 {
                    self.pending_raf = self.pending_raf - 1;
                    msgs.push(ToApp::Tick);
                }
            },
            TickPolicy::Never => {},
        }
        ClockStep::Frame { msgs }
    }

    /// Whether the window is listed.
    fn lists(&self, window_id: usize) -> (r: bool)
        ensures
            r == self@.windows.contains(window_id),
    {
        let n: usize = self.windows.len();
        let mut i: usize = 0;
        while i < n
            invariant
                i <= n == self.windows@.len(),
                forall|j: int| 0 <= j < i ==> self.windows@[j] != window_id,
            decreases n - i,
        {
            if self.windows[i] == window_id {
                return true;
            }
            i = i + 1;
        }
        false
    }

    /// Takes in a message of the application. A window that is asked for is answered with
    /// the handshake.
    pub fn handle_app_msg(&mut self, msg: FromApp) -> (r: Handled)
        requires
            msg is RequestAnimationFrame ==> old(self)@.pending_raf < u64::MAX,
            msg is LogItem ==> old(self)@.draws_seen < u64::MAX,
        ensures
            final(self)@ == old(self)@.after_message(msg),
            r.line@ == final(self)@.line(msg),
            r.reply@ == if msg is CreateWindow {
                handshake(final(self)@.windows)
            } else {
                Seq::<ToApp>::empty()
            },
            old(self)@.sound() ==> final(self)@.sound(),
    {
        match msg {
            FromApp::BeforeStartup => Handled {
                line: text::owned("[app] BeforeStartup"),
                reply: Vec::new(),
            },
            FromApp::AfterStartup => Handled {
                line: text::owned("[app] AfterStartup"),
                reply: Vec::new(),
            },
            FromApp::CreateWindow { window_id } => {
                let mut line = text::owned("[app] CreateWindow ");
                text::append_dec(&mut line, window_id as u64);
                if !self.lists(window_id) {
                    self.windows.push(window_id);
                }
                Handled { line, reply: self.bootstrap_msgs() }
            },
            FromApp::RequestAnimationFrame => {
                self.pending_raf = self.pending_raf + 1;
                let mut line = text::owned("[app] RequestAnimationFrame (pending=");
                text::append_dec(&mut line, self.pending_raf);
                text::append_text(&mut line, ")");
                Handled { line, reply: Vec::new() }
            },
            FromApp::LogItem { message } => {
                if text::text_occurs(message.as_str(), PROBE_DRAW) {
                    self.draws_seen = self.draws_seen + 1;
                }
                let mut line = text::owned("[app] log: ");
                text::append_text(&mut line, text::trim_end_text(message.as_str()).as_str());
                Handled { line, reply: Vec::new() }
            },
            FromApp::DrawCompleteAndFlip => Handled {
                line: text::owned("[app] DrawCompleteAndFlip"),
                reply: Vec::new(),
            },
            FromApp::Other { description } => {
                let mut line = text::owned("[app] ");
                text::append_text(&mut line, description.as_str());
                Handled { line, reply: Vec::new() }
            },
        }
    }

    /// What the host has seen, as the line that it ends with.
    pub fn result_line(&self, policy: TickPolicy) -> (r: String)
        ensures
            r@ == "[host] RESULT policy="@ + policy.name_text() + " ticks_sent="@ + text::dec_text(
                self@.ticks_sent,
            ) + " draws_seen="@ + text::dec_text(self@.draws_seen) + " bootstraps="@
                + text::dec_text(self@.bootstraps_sent),
    {
        let mut s = text::owned("[host] RESULT policy=");
        text::append_text(&mut s, policy.name());
        text::append_text(&mut s, " ticks_sent=");
        text::append_dec(&mut s, self.ticks_sent);
        text::append_text(&mut s, " draws_seen=");
        text::append_dec(&mut s, self.draws_seen);
        text::append_text(&mut s, " bootstraps=");
        text::append_dec(&mut s, self.bootstraps_sent);
        s
    }
}

/// How long a frame of the host takes, in microseconds.
pub fn frame_micros(host_fps: u64) -> (r: u64)
    requires
        host_fps >= 1,
    ensures
        r == 1_000_000u64 / host_fps,
{
    1_000_000 / host_fps
}

/// Where the host listens.
pub fn listen_address(port: u16) -> (r: String)
    ensures
        r@ == "127.0.0.1:"@ + text::dec_text(port as nat),
{
    let mut s = text::owned("127.0.0.1:");
    text::append_dec(&mut s, port as u64);
    s
}

/// Where the application finds the host.
pub fn studio_address(port: u16) -> (r: String)
    ensures
        r@ == "http://127.0.0.1:"@ + text::dec_text(port as nat)
            + "/app?build=1&crate=makepad-studio-embed-probe"@,
{
    let mut s = text::owned("http://127.0.0.1:");
    text::append_dec(&mut s, port as u64);
    text::append_text(&mut s, "/app?build=1&crate=makepad-studio-embed-probe");
    s
}

/// The socket of the auxiliary channel. An application blocks for ten seconds on every
/// change of geometry where nobody listens there.
pub fn aux_channel_path(port: u16, build_id: &str) -> (r: String)
    ensures
        r@ == "/tmp/makepad-stdin-aux-"@ + text::dec_text(port as nat) + "-"@ + build_id@
            + ".sock"@,
{
    let mut s = text::owned("/tmp/makepad-stdin-aux-");
    text::append_dec(&mut s, port as u64);
    text::append_text(&mut s, "-");
    text::append_text(&mut s, build_id);
    text::append_text(&mut s, ".sock");
    s
}

/// The arguments for the application: its own, and the one that selects the event loop
/// without a window.
pub fn child_args(child: &Vec<String>) -> (r: Vec<String>)
    requires
        child@.len() > 0,
    ensures
        texts(r@) == texts(child@).skip(1).push("--stdin-loop"@),
{
    let n: usize = child.len();
    let mut r: Vec<String> = Vec::new();
    let mut i: usize = 1;
    while i < n
        invariant
            1 <= i <= n == child@.len(),
            texts(r@) == texts(child@).subrange(1, i as int),
        decreases n - i,
    {
        let ghost before = r@;
        r.push(text::owned(child[i].as_str()));
        assert(texts(r@) == texts(before).push(texts(child@)[i as int]));
        assert(texts(child@).subrange(1, i + 1) == texts(child@).subrange(1, i as int).push(
            texts(child@)[i as int],
        ));
        i = i + 1;
    }
    let ghost before = r@;
    r.push(text::owned("--stdin-loop"));
    assert(texts(r@) == texts(before).push("--stdin-loop"@));
    assert(texts(before) == texts(child@).skip(1));
    r
}

/// A host that always ticks ends every frame with a tick, whatever the application does.
pub proof fn law_a_steady_host_ticks_on_every_frame(h: HostView, once: bool)
    ensures
        h.frame_messages(TickPolicy::Always, once).len() > 0,
        h.frame_messages(TickPolicy::Always, once).last() == ToApp::Tick,
        ticks_in(h.frame_messages(TickPolicy::Always, once)) == 1,
{
    let msgs = h.frame_messages(TickPolicy::Always, once);
    lemma_geometry_is_no_tick(h.windows, double::N420_BITS, double::N220_BITS);
    assert(ticks_in(Seq::<ToApp>::empty()) == 0);
    let greeting = if h.greets(TickPolicy::Always, once) {
        handshake(h.windows)
    } else {
        Seq::empty()
    };
    assert(msgs == greeting.push(ToApp::Tick));
    assert(msgs.drop_last() == greeting);
}

proof fn lemma_geometry_is_no_tick(windows: Seq<usize>, width: u64, height: u64)
    ensures
        ticks_in(geometries(windows, width, height)) == 0,
    decreases windows.len(),
{
    if windows.len() > 0 {
        lemma_geometry_is_no_tick(windows.drop_last(), width, height);
        assert(geometries(windows, width, height).drop_last() == geometries(
            windows.drop_last(),
            width,
            height,
        ));
    }
}

/// The state after `n` frames during which the application says nothing.
pub open spec fn after_frames(h: HostView, policy: TickPolicy, n: nat) -> HostView
    decreases n,
{
    if n == 0 {
        h
    } else {
        after_frames(h, policy, (n - 1) as nat).after_frame(policy)
    }
}

/// A host that ticks only when it is asked sends nothing for as long as the application
/// asks for nothing; and an application asks only while it answers a tick.
pub proof fn law_a_reply_only_host_never_begins(h: HostView, once: bool, n: nat)
    requires
        h.pending_raf == 0,
    ensures
        after_frames(h, TickPolicy::OnRequestAnimationFrame, n) == h,
        after_frames(h, TickPolicy::OnRequestAnimationFrame, n).frame_messages(
            TickPolicy::OnRequestAnimationFrame,
            once,
        ).len() == 0,
    decreases n,
{
    if n > 0 {
        law_a_reply_only_host_never_begins(h, once, (n - 1) as nat);
    }
}

/// A host that does not tick sends nothing on any frame.
pub proof fn law_a_silent_host_sends_nothing(h: HostView, once: bool)
    ensures
        h.frame_messages(TickPolicy::Never, once).len() == 0,
        h.after_frame(TickPolicy::Never) == h,
{
}

/// A host that answers requests sends as many ticks as were asked for, and then none.
pub proof fn law_every_request_is_answered_once(h: HostView, once: bool, n: nat)
    ensures
        after_frames(h, TickPolicy::OnRequestAnimationFrame, n).pending_raf == if n
            <= h.pending_raf {
            h.pending_raf - n
        } else {
            0
        },
        after_frames(h, TickPolicy::OnRequestAnimationFrame, n).frame_messages(
            TickPolicy::OnRequestAnimationFrame,
            once,
        ) == if n < h.pending_raf {
            seq![ToApp::Tick]
        } else {
            Seq::<ToApp>::empty()
        },
    decreases n,
{
    if n > 0 {
        law_every_request_is_answered_once(h, once, (n - 1) as nat);
    }
    assert(Seq::<ToApp>::empty().push(ToApp::Tick) == seq![ToApp::Tick]);
}

proof fn lemma_frames_are_counted(h: HostView, n: nat)
    requires
        h.draws_seen == 0,
    ensures
        after_frames(h, TickPolicy::Always, n) == (HostView {
            bootstraps_sent: h.bootstraps_sent + n,
            ..h
        }),
    decreases n,
{
    if n > 0 {
        lemma_frames_are_counted(h, (n - 1) as nat);
    }
}

/// While nothing is drawn, a steady host sends the handshake again within any fifteen
/// frames.
pub proof fn law_the_handshake_is_repeated(h: HostView, n: nat)
    requires
        h.draws_seen == 0,
    ensures
        exists|m: nat|
            n <= m < n + BOOTSTRAP_EVERY && #[trigger] after_frames(
                h,
                TickPolicy::Always,
                m,
            ).frame_messages(TickPolicy::Always, false) == handshake(h.windows).push(ToApp::Tick),
{
    let count = (h.bootstraps_sent + n) as int;
    let m = (n + 14 - count % 15) as nat;
    lemma_frames_are_counted(h, m);
    assert((h.bootstraps_sent + m + 1) % 15 == 0);
    let there = after_frames(h, TickPolicy::Always, m);
    assert(there.greets(TickPolicy::Always, false));
    assert(there.frame_messages(TickPolicy::Always, false) == handshake(h.windows).push(
        ToApp::Tick,
    ));
    assert(n <= m < n + BOOTSTRAP_EVERY);
}

/// A host that sends the handshake once sends it on the first frame and never again,
/// however long nothing is drawn: from the second frame on there are only ticks.
pub proof fn law_sent_once_is_never_repeated(h: HostView, n: nat)
    requires
        h.draws_seen == 0,
        h.bootstraps_sent == 0,
    ensures
        after_frames(h, TickPolicy::Always, n).frame_messages(TickPolicy::Always, true) == if n
            == 0 {
            handshake(h.windows).push(ToApp::Tick)
        } else {
            seq![ToApp::Tick]
        },
{
    lemma_frames_are_counted(h, n);
    assert(Seq::<ToApp>::empty().push(ToApp::Tick) == seq![ToApp::Tick]);
}

/// Once something was drawn, the handshake is not sent with a frame again.
pub proof fn law_the_handshake_ends_with_the_first_frame(h: HostView, once: bool, n: nat)
    requires
        h.draws_seen > 0,
    ensures
        after_frames(h, TickPolicy::Always, n) == h,
        h.frame_messages(TickPolicy::Always, once) == seq![ToApp::Tick],
    decreases n,
{
    if n > 0 {
        law_the_handshake_ends_with_the_first_frame(h, once, (n - 1) as nat);
    }
    assert(Seq::<ToApp>::empty().push(ToApp::Tick) == seq![ToApp::Tick]);
}

/// What stands behind `--` belongs to the application, whatever it looks like.
pub proof fn law_the_child_is_taken_as_it_stands(front: Seq<Seq<char>>, child: Seq<Seq<char>>)
    requires
        forall|i: int| 0 <= i < front.len() ==> front[i] != "--"@,
    ensures
        options_end(front.push("--"@) + child) == front.len(),
        child_of(front.push("--"@) + child) == child,
{
    let all = front.push("--"@) + child;
    assert forall|i: int| 0 <= i < front.len() implies all[i] != "--"@ by {
        assert(all[i] == front[i]);
    }
    lemma_first_separator(all, front.len());
    assert(all.skip(front.len() as int + 1) == child);
}

/// Each policy has its words, and no other word stands for one.
pub proof fn law_policies_have_their_words(s: Seq<char>)
    ensures
        policy_of("always"@) == Some(TickPolicy::Always),
        policy_of("raf"@) == Some(TickPolicy::OnRequestAnimationFrame),
        policy_of("on-raf"@) == Some(TickPolicy::OnRequestAnimationFrame),
        policy_of("none"@) == Some(TickPolicy::Never),
        policy_of("never"@) == Some(TickPolicy::Never),
        s != "always"@ && s != "raf"@ && s != "on-raf"@ && s != "none"@ && s != "never"@
            ==> policy_of(s) is None,
{
    reveal_strlit("always");
    reveal_strlit("raf");
    reveal_strlit("on-raf");
    reveal_strlit("none");
    reveal_strlit("never");
    assert("raf"@[0] == 'r');
    assert("always"@[0] == 'a');
    assert("on-raf"@[0] == 'o');
    assert("none"@[1] == 'o');
    assert("never"@[1] == 'e');
    assert("none"@.len() == 4 && "never"@.len() == 5);
}

/// A numeral behind the name of an option sets that option and leaves the others: the port,
/// as far as it is one, the seconds, the frame rate, of which zero counts as one, and when
/// the ticks stop.
pub proof fn law_an_option_sets_what_it_names(o: Options, n: nat, at: usize)
    requires
        n <= u64::MAX,
    ensures
        with_option(o, "--port="@ + text::dec_text(n), at) == if n <= 65535 {
            Ok(Options { port: n as u16, ..o })
        } else {
            Err(ArgError::BadPort { at })
        },
        with_option(o, "--seconds="@ + text::dec_text(n), at) == Ok::<Options, ArgError>(
            Options { seconds: n as u64, ..o },
        ),
        with_option(o, "--fps="@ + text::dec_text(n), at) == Ok::<Options, ArgError>(
            Options { host_fps: if n >= 1 { n as u64 } else { 1 }, ..o },
        ),
        with_option(o, "--stop-ticks-after="@ + text::dec_text(n), at) == Ok::<Options, ArgError>(
            Options { stop_ticks_after: Some(n as u64), ..o },
        ),
        with_option(o, "--bootstrap-once"@, at) == Ok::<Options, ArgError>(
            Options { bootstrap_once: true, ..o },
        ),
        with_option(o, "--ticks=always"@, at) == Ok::<Options, ArgError>(
            Options { ticks: TickPolicy::Always, ..o },
        ),
        with_option(o, "--ticks=raf"@, at) == Ok::<Options, ArgError>(
            Options { ticks: TickPolicy::OnRequestAnimationFrame, ..o },
        ),
        with_option(o, "--ticks=none"@, at) == Ok::<Options, ArgError>(
            Options { ticks: TickPolicy::Never, ..o },
        ),
{
    lemma_numbers_set_their_options(o, n, at);
    lemma_words_set_their_options(o, at);
}

#[verifier::spinoff_prover]
#[verifier::rlimit(40)]
proof fn lemma_numbers_set_their_options(o: Options, n: nat, at: usize)
    requires
        n <= u64::MAX,
    ensures
        with_option(o, "--port="@ + text::dec_text(n), at) == if n <= 65535 {
            Ok(Options { port: n as u16, ..o })
        } else {
            Err(ArgError::BadPort { at })
        },
        with_option(o, "--seconds="@ + text::dec_text(n), at) == Ok::<Options, ArgError>(
            Options { seconds: n as u64, ..o },
        ),
        with_option(o, "--fps="@ + text::dec_text(n), at) == Ok::<Options, ArgError>(
            Options { host_fps: if n >= 1 { n as u64 } else { 1 }, ..o },
        ),
        with_option(o, "--stop-ticks-after="@ + text::dec_text(n), at) == Ok::<Options, ArgError>(
            Options { stop_ticks_after: Some(n as u64), ..o },
        ),
{
    let d = text::dec_text(n);
    reveal_strlit("--ticks=");
    reveal_strlit("--port=");
    reveal_strlit("--seconds=");
    reveal_strlit("--fps=");
    reveal_strlit("--stop-ticks-after=");
    text::law_numerals_are_read(n, 65535);
    text::law_numerals_are_read(n, u64::MAX as int);
    lemma_value_is_behind("--port="@, d);
    lemma_value_is_behind("--seconds="@, d);
    lemma_value_is_behind("--fps="@, d);
    lemma_value_is_behind("--stop-ticks-after="@, d);
    lemma_begins_differently("--port="@ + d, "--ticks="@, 2);
    lemma_begins_differently("--seconds="@ + d, "--ticks="@, 2);
    lemma_begins_differently("--seconds="@ + d, "--port="@, 2);
    lemma_begins_differently("--fps="@ + d, "--ticks="@, 2);
    lemma_begins_differently("--fps="@ + d, "--port="@, 2);
    lemma_begins_differently("--fps="@ + d, "--seconds="@, 2);
    lemma_begins_differently("--stop-ticks-after="@ + d, "--ticks="@, 2);
    lemma_begins_differently("--stop-ticks-after="@ + d, "--port="@, 2);
    lemma_begins_differently("--stop-ticks-after="@ + d, "--seconds="@, 3);
    lemma_begins_differently("--stop-ticks-after="@ + d, "--fps="@, 2);
}

#[verifier::spinoff_prover]
#[verifier::rlimit(40)]
proof fn lemma_words_set_their_options(o: Options, at: usize)
    ensures
        with_option(o, "--bootstrap-once"@, at) == Ok::<Options, ArgError>(
            Options { bootstrap_once: true, ..o },
        ),
        with_option(o, "--ticks=always"@, at) == Ok::<Options, ArgError>(
            Options { ticks: TickPolicy::Always, ..o },
        ),
        with_option(o, "--ticks=raf"@, at) == Ok::<Options, ArgError>(
            Options { ticks: TickPolicy::OnRequestAnimationFrame, ..o },
        ),
        with_option(o, "--ticks=none"@, at) == Ok::<Options, ArgError>(
            Options { ticks: TickPolicy::Never, ..o },
        ),
{
    reveal_strlit("--ticks=");
    reveal_strlit("--port=");
    reveal_strlit("--seconds=");
    reveal_strlit("--fps=");
    reveal_strlit("--stop-ticks-after=");
    reveal_strlit("--bootstrap-once");
    reveal_strlit("--ticks=always");
    reveal_strlit("--ticks=raf");
    reveal_strlit("--ticks=none");
    reveal_strlit("always");
    reveal_strlit("raf");
    reveal_strlit("none");
    law_policies_have_their_words(Seq::empty());
    lemma_value_is_behind("--ticks="@, "always"@);
    lemma_value_is_behind("--ticks="@, "raf"@);
    lemma_value_is_behind("--ticks="@, "none"@);
    assert("--ticks=always"@ =~= "--ticks="@ + "always"@);
    assert("--ticks=raf"@ =~= "--ticks="@ + "raf"@);
    assert("--ticks=none"@ =~= "--ticks="@ + "none"@);
    lemma_begins_differently("--bootstrap-once"@, "--ticks="@, 2);
    lemma_begins_differently("--bootstrap-once"@, "--port="@, 2);
    lemma_begins_differently("--bootstrap-once"@, "--seconds="@, 2);
    lemma_begins_differently("--bootstrap-once"@, "--fps="@, 2);
    lemma_begins_differently("--bootstrap-once"@, "--stop-ticks-after="@, 2);
}

proof fn lemma_value_is_behind(prefix: Seq<char>, value: Seq<char>)
    ensures
        text::starts_with(prefix + value, prefix),
        value_behind(prefix + value, prefix) == value,
{
    text::law_a_beginning_is_a_beginning(prefix, prefix, value);
    assert((prefix + value).skip(prefix.len() as int) =~= value);
}

proof fn lemma_begins_differently(s: Seq<char>, prefix: Seq<char>, at: int)
    requires
        0 <= at < prefix.len(),
        at < s.len(),
        s[at] != prefix[at],
    ensures
        !text::starts_with(s, prefix),
{
    if prefix.len() <= s.len() {
        assert(s.take(prefix.len() as int)[at] == s[at]);
    }
}

/// What is no option is refused: an argument that does not begin with two hyphens, and a
/// policy or a numeral that cannot be read. The place of the argument is told.
pub proof fn law_what_is_no_option_is_refused(o: Options, arg: Seq<char>, s: Seq<char>, at: usize)
    ensures
        arg.len() < 2 || arg[0] != '-' || arg[1] != '-' ==> with_option(o, arg, at) == Err::<
            Options,
            ArgError,
        >(ArgError::Unknown { at }),
        policy_of(s) is None ==> with_option(o, "--ticks="@ + s, at) == Err::<Options, ArgError>(
            ArgError::BadTicks { at },
        ),
{
    reveal_strlit("--ticks=");
    reveal_strlit("--port=");
    reveal_strlit("--seconds=");
    reveal_strlit("--fps=");
    reveal_strlit("--stop-ticks-after=");
    reveal_strlit("--bootstrap-once");
    lemma_value_is_behind("--ticks="@, s);
    if arg.len() >= 2 && (arg[0] != '-' || arg[1] != '-') {
        let k = if arg[0] != '-' { 0int } else { 1int };
        lemma_begins_differently(arg, "--ticks="@, k);
        lemma_begins_differently(arg, "--port="@, k);
        lemma_begins_differently(arg, "--seconds="@, k);
        lemma_begins_differently(arg, "--fps="@, k);
        lemma_begins_differently(arg, "--stop-ticks-after="@, k);
        assert(arg != "--bootstrap-once"@) by {
            assert("--bootstrap-once"@[k] == '-');
        }
    }
}

/// The options end at the first pair of hyphens that stands alone, or with the arguments;
/// until something else is said, a host ticks always, sixty times a second, for six seconds,
/// at its usual port, and repeats its handshake.
pub proof fn law_options_end_at_two_hyphens(args: Seq<Seq<char>>)
    ensures
        options_end(args) <= args.len(),
        options_end(args) < args.len() ==> args[options_end(args) as int] == "--"@,
        forall|i: int| 0 <= i < options_end(args) ==> #[trigger] args[i] != "--"@,
        options_of(args, 0) matches Ok(o) && o.ticks == TickPolicy::Always && o.port == 8099
            && o.seconds == 6 && o.host_fps == 60 && o.stop_ticks_after is None
            && !o.bootstrap_once,
    decreases args.len(),
{
    if args.len() > 0 && args[0] != "--"@ {
        let rest = args.skip(1);
        law_options_end_at_two_hyphens(rest);
        if options_end(args) < args.len() {
            assert(rest[options_end(rest) as int] == args[options_end(args) as int]);
        }
        assert forall|i: int| 0 <= i < options_end(args) implies #[trigger] args[i] != "--"@ by {
            if i > 0 {
                assert(rest[i - 1] == args[i]);
            }
        }
    }
}

/// Options are taken one after the other, and the first that is refused refuses the whole.
pub proof fn law_options_are_taken_in_order(args: Seq<Seq<char>>, n: nat)
    requires
        n < usize::MAX,
    ensures
        match options_of(args, n) {
            Ok(o) => options_of(args, n + 1) == with_option(o, args[n as int], n as usize),
            Err(e) => options_of(args, n + 1) == Err::<Options, ArgError>(e),
        },
{
}

/// The handshake gives every window its geometry, in the order in which the windows came:
/// four hundred and twenty by two hundred and twenty, in the corner, at a scale of one.
pub proof fn law_the_handshake_gives_every_window_its_geometry(windows: Seq<usize>, i: int)
    requires
        0 <= i < windows.len(),
    ensures
        handshake(windows).len() == windows.len(),
        match handshake(windows)[i] {
            ToApp::WindowGeomChange { dpi_factor, window_id, left, top, width, height } => {
                &&& window_id == windows[i]
                &&& dpi_factor.bits == 0x3ff0_0000_0000_0000
                &&& left.bits == 0
                &&& top.bits == 0
                &&& width.bits == 0x407a_4000_0000_0000
                &&& height.bits == 0x406b_8000_0000_0000
            },
            _ => false,
        },
{
}

/// A frame of the host begins with the handshake, if it is due, and ends with a tick, if one
/// is due. The handshake is due in the first frame, and then in every fifteenth unless it is
/// to be sent once, as long as nothing was drawn, and where the host always ticks; a tick is
/// due always, or for a request that waits, or never.
pub proof fn law_a_frame_is_a_handshake_and_a_tick(h: HostView, policy: TickPolicy, once: bool)
    ensures
        ({
            let msgs = h.frame_messages(policy, once);
            let ticks = policy == TickPolicy::Always || (policy
                == TickPolicy::OnRequestAnimationFrame && h.pending_raf > 0);
            let greets = policy == TickPolicy::Always && h.draws_seen == 0 && (h.bootstraps_sent
                == 0 || (!once && (h.bootstraps_sent + 1) % 15 == 0));
            let n = if greets { h.windows.len() as int } else { 0 };
            &&& msgs.len() == n + if ticks { 1int } else { 0int }
            &&& greets ==> msgs.take(n) == handshake(h.windows)
            &&& ticks ==> msgs.last() == ToApp::Tick
        }),
        ({
            let after = h.after_frame(policy);
            &&& after.pending_raf == if policy == TickPolicy::OnRequestAnimationFrame
                && h.pending_raf > 0 {
                h.pending_raf - 1
            } else {
                h.pending_raf as int
            }
            &&& after.bootstraps_sent == h.bootstraps_sent + if policy == TickPolicy::Always
                && h.draws_seen == 0 {
                1int
            } else {
                0int
            }
            &&& after.windows == h.windows
            &&& after.draws_seen == h.draws_seen
            &&& after.ticks_sent == h.ticks_sent
        }),
{
    let greeting = handshake(h.windows);
    assert(greeting.push(ToApp::Tick).take(greeting.len() as int) =~= greeting);
    assert(greeting.take(greeting.len() as int) =~= greeting);
}

/// What the application says is taken over: a window that is new, a request that waits, and
/// that something was drawn, if it logs so. Nothing else changes, and nothing that it says
/// takes a window away.
pub proof fn law_what_the_application_says_is_taken_over(
    h: HostView,
    window_id: usize,
    message: String,
)
    ensures
        ({
            let made = h.after_message(FromApp::CreateWindow { window_id });
            &&& h.windows.contains(window_id) ==> made == h
            &&& !h.windows.contains(window_id) ==> made == (HostView {
                windows: h.windows.push(window_id),
                ..h
            })
        }),
        h.after_message(FromApp::RequestAnimationFrame) == (HostView {
            pending_raf: h.pending_raf + 1,
            ..h
        }),
        text::occurs(message@, "PROBE-DRAW"@) ==> h.after_message(FromApp::LogItem { message }) == (
        HostView { draws_seen: h.draws_seen + 1, ..h }),
        !text::occurs(message@, "PROBE-DRAW"@) ==> h.after_message(FromApp::LogItem { message })
            == h,
        h.after_message(FromApp::BeforeStartup) == h,
        h.after_message(FromApp::AfterStartup) == h,
        h.after_message(FromApp::DrawCompleteAndFlip) == h,
{
}

/// Ticks count as sent when they are delivered, each once.
pub proof fn law_delivered_ticks_are_counted(h: HostView, msgs: Seq<ToApp>, more: Seq<ToApp>)
    ensures
        ticks_in(msgs + more) == ticks_in(msgs) + ticks_in(more),
        ticks_in(seq![ToApp::Tick]) == 1,
        h.after_sending(msgs, true).ticks_sent == h.ticks_sent + ticks_in(msgs),
        h.after_sending(msgs, false) == h,
        h.after_sending(msgs, true).windows == h.windows,
        h.after_sending(msgs, true).pending_raf == h.pending_raf,
    decreases more.len(),
{
    reveal_with_fuel(ticks_in, 2);
    if more.len() > 0 {
        law_delivered_ticks_are_counted(h, msgs, more.drop_last());
        assert((msgs + more).drop_last() =~= msgs + more.drop_last());
    } else {
        assert(msgs + more =~= msgs);
    }
}

/// A command line is read as its options say, and the application behind the two hyphens is
/// taken as it stands, argument by argument; without one it is refused.
pub proof fn law_a_command_line_names_its_application(
    args: &Vec<String>,
    r: Result<Args, ArgError>,
    n: int,
)
    requires
        call_ensures(parse_args, (args,), r),
        0 <= n < args@.len(),
        args@[n]@ == "--"@,
        forall|i: int| 0 <= i < n ==> (#[trigger] args@[i])@ != "--"@,
    ensures
        n + 1 == args@.len() ==> r is Err,
        r matches Ok(a) ==> {
            &&& a.child@.len() == args@.len() - n - 1
            &&& forall|i: int| 0 <= i < a.child@.len() ==> (#[trigger] a.child@[i])@ == args@[n + 1
                + i]@
            &&& n == 0 ==> a.options.ticks == TickPolicy::Always && a.options.port == 8099
                && a.options.seconds == 6 && a.options.host_fps == 60
                && a.options.stop_ticks_after is None && !a.options.bootstrap_once
        },
        n == 0 && args@.len() > 1 ==> r is Ok,
{
    let all = texts(args@);
    law_options_end_at_two_hyphens(all);
    let end = options_end(all) as int;
    assert(all[n] == args@[n]@);
    if end < n {
        assert(all[end] == args@[end]@);
    }
    assert(end == n);
    match r {
        Ok(a) => {
            let child = texts(a.child@);
            assert(child.len() == a.child@.len());
            assert forall|i: int| 0 <= i < a.child@.len() implies (#[trigger] a.child@[i])@
                == args@[n + 1 + i]@ by {
                assert(child[i] == a.child@[i]@);
                assert(child[i] == all.skip(n + 1)[i]);
                assert(all[n + 1 + i] == args@[n + 1 + i]@);
            }
        },
        Err(_) => {},
    }
}

/// An option is read from the argument that names it.
pub proof fn law_arguments_set_their_options(
    o: Options,
    arg: &str,
    at: usize,
    n: nat,
    r: Result<Options, ArgError>,
)
    requires
        call_ensures(add_option, (o, arg, at), r),
        n <= u64::MAX,
    ensures
        arg@ == "--seconds="@ + text::dec_text(n) ==> (r matches Ok(p) && p == (Options {
            seconds: n as u64,
            ..o
        })),
        arg@ == "--fps="@ + text::dec_text(n) ==> (r matches Ok(p) && p == (Options {
            host_fps: if n >= 1 { n as u64 } else { 1 },
            ..o
        })),
        arg@ == "--port="@ + text::dec_text(n) && n <= 65535 ==> (r matches Ok(p) && p == (
        Options { port: n as u16, ..o })),
        arg@ == "--port="@ + text::dec_text(n) && n > 65535 ==> r == Err::<Options, ArgError>(
            ArgError::BadPort { at },
        ),
        arg@ == "--stop-ticks-after="@ + text::dec_text(n) ==> (r matches Ok(p) && p == (Options {
            stop_ticks_after: Some(n as u64),
            ..o
        })),
        arg@ == "--bootstrap-once"@ ==> (r matches Ok(p) && p == (Options {
            bootstrap_once: true,
            ..o
        })),
{
    law_an_option_sets_what_it_names(o, n, at);
}

/// A frame of a steady host ticks, last of all, whether or not the application asks; one that
/// replies ticks once for each request; and one that has stopped nudges the application once.
pub proof fn law_hosts_tick_by_their_policy(
    always: &mut Host,
    a: ClockStep,
    replies: &mut Host,
    b: ClockStep,
    never: &mut Host,
    c: ClockStep,
    stopped: &mut Host,
    policy: TickPolicy,
    d: ClockStep,
    still: &mut Host,
    e: ClockStep,
    once: bool,
)
    requires
        old(always)@.app_connected && old(replies)@.app_connected && old(never)@.app_connected,
        call_ensures(Host::clock_step, (always, TickPolicy::Always, once, false), a),
        call_ensures(
            Host::clock_step,
            (replies, TickPolicy::OnRequestAnimationFrame, once, false),
            b,
        ),
        call_ensures(Host::clock_step, (never, TickPolicy::Never, once, false), c),
        !old(stopped)@.nudged,
        call_ensures(Host::clock_step, (stopped, policy, once, true), d),
        *old(still) == *final(stopped),
        call_ensures(Host::clock_step, (still, policy, once, true), e),
    ensures
        a matches ClockStep::Frame { msgs } && msgs@.len() > 0 && msgs@.last() == ToApp::Tick,
        b matches ClockStep::Frame { msgs } && msgs@ == if old(replies)@.pending_raf > 0 {
            seq![ToApp::Tick]
        } else {
            Seq::empty()
        },
        old(replies)@.pending_raf > 0 ==> final(replies)@.pending_raf + 1 == old(
            replies,
        )@.pending_raf,
        c matches ClockStep::Frame { msgs } && msgs@.len() == 0,
        d matches ClockStep::Nudge { msgs } && msgs@.len() == old(stopped)@.windows.len(),
        e is Idle,
{
    let empty = Seq::<ToApp>::empty();
    assert(empty.push(ToApp::Tick) =~= seq![ToApp::Tick]);
}

/// A window that the application makes is greeted with the geometry of every window; nothing
/// else that it says is answered.
pub proof fn law_new_windows_are_greeted(
    host: &mut Host,
    window_id: usize,
    r: Handled,
    asked: &mut Host,
    s: Handled,
)
    requires
        call_ensures(Host::handle_app_msg, (host, FromApp::CreateWindow { window_id }), r),
        call_ensures(Host::handle_app_msg, (asked, FromApp::RequestAnimationFrame), s),
    ensures
        final(host)@.windows.contains(window_id),
        r.reply@.len() == final(host)@.windows.len(),
        forall|i: int|
            0 <= i < r.reply@.len() ==> match #[trigger] r.reply@[i] {
                ToApp::WindowGeomChange { window_id: w, .. } => w == final(host)@.windows[i],
                _ => false,
            },
        s.reply@.len() == 0,
        final(asked)@.pending_raf == old(asked)@.pending_raf + 1,
{
    let windows = old(host)@.windows;
    assert(windows.push(window_id)[windows.len() as int] == window_id);
}

/// The child is started with its own arguments, and told behind them that it has a host.
pub proof fn law_the_child_is_told_that_it_has_a_host(child: &Vec<String>, r: Vec<String>)
    requires
        child@.len() > 0,
        call_ensures(child_args, (child,), r),
    ensures
        r@.len() == child@.len(),
        forall|i: int| 0 <= i < r@.len() - 1 ==> (#[trigger] r@[i])@ == child@[i + 1]@,
        r@.last()@ == "--stdin-loop"@,
{
    let (a, b) = (texts(r@), texts(child@));
    assert(a.len() == r@.len());
    assert forall|i: int| 0 <= i < r@.len() - 1 implies (#[trigger] r@[i])@ == child@[i + 1]@ by {
        assert(a[i] == r@[i]@);
        assert(b[i + 1] == child@[i + 1]@);
        assert(b.skip(1)[i] == b[i + 1]);
    }
    assert(a[r@.len() - 1] == r@[r@.len() - 1]@);
}

/// A frame takes a second's millionths divided by the rate, rounded down.
pub proof fn law_a_frame_takes_its_share_of_a_second(host_fps: u64, r: u64)
    requires
        host_fps >= 1,
        call_ensures(frame_micros, (host_fps,), r),
    ensures
        r * host_fps <= 1_000_000 < (r + 1) * host_fps,
{
    vstd::arithmetic::div_mod::lemma_fundamental_div_mod(1_000_000, host_fps as int);
    let (q, m, d) = (r as int, 1_000_000int % (host_fps as int), host_fps as int);
    assert(q * d <= 1_000_000 < (q + 1) * d) by (nonlinear_arith)
        requires
            1_000_000 == d * q + m,
            0 <= m < d,
    ;
}

/// A policy is called by its words, and the host's own name for it tells it apart.
pub proof fn law_policies_are_called_by_their_words(
    s: &str,
    r: Option<TickPolicy>,
    p: TickPolicy,
    name: &'static str,
    q: TickPolicy,
    other: &'static str,
)
    requires
        call_ensures(TickPolicy::parse, (s,), r),
        call_ensures(TickPolicy::name, (p,), name),
        call_ensures(TickPolicy::name, (q,), other),
    ensures
        r == Some(TickPolicy::Always) <==> s@ == "always"@,
        r == Some(TickPolicy::OnRequestAnimationFrame) <==> s@ == "raf"@ || s@ == "on-raf"@,
        r == Some(TickPolicy::Never) <==> s@ == "none"@ || s@ == "never"@,
        name@ == other@ <==> p == q,
{
    law_policies_have_their_words(s@);
    reveal_strlit("Always");
    reveal_strlit("OnRequestAnimationFrame");
    reveal_strlit("Never");
    assert("Always"@.len() == 6 && "OnRequestAnimationFrame"@.len() == 23 && "Never"@.len() == 5);
}

/// A host that is connected can send, and counts the ticks that it has delivered; one that
/// never was sends nothing. What it has counted stays when the application leaves.
pub proof fn law_a_connected_host_sends<D: Fn(Vec<ToApp>) -> bool>(
    before: &mut Host,
    sender: &mut Host,
    msgs: Vec<ToApp>,
    deliver: &D,
    gone: &mut Host,
)
    requires
        call_ensures(Host::connected, (before,), ()),
        call_ensures(Host::send::<D>, (sender, msgs, deliver), ()),
        call_ensures(Host::disconnected, (gone,), ()),
    ensures
        final(before)@.has_channel && final(before)@.app_connected,
        final(before)@.windows == old(before)@.windows && final(before)@.ticks_sent == old(
            before,
        )@.ticks_sent && final(before)@.draws_seen == old(before)@.draws_seen,
        !old(sender)@.has_channel || msgs@.len() == 0 ==> final(sender)@ == old(sender)@,
        old(sender)@.has_channel && msgs@.len() > 0 ==> exists|delivered: bool|
            #[trigger] call_ensures(*deliver, (msgs,), delivered) && final(sender)@.ticks_sent
                == old(sender)@.ticks_sent + if delivered { ticks_in(msgs@) as int } else { 0int },
        final(sender)@.windows == old(sender)@.windows,
        !final(gone)@.app_connected,
        final(gone)@.has_channel == old(gone)@.has_channel,
        final(gone)@.windows == old(gone)@.windows && final(gone)@.ticks_sent == old(
            gone,
        )@.ticks_sent && final(gone)@.draws_seen == old(gone)@.draws_seen,
{
}

/// The handshake gives every window its geometry, one message for each and in their order.
pub proof fn law_the_handshake_is_made_for_every_window(host: &Host, r: Vec<ToApp>, i: int)
    requires
        call_ensures(Host::bootstrap_msgs, (host,), r),
        0 <= i < host@.windows.len(),
    ensures
        r@.len() == host@.windows.len(),
        r@[i] matches ToApp::WindowGeomChange { dpi_factor, window_id, left, top, width, height }
            && window_id == host@.windows[i] && left.bits == 0 && top.bits == 0 && dpi_factor.bits
            == 0x3ff0_0000_0000_0000 && width.bits == 0x407a_4000_0000_0000 && height.bits
            == 0x406b_8000_0000_0000,
{
}

/// The result tells the policy and the three numbers, and the addresses tell the port.
pub proof fn law_results_tell_the_numbers(
    host: &Host,
    policy: TickPolicy,
    r: String,
    port: u16,
    listen: String,
    studio: String,
    build_id: &str,
    aux: String,
    other_port: u16,
    other_listen: String,
)
    requires
        call_ensures(Host::result_line, (host, policy), r),
        call_ensures(listen_address, (port,), listen),
        call_ensures(listen_address, (other_port,), other_listen),
        call_ensures(studio_address, (port,), studio),
        call_ensures(aux_channel_path, (port, build_id), aux),
    ensures
        text::occurs(r@, "ticks_sent="@ + text::dec_text(host@.ticks_sent)),
        text::occurs(r@, "draws_seen="@ + text::dec_text(host@.draws_seen)),
        text::occurs(r@, "bootstraps="@ + text::dec_text(host@.bootstraps_sent)),
        listen@ == other_listen@ <==> port == other_port,
        text::occurs(studio@, listen@),
        text::occurs(aux@, text::dec_text(port as nat) + "-"@ + build_id@),
{
    reveal_strlit("[host] RESULT policy=");
    reveal_strlit("ticks_sent=");
    reveal_strlit(" ticks_sent=");
    reveal_strlit("draws_seen=");
    reveal_strlit(" draws_seen=");
    reveal_strlit("bootstraps=");
    reveal_strlit(" bootstraps=");
    let space = seq![' '];
    assert(" ticks_sent="@ =~= space + "ticks_sent="@);
    assert(" draws_seen="@ =~= space + "draws_seen="@);
    assert(" bootstraps="@ =~= space + "bootstraps="@);
    let t = text::dec_text(host@.ticks_sent);
    let d = text::dec_text(host@.draws_seen);
    let b = text::dec_text(host@.bootstraps_sent);
    let head = "[host] RESULT policy="@ + policy.name_text() + space;
    let tail_t = " draws_seen="@ + d + " bootstraps="@ + b;
    let tail_d = " bootstraps="@ + b;
    let none = Seq::<char>::empty();
    let (nt, nd, nb) = ("ticks_sent="@ + t, "draws_seen="@ + d, "bootstraps="@ + b);
    assert(r@ =~= head + nt + tail_t);
    text::law_what_occurs_stands_between_the_rest(r@, nt, head, tail_t);
    assert(r@ =~= (head + nt + space) + nd + tail_d);
    text::law_what_occurs_stands_between_the_rest(r@, nd, head + nt + space, tail_d);
    assert(r@ =~= (head + nt + space + nd + space) + nb + none);
    text::law_what_occurs_stands_between_the_rest(r@, nb, head + nt + space + nd + space, none);
    if port != other_port {
        text::law_decimal_tells_apart(port as nat, other_port as nat);
        if listen@ == other_listen@ {
            let (x, y) = (text::dec_text(port as nat), text::dec_text(other_port as nat));
            assert("127.0.0.1:"@ + x + none =~= listen@);
            assert("127.0.0.1:"@ + y + none =~= other_listen@);
            text::lemma_middle("127.0.0.1:"@, x, y, none);
        }
    }
    reveal_strlit("http://127.0.0.1:");
    reveal_strlit("127.0.0.1:");
    let scheme = "http://"@;
    reveal_strlit("http://");
    assert("http://127.0.0.1:"@ =~= scheme + "127.0.0.1:"@);
    let back = "/app?build=1&crate=makepad-studio-embed-probe"@;
    assert(studio@ =~= scheme + listen@ + back);
    text::law_what_occurs_stands_between_the_rest(studio@, listen@, scheme, back);
    let front = "/tmp/makepad-stdin-aux-"@;
    let middle = text::dec_text(port as nat) + "-"@ + build_id@;
    assert(aux@ =~= front + middle + ".sock"@);
    text::law_what_occurs_stands_between_the_rest(aux@, middle, front, ".sock"@);
}

} // verus!
