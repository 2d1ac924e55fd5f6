//! A watchdog over the frame clock of an embedded application: it turns the commonest
//! mistake of a host from silence into a sentence that names the cause.
//!
//! An application that runs inside of a host has no event loop of its own. Asking for a
//! redraw only sets a flag; the host owns the frame clock, and a frame is drawn when the
//! host sends a tick. A host that never ticks fails without an error: everything
//! connects, and nothing is ever drawn. The same holds of a host that ticks only when it
//! is asked for a frame, because the application asks from inside of a tick.
//!
//! The watchdog keeps apart the states that look the same from inside and have different
//! remedies: the host never ticked; it ticked and then stopped; it ticks and nothing was
//! ever drawn, so the other half of the handshake is missing; it ticks, something was
//! drawn, and now drawing is stuck.
//!
//! Whether a swapchain ever arrived is not looked at: a host may show frames in its own
//! way and be perfectly healthy. Whether anything was drawn is true of every host.
//!
//! Times are in milliseconds since the watchdog started, plus one, so that zero is left
//! for what never happened.

use crate::double;
use crate::double::F64;
use crate::text;
use vstd::prelude::*;

verus! {

/// How every report begins.
pub const OPENING: &'static str = "makepad embedding: ";

/// Between the ticks and the seconds, where nothing was ever drawn.
pub const NEVER_DREW_OVER: &'static str = " StudioToApp::Tick received over ";

/// What to do where nothing was ever drawn.
pub const NEVER_DREW_REMEDY: &'static str = "s and this app has never DRAWN once -- call_draw_event has not run a \
    single time, so the frame clock is reaching us and there is still \
    nothing to present. That is the other half of the handshake missing, \
    not the clock. The frame clock is fine, so the missing half is the \
    rest of the handshake: the host must send the bootstrap \
    (StudioToApp::WindowGeomChange AND StudioToApp::Swapchain) and, \
    critically, KEEP RE-SENDING IT until the first frame lands. Sending it \
    once is the natural thing to write -- it is handshake, not per-frame \
    data -- and it loses the race on a cold start: the app is still \
    starting when the only copy arrives, and from then on the host ticks \
    forever into an app that never learned where to draw. The reference \
    host (studio/desktop/src/desktop_run_view.rs) re-sends every 15 ticks \
    until the first successful present. Reproduce both sides with \
    `tools/studio_embed_host --ticks=always [--bootstrap-once]`. Set \
    MAKEPAD_STUDIO_TICK_TIMEOUT_S=0 to silence this check.";

/// Between the ticks and the seconds, where drawing is stuck.
pub const STUCK_FOR: &'static str = " StudioToApp::Tick received and nothing has been drawn for ";

/// What to do where drawing is stuck.
pub const STUCK_REMEDY: &'static str = "s, and this app HAS drawn before. So the handshake worked and \
    something wedged afterwards -- most often a swapchain dropped on a \
    resize and never replaced (re-send StudioToApp::Swapchain after every \
    WindowGeomChange), or a draw that is blocking. Set \
    MAKEPAD_STUDIO_TICK_TIMEOUT_S=0 to silence this check.";

/// In front of the seconds, where no tick comes.
pub const NOTHING_FOR: &'static str = "nothing has been drawn for ";

/// Behind the seconds, where no tick comes.
pub const AND: &'static str = "s and ";

/// What to do where no tick comes.
pub const TICK_REMEDY: &'static str = ". In --stdin-loop (studio/embedded) mode the ONLY place that turns a \
    redraw into a frame is the StudioToApp::Tick branch of the stdin event \
    loop: redraw() and redraw_all() by themselves never produce a frame, \
    so with no Tick there is no frame, ever. Your host must send \
    StudioToApp::Tick UNCONDITIONALLY on every one of its own frames -- \
    NOT only as a reply to AppToStudio::RequestAnimationFrame, because the \
    app only asks for RequestAnimationFrame from INSIDE the handling of a \
    Tick, so a reply-only host never starts the cycle. The reference host \
    (studio/desktop/src/desktop_run_view.rs) also re-sends its bootstrap \
    (WindowGeomChange + Swapchain) every 15 ticks until the first \
    successful present, which is what survives a cold start. Set \
    MAKEPAD_STUDIO_TICK_TIMEOUT_S=0 to silence this check.";

/// The diagnosis where no tick ever came.
pub const NEVER_RECEIVED: &'static str = "this app has NEVER received a StudioToApp::Tick";

/// The diagnosis where the ticks stopped, up to the seconds.
pub const LAST_ARRIVED: &'static str = "the last StudioToApp::Tick arrived ";

/// Between the seconds and the ticks.
pub const AGO: &'static str = "s ago (";

/// Behind the ticks.
pub const THEN_STOPPED: &'static str = " received in total), and the ticks then stopped";

/// What the watchdog is told.
#[derive(Clone, Copy, Debug, PartialEq, Eq, Structural)]
pub struct StudioTickWatchdog {
    /// It was started, once.
    pub started: bool,
    /// It has said its piece, once. One that repeats becomes noise and is muted.
    pub reported: bool,
    /// When the last tick came; zero if none ever did.
    pub last_tick_ms: u64,
    /// The number of ticks. It starts again from zero when it passes the largest number.
    pub ticks_seen: u64,
    /// Since when drawing is pending; zero if it is not.
    pub draw_pending_since_ms: u64,
    /// When the first tick came; zero if none ever did.
    pub first_tick_ms: u64,
    /// Whether anything was ever drawn.
    pub drew_ever: bool,
}

/// What the watchdog concludes.
#[derive(Clone, Copy, Debug, PartialEq, Eq, Structural)]
pub enum Verdict {
    /// Nothing to say: nothing is waiting to be drawn, or not for long enough.
    Quiet,
    /// Drawing is pending past the timeout, and no tick has ever come.
    NeverTicked,
    /// Ticks came and then stopped, and drawing is pending.
    TicksStopped,
    /// Ticks come and nothing was ever drawn. The dirty flag is cleared at every tick,
    /// so the clock of pending drawing does not show this.
    TicksButNeverDrew,
    /// Ticks come, something was drawn before, and drawing is pending past the timeout.
    TicksButFrameStuck,
}

/// How much later `now` is than `then`; zero if it is not.
pub open spec fn later_by(now: u64, then: u64) -> int {
    if now >= then {
        now - then
    } else {
        0
    }
}

/// The whole decision, as a function of the numbers that are watched.
///
/// That ticks come and nothing was ever drawn is looked at first: it is invisible to
/// the clock of pending drawing.
pub open spec fn verdict_of(
    now_ms: u64,
    pending_since_ms: u64,
    last_tick_ms: u64,
    timeout_ms: u64,
    first_tick_ms: u64,
    drew_ever: bool,
) -> Verdict {
    if first_tick_ms != 0 && !drew_ever && later_by(now_ms, first_tick_ms) >= timeout_ms {
        Verdict::TicksButNeverDrew
    } else if pending_since_ms == 0 || later_by(now_ms, pending_since_ms) < timeout_ms {
        Verdict::Quiet
    } else if last_tick_ms >= pending_since_ms {
        Verdict::TicksButFrameStuck
    } else if last_tick_ms == 0 {
        Verdict::NeverTicked
    } else {
        Verdict::TicksStopped
    }
}

/// Decides from the numbers that are watched: the time, since when drawing is pending,
/// when the last and the first tick came, and whether anything was ever drawn.
pub fn verdict(
    now_ms: u64,
    pending_since_ms: u64,
    last_tick_ms: u64,
    timeout_ms: u64,
    first_tick_ms: u64,
    drew_ever: bool,
) -> (r: Verdict)
    ensures
        r == verdict_of(
            now_ms,
            pending_since_ms,
            last_tick_ms,
            timeout_ms,
            first_tick_ms,
            drew_ever,
        ),
{
    if first_tick_ms != 0 && !drew_ever && now_ms.saturating_sub(first_tick_ms) >= timeout_ms {
        return Verdict::TicksButNeverDrew;
    }
    if pending_since_ms == 0 {
        return Verdict::Quiet;
    }
    if now_ms.saturating_sub(pending_since_ms) < timeout_ms {
        return Verdict::Quiet;
    }
    if last_tick_ms >= pending_since_ms && last_tick_ms != 0 {
        return Verdict::TicksButFrameStuck;
    }
    if last_tick_ms == 0 {
        Verdict::NeverTicked
    } else {
        Verdict::TicksStopped
    }
}

impl Default for StudioTickWatchdog {
    fn default() -> (r: Self)
        ensures
            r == (StudioTickWatchdog {
                started: false,
                reported: false,
                last_tick_ms: 0,
                ticks_seen: 0,
                draw_pending_since_ms: 0,
                first_tick_ms: 0,
                drew_ever: false,
            }),
    {
        StudioTickWatchdog {
            started: false,
            reported: false,
            last_tick_ms: 0,
            ticks_seen: 0,
            draw_pending_since_ms: 0,
            first_tick_ms: 0,
            drew_ever: false,
        }
    }
}

/// The time as it is noted, from the milliseconds that have passed: one more, so that
/// zero is left for what never happened.
pub fn now_ms(elapsed_ms: u64) -> (r: u64)
    requires
        elapsed_ms < u64::MAX,
    ensures
        r == elapsed_ms + 1,
        r != 0,
{
    elapsed_ms + 1
}

/// The seconds of silence that are tolerated: five, unless the setting says otherwise;
/// none if the watchdog is switched off by a number that is not positive. `parse` reads
/// a number.
pub fn timeout<P: Fn(String) -> Option<F64>>(setting: Option<&str>, parse: &P) -> (r: Option<F64>)
    requires
        forall|s: String| call_requires(*parse, (s,)),
    ensures
        match setting {
            Some(raw) => exists|s: String, number: Option<F64>| #[trigger]
                call_ensures(*parse, (s,), number) && s@ == text::trimmed(raw@) && r
                    == tolerated(number),
            None => r == Some(double::of_bits(double::FIVE_BITS)),
        },
{
    let number: Option<F64> = match setting {
        Some(raw) => {
            let s: String = text::trim_text(raw);
            parse(s)
        },
        None => None,
    };
    let seconds: F64 = match number {
        Some(n) => n,
        None => F64 { bits: double::FIVE_BITS },
    };
    if seconds.is_not_positive() {
        None
    } else {
        Some(seconds)
    }
}

/// The seconds of silence that are tolerated, if a number was read.
pub open spec fn tolerated(number: Option<F64>) -> Option<F64> {
    let seconds = match number {
        Some(n) => n,
        None => double::of_bits(double::FIVE_BITS),
    };
    if seconds.not_positive() {
        None
    } else {
        Some(seconds)
    }
}

/// Starts the watchdog, the first time it is called. Says whether it is to run now.
pub fn start_studio_tick_watchdog(w: &mut StudioTickWatchdog, timeout: Option<F64>) -> (r: bool)
    ensures
        *final(w) == (StudioTickWatchdog { started: true, ..*old(w) }),
        r == (!old(w).started && timeout is Some),
{
    let was: bool = w.started;
    w.started = true;
    !was && timeout.is_some()
}

/// Notes a tick.
pub fn note_studio_tick(w: &mut StudioTickWatchdog, now_ms: u64)
    ensures
        *final(w) == (StudioTickWatchdog {
            ticks_seen: old(w).ticks_seen.wrapping_add(1),
            first_tick_ms: if old(w).first_tick_ms == 0 {
                now_ms
            } else {
                old(w).first_tick_ms
            },
            last_tick_ms: now_ms,
            ..*old(w)
        }),
{
    w.ticks_seen = w.ticks_seen.wrapping_add(1);
    if w.first_tick_ms == 0 {
        w.first_tick_ms = now_ms;
    }
    w.last_tick_ms = now_ms;
}

/// Notes that something was drawn. Before that, no number of ticks shows anything.
pub fn note_studio_drew(w: &mut StudioTickWatchdog)
    ensures
        *final(w) == (StudioTickWatchdog { drew_ever: true, ..*old(w) }),
{
    w.drew_ever = true;
}

/// Notes, after each message of the host, whether drawing is pending. Only the first
/// moment counts: noting a later one would push the deadline away with every message.
/// An application with nothing to draw is no symptom of anything.
pub fn note_studio_draw_pending(w: &mut StudioTickWatchdog, pending: bool, now_ms: u64)
    ensures
        *final(w) == (StudioTickWatchdog {
            draw_pending_since_ms: if !pending {
                0
            } else if old(w).draw_pending_since_ms == 0 {
                now_ms
            } else {
                old(w).draw_pending_since_ms
            },
            ..*old(w)
        }),
        *final(w) == noted_pending(*old(w), pending, now_ms),
{
    if pending {
        if w.draw_pending_since_ms == 0 {
            w.draw_pending_since_ms = now_ms;
        }
    } else {
        w.draw_pending_since_ms = 0;
    }
}

/// What the watchdog does when it wakes up.
#[derive(Clone, Copy, Debug, PartialEq, Eq, Structural)]
pub enum Round {
    /// It sleeps again.
    Wait,
    /// It has said its piece before, and ends.
    Retire,
    /// It says its piece, and ends. How long was waited is counted, where nothing was
    /// ever drawn, from the first tick.
    Report { verdict: Verdict, waited_ms: u64, last_tick_ms: u64, ticks: u64 },
}

impl StudioTickWatchdog {
    pub open spec fn verdict_at(self, now_ms: u64, timeout_ms: u64) -> Verdict {
        verdict_of(
            now_ms,
            self.draw_pending_since_ms,
            self.last_tick_ms,
            timeout_ms,
            self.first_tick_ms,
            self.drew_ever,
        )
    }

    pub open spec fn round_at(self, now_ms: u64, timeout_ms: u64) -> Round {
        let verdict = self.verdict_at(now_ms, timeout_ms);
        if self.reported {
            Round::Retire
        } else if verdict == Verdict::Quiet {
            Round::Wait
        } else {
            Round::Report {
                verdict,
                waited_ms: later_by(
                    now_ms,
                    if verdict == Verdict::TicksButNeverDrew {
                        self.first_tick_ms
                    } else {
                        self.draw_pending_since_ms
                    },
                ) as u64,
                last_tick_ms: self.last_tick_ms,
                ticks: self.ticks_seen,
            }
        }
    }

    /// One round of the watchdog.
    pub fn watchdog_round(&mut self, now_ms: u64, timeout_ms: u64) -> (r: Round)
        ensures
            r == old(self).round_at(now_ms, timeout_ms),
            *final(self) == (StudioTickWatchdog {
                reported: old(self).reported || r is Report,
                ..*old(self)
            }),
    {
        if self.reported {
            return Round::Retire;
        }
        let v = verdict(
            now_ms,
            self.draw_pending_since_ms,
            self.last_tick_ms,
            timeout_ms,
            self.first_tick_ms,
            self.drew_ever,
        );
        if v == Verdict::Quiet {
            return Round::Wait;
        }
        self.reported = true;
        let since: u64 = if v == Verdict::TicksButNeverDrew {
            self.first_tick_ms
        } else {
            self.draw_pending_since_ms
        };
        Round::Report {
            verdict: v,
            waited_ms: now_ms.saturating_sub(since),
            last_tick_ms: self.last_tick_ms,
            ticks: self.ticks_seen,
        }
    }
}

/// An application that has nothing to draw is never accused, once it has drawn or as
/// long as no tick has come.
pub proof fn law_an_idle_app_is_never_accused(
    now_ms: u64,
    last_tick_ms: u64,
    timeout_ms: u64,
    first_tick_ms: u64,
    drew_ever: bool,
)
    requires
        drew_ever || first_tick_ms == 0,
    ensures
        verdict_of(now_ms, 0, last_tick_ms, timeout_ms, first_tick_ms, drew_ever)
            == Verdict::Quiet,
{
}

/// Waiting for less than the timeout is no fault; waiting for exactly the timeout is.
pub proof fn law_the_boundary_belongs_to_the_timeout(
    now_ms: u64,
    pending_since_ms: u64,
    last_tick_ms: u64,
    timeout_ms: u64,
    first_tick_ms: u64,
)
    requires
        0 < pending_since_ms <= now_ms,
    ensures
        verdict_of(now_ms, pending_since_ms, last_tick_ms, timeout_ms, first_tick_ms, true)
            == Verdict::Quiet <==> now_ms - pending_since_ms < timeout_ms,
{
}

/// Every verdict has numbers that give it, whatever the timeout.
pub proof fn law_every_verdict_is_reachable(v: Verdict, timeout_ms: u64)
    requires
        timeout_ms <= u64::MAX - 2,
    ensures
        exists|now: u64, pending: u64, last: u64, first: u64, drew: bool| #[trigger]
            verdict_of(now, pending, last, timeout_ms, first, drew) == v,
{
    let end = (timeout_ms + 2) as u64;
    assert(verdict_of(end, 0, 0, timeout_ms, 0, true) == Verdict::Quiet);
    assert(verdict_of(end, 2, 0, timeout_ms, 0, true) == Verdict::NeverTicked);
    assert(verdict_of(end, 2, 1, timeout_ms, 1, true) == Verdict::TicksStopped);
    assert(verdict_of(end, 0, 2, timeout_ms, 2, false) == Verdict::TicksButNeverDrew);
    assert(verdict_of(end, 2, 2, timeout_ms, 2, true) == Verdict::TicksButFrameStuck);
}

/// The verdicts tell the remedies apart: whether a tick ever came, and whether anything
/// was ever drawn.
pub proof fn law_verdicts_name_the_cause(
    now_ms: u64,
    pending_since_ms: u64,
    last_tick_ms: u64,
    timeout_ms: u64,
    first_tick_ms: u64,
    drew_ever: bool,
)
    ensures
        match verdict_of(
            now_ms,
            pending_since_ms,
            last_tick_ms,
            timeout_ms,
            first_tick_ms,
            drew_ever,
        ) {
            Verdict::Quiet => true,
            Verdict::NeverTicked => last_tick_ms == 0 && pending_since_ms != 0,
            Verdict::TicksStopped => 0 < last_tick_ms < pending_since_ms,
            Verdict::TicksButNeverDrew => first_tick_ms != 0 && !drew_ever,
            Verdict::TicksButFrameStuck => last_tick_ms >= pending_since_ms && pending_since_ms
                != 0,
        },
{
}

/// The first moment of pending drawing is kept, however often it is noted again.
pub proof fn law_noting_again_does_not_move_the_deadline(
    before: StudioTickWatchdog,
    first_ms: u64,
    again_ms: u64,
)
    requires
        first_ms != 0,
        before.draw_pending_since_ms == 0,
    ensures
        ({
            let once = noted_pending(before, true, first_ms);
            let twice = noted_pending(once, true, again_ms);
            twice == once && once.draw_pending_since_ms == first_ms
        }),
{
}

/// The watchdog after it was told whether drawing is pending.
pub open spec fn noted_pending(
    w: StudioTickWatchdog,
    pending: bool,
    now_ms: u64,
) -> StudioTickWatchdog {
    StudioTickWatchdog {
        draw_pending_since_ms: if !pending {
            0
        } else if w.draw_pending_since_ms == 0 {
            now_ms
        } else {
            w.draw_pending_since_ms
        },
        ..w
    }
}

/// The watchdog speaks once: after a report every round ends it.
pub proof fn law_the_watchdog_speaks_once(
    w: StudioTickWatchdog,
    now_ms: u64,
    timeout_ms: u64,
    later: StudioTickWatchdog,
    later_ms: u64,
)
    requires
        w.round_at(now_ms, timeout_ms) is Report,
        later.reported == (w.reported || w.round_at(now_ms, timeout_ms) is Report),
    ensures
        later.round_at(later_ms, timeout_ms) is Retire,
{
}

/// What the watchdog says of the ticks, where none comes.
pub open spec fn diagnosis(last_tick_ms: u64, ticks: u64, since: Seq<char>) -> Seq<char> {
    if last_tick_ms == 0 {
        NEVER_RECEIVED@
    } else {
        LAST_ARRIVED@ + since + AGO@ + text::dec_text(ticks as nat) + THEN_STOPPED@
    }
}

/// What the watchdog says. `waited` and `since` are seconds, written out.
pub open spec fn report_text(
    v: Verdict,
    ticks: u64,
    waited: Seq<char>,
    last_tick_ms: u64,
    since: Seq<char>,
) -> Seq<char> {
    match v {
        Verdict::TicksButNeverDrew => OPENING@ + text::dec_text(ticks as nat) + NEVER_DREW_OVER@
            + waited + NEVER_DREW_REMEDY@,
        Verdict::TicksButFrameStuck => OPENING@ + text::dec_text(ticks as nat) + STUCK_FOR@
            + waited + STUCK_REMEDY@,
        _ => OPENING@ + NOTHING_FOR@ + waited + AND@ + diagnosis(last_tick_ms, ticks, since)
            + TICK_REMEDY@,
    }
}

/// What the watchdog says: the cause, and what the host has to change. `waited` is how
/// long was waited and `since` how long ago the last tick came, in seconds, written out.
/// Where ticks come, nothing is said of the policy of ticking, which is right.
pub fn report(
    v: Verdict,
    ticks: u64,
    waited: &str,
    last_tick_ms: u64,
    since: &str,
) -> (r: String)
    ensures
        r@ == report_text(v, ticks, waited@, last_tick_ms, since@),
{
    let mut message = text::owned(OPENING);
    match v {
        Verdict::TicksButNeverDrew => {
            text::append_dec(&mut message, ticks);
            text::append_text(&mut message, NEVER_DREW_OVER);
            text::append_text(&mut message, waited);
            text::append_text(&mut message, NEVER_DREW_REMEDY);
        },
        Verdict::TicksButFrameStuck => {
            text::append_dec(&mut message, ticks);
            text::append_text(&mut message, STUCK_FOR);
            text::append_text(&mut message, waited);
            text::append_text(&mut message, STUCK_REMEDY);
        },
        _ => {
            text::append_text(&mut message, NOTHING_FOR);
            text::append_text(&mut message, waited);
            text::append_text(&mut message, AND);
            let ghost before = message@;
            if last_tick_ms == 0 {
                text::append_text(&mut message, NEVER_RECEIVED);
            } else {
                text::append_text(&mut message, LAST_ARRIVED);
                text::append_text(&mut message, since);
                text::append_text(&mut message, AGO);
                text::append_dec(&mut message, ticks);
                text::append_text(&mut message, THEN_STOPPED);
            }
            assert(message@ =~= before + diagnosis(last_tick_ms, ticks, since@));
            text::append_text(&mut message, TICK_REMEDY);
        },
    }
    message
}

/// A host that ticks at an application that has never drawn is named once the first tick is
/// as long ago as is tolerated, no sooner, whatever else is true.
pub proof fn law_ticking_in_vain_is_named(
    now_ms: u64,
    pending_since_ms: u64,
    last_tick_ms: u64,
    timeout_ms: u64,
    first_tick_ms: u64,
)
    requires
        0 < first_tick_ms <= now_ms,
    ensures
        verdict_of(now_ms, pending_since_ms, last_tick_ms, timeout_ms, first_tick_ms, false)
            == Verdict::TicksButNeverDrew <==> now_ms >= first_tick_ms + timeout_ms,
{
}

/// Drawing that is pending for as long as is tolerated is put down to the ticks: none ever
/// came, or none since it is pending, or they come.
pub proof fn law_pending_drawing_is_put_down_to_the_ticks(
    now_ms: u64,
    pending_since_ms: u64,
    last_tick_ms: u64,
    timeout_ms: u64,
    first_tick_ms: u64,
    drew_ever: bool,
)
    requires
        0 < pending_since_ms,
        now_ms >= pending_since_ms + timeout_ms,
        drew_ever || first_tick_ms == 0 || first_tick_ms + timeout_ms > now_ms >= first_tick_ms,
    ensures
        ({
            let v = verdict_of(
                now_ms,
                pending_since_ms,
                last_tick_ms,
                timeout_ms,
                first_tick_ms,
                drew_ever,
            );
            &&& last_tick_ms == 0 ==> v == Verdict::NeverTicked
            &&& 0 < last_tick_ms < pending_since_ms ==> v == Verdict::TicksStopped
            &&& last_tick_ms >= pending_since_ms ==> v == Verdict::TicksButFrameStuck
        }),
{
}

/// As long as nothing has been waited for as long as is tolerated, nothing is said: neither
/// pending drawing, nor, where nothing was ever drawn, the first tick is that old. A moment
/// that lies ahead is not old at all.
pub proof fn law_patience_is_silent(
    now_ms: u64,
    pending_since_ms: u64,
    last_tick_ms: u64,
    timeout_ms: u64,
    first_tick_ms: u64,
    drew_ever: bool,
)
    requires
        timeout_ms > 0,
        pending_since_ms == 0 || now_ms < pending_since_ms + timeout_ms,
        drew_ever || first_tick_ms == 0 || now_ms < first_tick_ms + timeout_ms,
    ensures
        verdict_of(
            now_ms,
            pending_since_ms,
            last_tick_ms,
            timeout_ms,
            first_tick_ms,
            drew_ever,
        ) == Verdict::Quiet,
{
}

/// What the watchdog says counts from the moment it is about: the first tick, where nothing
/// was ever drawn, and otherwise since when drawing is pending. It says how many ticks there
/// were and when the last one came; and it says nothing as long as there is nothing to say.
pub proof fn law_reports_say_how_long_was_waited(
    w: StudioTickWatchdog,
    now_ms: u64,
    timeout_ms: u64,
)
    requires
        !w.reported,
        w.first_tick_ms <= now_ms,
        w.draw_pending_since_ms <= now_ms,
    ensures
        ({
            let v = verdict_of(
                now_ms,
                w.draw_pending_since_ms,
                w.last_tick_ms,
                timeout_ms,
                w.first_tick_ms,
                w.drew_ever,
            );
            match w.round_at(now_ms, timeout_ms) {
                Round::Wait => v == Verdict::Quiet,
                Round::Retire => false,
                Round::Report { verdict, waited_ms, last_tick_ms, ticks } => {
                    &&& verdict == v && v != Verdict::Quiet
                    &&& verdict == Verdict::TicksButNeverDrew ==> w.first_tick_ms + waited_ms
                        == now_ms
                    &&& verdict != Verdict::TicksButNeverDrew ==> w.draw_pending_since_ms
                        + waited_ms == now_ms
                    &&& waited_ms >= timeout_ms
                    &&& last_tick_ms == w.last_tick_ms
                    &&& ticks == w.ticks_seen
                },
            }
        }),
        (StudioTickWatchdog { reported: true, ..w }).round_at(now_ms, timeout_ms) is Retire,
{
}

/// Five seconds are tolerated unless a number is given; a number that is zero or negative
/// switches the watchdog off, and every other is taken as it is.
pub proof fn law_five_seconds_unless_told_otherwise(number: F64)
    ensures
        tolerated(None) == Some(F64 { bits: 0x4014_0000_0000_0000 }),
        number.bits == 0 || 0x8000_0000_0000_0000 <= number.bits <= 0xfff0_0000_0000_0000
            ==> tolerated(Some(number)) is None,
        0 < number.bits < 0x8000_0000_0000_0000 ==> tolerated(Some(number)) == Some(number),
{
}

/// What is said begins with what speaks, and says how long was waited and, if there were
/// any ticks, how many.
pub proof fn law_reports_give_the_numbers(
    v: Verdict,
    ticks: u64,
    waited: Seq<char>,
    last_tick_ms: u64,
    since: Seq<char>,
)
    ensures
        ({
            let said = report_text(v, ticks, waited, last_tick_ms, since);
            &&& text::starts_with(said, OPENING@)
            &&& text::occurs(said, waited)
            &&& last_tick_ms > 0 || v == Verdict::TicksButNeverDrew || v
                == Verdict::TicksButFrameStuck ==> text::occurs(said, text::dec_text(ticks as nat))
            &&& last_tick_ms > 0 && v != Verdict::TicksButNeverDrew && v
                != Verdict::TicksButFrameStuck ==> text::occurs(said, since)
        }),
{
    let said = report_text(v, ticks, waited, last_tick_ms, since);
    let n = text::dec_text(ticks as nat);
    let none = Seq::<char>::empty();
    assert(said =~= OPENING@ + said.skip(OPENING@.len() as int));
    text::law_a_beginning_is_a_beginning(said, OPENING@, none);
    match v {
        Verdict::TicksButNeverDrew => {
            let (a, b) = (OPENING@ + n + NEVER_DREW_OVER@, NEVER_DREW_REMEDY@);
            text::law_what_occurs_stands_between_the_rest(said, waited, a, b);
            let c = NEVER_DREW_OVER@ + waited + NEVER_DREW_REMEDY@;
            text::law_what_occurs_stands_between_the_rest(said, n, OPENING@, c);
            assert(said =~= OPENING@ + n + c);
        },
        Verdict::TicksButFrameStuck => {
            let (a, b) = (OPENING@ + n + STUCK_FOR@, STUCK_REMEDY@);
            text::law_what_occurs_stands_between_the_rest(said, waited, a, b);
            let c = STUCK_FOR@ + waited + STUCK_REMEDY@;
            text::law_what_occurs_stands_between_the_rest(said, n, OPENING@, c);
            assert(said =~= OPENING@ + n + c);
        },
        _ => {
            let a = OPENING@ + NOTHING_FOR@;
            let d = diagnosis(last_tick_ms, ticks, since);
            let b = AND@ + d + TICK_REMEDY@;
            text::law_what_occurs_stands_between_the_rest(said, waited, a, b);
            assert(said =~= a + waited + b);
            if last_tick_ms > 0 {
                let e = a + waited + AND@ + LAST_ARRIVED@;
                let f = AGO@ + n + THEN_STOPPED@ + TICK_REMEDY@;
                text::law_what_occurs_stands_between_the_rest(said, since, e, f);
                assert(said =~= e + since + f);
                let g = e + since + AGO@;
                let h = THEN_STOPPED@ + TICK_REMEDY@;
                text::law_what_occurs_stands_between_the_rest(said, n, g, h);
                assert(said =~= g + n + h);
            }
        },
    }
}

/// The watchdog names a host that never ticks: drawing that is noted as pending and that no
/// tick follows is reported once it has waited for as long as is tolerated, and not before;
/// and it is reported once.
pub proof fn law_a_host_that_never_ticks_is_named(
    noted: &mut StudioTickWatchdog,
    since: u64,
    early: &mut StudioTickWatchdog,
    early_ms: u64,
    first: Round,
    late: &mut StudioTickWatchdog,
    late_ms: u64,
    second: Round,
    after: &mut StudioTickWatchdog,
    third: Round,
    timeout_ms: u64,
)
    requires
        old(noted).last_tick_ms == 0,
        old(noted).first_tick_ms == 0,
        old(noted).draw_pending_since_ms == 0,
        !old(noted).reported,
        since > 0,
        call_ensures(note_studio_draw_pending, (noted, true, since), ()),
        *old(early) == *final(noted),
        since <= early_ms < since + timeout_ms,
        call_ensures(StudioTickWatchdog::watchdog_round, (early, early_ms, timeout_ms), first),
        *old(late) == *final(early),
        late_ms >= since + timeout_ms,
        call_ensures(StudioTickWatchdog::watchdog_round, (late, late_ms, timeout_ms), second),
        *old(after) == *final(late),
        call_ensures(StudioTickWatchdog::watchdog_round, (after, late_ms, timeout_ms), third),
    ensures
        first is Wait,
        second == (Round::Report {
            verdict: Verdict::NeverTicked,
            waited_ms: (late_ms - since) as u64,
            last_tick_ms: 0,
            ticks: old(noted).ticks_seen,
        }),
        third is Retire,
{
}

/// A tick is noted with its time, the first for good, and counted; that something was drawn is
/// noted for good; and drawing that is no longer pending is forgotten.
pub proof fn law_the_watchdog_is_told(
    ticked: &mut StudioTickWatchdog,
    now: u64,
    drew: &mut StudioTickWatchdog,
    done: &mut StudioTickWatchdog,
    later: u64,
    started: &mut StudioTickWatchdog,
    timeout: Option<F64>,
    runs: bool,
)
    requires
        call_ensures(note_studio_tick, (ticked, now), ()),
        call_ensures(note_studio_drew, (drew,), ()),
        call_ensures(note_studio_draw_pending, (done, false, later), ()),
        call_ensures(start_studio_tick_watchdog, (started, timeout), runs),
    ensures
        final(ticked).last_tick_ms == now,
        old(ticked).first_tick_ms == 0 ==> final(ticked).first_tick_ms == now,
        old(ticked).first_tick_ms != 0 ==> final(ticked).first_tick_ms == old(ticked).first_tick_ms,
        final(ticked).ticks_seen == old(ticked).ticks_seen.wrapping_add(1),
        final(ticked).draw_pending_since_ms == old(ticked).draw_pending_since_ms,
        final(ticked).drew_ever == old(ticked).drew_ever,
        final(drew).drew_ever,
        final(drew).last_tick_ms == old(drew).last_tick_ms,
        final(drew).draw_pending_since_ms == old(drew).draw_pending_since_ms,
        final(done).draw_pending_since_ms == 0,
        final(done).last_tick_ms == old(done).last_tick_ms,
        final(started).started,
        runs <==> !old(started).started && timeout is Some,
{
}

/// What is concluded from the numbers: nothing while nothing has waited for too long, and
/// otherwise what the ticks say.
pub proof fn law_the_numbers_give_the_verdict(
    now_ms: u64,
    pending_since_ms: u64,
    last_tick_ms: u64,
    timeout_ms: u64,
    first_tick_ms: u64,
    drew_ever: bool,
    v: Verdict,
)
    requires
        call_ensures(
            verdict,
            (now_ms, pending_since_ms, last_tick_ms, timeout_ms, first_tick_ms, drew_ever),
            v,
        ),
        first_tick_ms <= now_ms,
        pending_since_ms <= now_ms,
    ensures
        ({
            let vain = first_tick_ms != 0 && !drew_ever && now_ms >= first_tick_ms + timeout_ms;
            let waits = pending_since_ms != 0 && now_ms >= pending_since_ms + timeout_ms;
            &&& v == Verdict::TicksButNeverDrew <==> vain
            &&& v == Verdict::Quiet <==> !vain && !waits
            &&& v == Verdict::NeverTicked <==> !vain && waits && last_tick_ms == 0
            &&& v == Verdict::TicksStopped <==> !vain && waits && 0 < last_tick_ms
                < pending_since_ms
            &&& v == Verdict::TicksButFrameStuck <==> !vain && waits && last_tick_ms
                >= pending_since_ms
        }),
{
}

/// Five seconds are tolerated where nothing is set, and what the setting says where it says
/// something: none if that is zero or negative.
pub proof fn law_the_setting_says_what_is_tolerated<P: Fn(String) -> Option<F64>>(
    setting: Option<&str>,
    parse: &P,
    n: F64,
    r: Option<F64>,
)
    requires
        call_ensures(timeout::<P>, (setting, parse), r),
        setting matches Some(raw) ==> forall|s: String, number: Option<F64>| #[trigger]
            call_ensures(*parse, (s,), number) && s@ == text::trimmed(raw@) ==> number == Some(n),
    ensures
        setting is None ==> r == Some(F64 { bits: 0x4014_0000_0000_0000 }),
        setting is Some && 0 < n.bits <= 0x7ff0_0000_0000_0000 ==> r == Some(n),
        setting is Some && (n.bits == 0 || 0x8000_0000_0000_0000 <= n.bits
            <= 0xfff0_0000_0000_0000) ==> r is None,
{
}

/// The report begins with what speaks and says how long was waited, and the time is never
/// the zero that stands for never.
pub proof fn law_what_is_reported_gives_the_numbers(
    v: Verdict,
    ticks: u64,
    waited: &str,
    last_tick_ms: u64,
    since: &str,
    r: String,
    elapsed_ms: u64,
    now: u64,
)
    requires
        call_ensures(report, (v, ticks, waited, last_tick_ms, since), r),
        call_ensures(now_ms, (elapsed_ms,), now),
    ensures
        text::starts_with(r@, OPENING@),
        text::occurs(r@, waited@),
        last_tick_ms > 0 || v == Verdict::TicksButNeverDrew || v == Verdict::TicksButFrameStuck
            ==> text::occurs(r@, text::dec_text(ticks as nat)),
        now == elapsed_ms + 1,
{
    law_reports_give_the_numbers(v, ticks, waited@, last_tick_ms, since@);
}

} // verus!
