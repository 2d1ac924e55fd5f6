//! A probe for hosts: an application that says aloud whether it ever got to draw.
//!
//! A host that never ticks produces silence, and silence cannot be measured. So the probe
//! logs one numbered line whenever it draws, and one whenever it starts: that the
//! application never started and that it started and never drew are two different
//! mistakes, and both look like an empty window.

use crate::embed_host;
use crate::text;
use vstd::prelude::*;

verus! {

/// In front of the number of a start.
pub const PROBE_STARTUP: &'static str = "PROBE-STARTUP ";

/// In front of the number of a frame.
pub const PROBE_DRAW: &'static str = "PROBE-DRAW ";

/// What the probe is told.
#[derive(Clone, Copy, Debug, PartialEq, Eq, Structural)]
pub enum ProbeEvent {
    Startup,
    Draw,
    Other,
}

/// What the probe has counted.
#[derive(Clone, Copy, Debug, PartialEq, Eq, Structural)]
pub struct App {
    pub draws: u64,
    pub startups: u64,
}

/// The line for the start with this number.
pub open spec fn startup_line(n: nat) -> Seq<char> {
    PROBE_STARTUP@ + text::dec_text(n)
}

/// The line for the frame with this number.
pub open spec fn draw_line(n: nat) -> Seq<char> {
    PROBE_DRAW@ + text::dec_text(n)
}

impl Default for App {
    fn default() -> (r: App)
        ensures
            r == (App { draws: 0, startups: 0 }),
    {
        App { draws: 0, startups: 0 }
    }
}

impl App {
    /// Counts the event, and gives the line to log.
    pub fn handle_event(&mut self, event: ProbeEvent) -> (r: Option<String>)
        requires
            event == ProbeEvent::Startup ==> old(self).startups < u64::MAX,
            event == ProbeEvent::Draw ==> old(self).draws < u64::MAX,
        ensures
            match event {
                ProbeEvent::Startup => {
                    &&& *final(self) == (App {
                        startups: (old(self).startups + 1) as u64,
                        ..*old(self)
                    })
                    &&& r matches Some(line) && line@ == startup_line(final(self).startups as nat)
                },
                ProbeEvent::Draw => {
                    &&& *final(self) == (App { draws: (old(self).draws + 1) as u64, ..*old(self) })
                    &&& r matches Some(line) && line@ == draw_line(final(self).draws as nat)
                },
                ProbeEvent::Other => r is None && *final(self) == *old(self),
            },
    {
        match event {
            ProbeEvent::Startup => {
                self.startups = self.startups + 1;
                let mut line = text::owned(PROBE_STARTUP);
                text::append_dec(&mut line, self.startups);
                Some(line)
            },
            ProbeEvent::Draw => {
                self.draws = self.draws + 1;
                let mut line = text::owned(PROBE_DRAW);
                text::append_dec(&mut line, self.draws);
                Some(line)
            },
            ProbeEvent::Other => None,
        }
    }
}

/// A host that counts the lines about drawing counts every frame of the probe, and no
/// start.
pub proof fn law_a_host_counts_frames_and_not_starts(n: nat)
    ensures
        text::occurs(draw_line(n), embed_host::PROBE_DRAW@),
        !text::occurs(startup_line(n), embed_host::PROBE_DRAW@),
{
    reveal_strlit("PROBE-DRAW");
    reveal_strlit("PROBE-DRAW ");
    reveal_strlit("PROBE-STARTUP ");
    let needle = embed_host::PROBE_DRAW@;
    assert(draw_line(n).subrange(0, 10) == needle);
    assert(text::stands_at(draw_line(n), needle, 0));
    let line = startup_line(n);
    text::law_decimal_is_read_back(n);
    assert forall|i: int| 0 <= i < line.len() implies line[i] != 'D' by {
        if i >= 14 {
            assert(line[i] == text::dec_text(n)[i - 14]);
        } else {
            assert(line[i] == PROBE_STARTUP@[i]);
        }
    }
    assert forall|at: int| !text::stands_at(line, needle, at) by {
        if text::stands_at(line, needle, at) {
            assert(needle[6] == 'D');
            assert(line.subrange(at, at + 10)[6] == line[at + 6]);
        }
    }
}

/// The call counts starts and frames apart, and says the number of each in its line.
pub proof fn law_the_probe_counts_starts_and_frames(
    app: &mut App,
    event: ProbeEvent,
    r: Option<String>,
)
    requires
        call_ensures(App::handle_event, (app, event), r),
        old(app).startups < u64::MAX,
        old(app).draws < u64::MAX,
    ensures
        final(app).draws == old(app).draws + if event == ProbeEvent::Draw { 1int } else { 0int },
        final(app).startups == old(app).startups + if event == ProbeEvent::Startup { 1int } else {
            0int
        },
        event == ProbeEvent::Draw ==> (r matches Some(line) && line@ == "PROBE-DRAW "@
            + text::dec_text(final(app).draws as nat) && text::occurs(
            line@,
            embed_host::PROBE_DRAW@,
        )),
        event == ProbeEvent::Startup ==> (r matches Some(line) && line@ == "PROBE-STARTUP "@
            + text::dec_text(final(app).startups as nat) && !text::occurs(
            line@,
            embed_host::PROBE_DRAW@,
        )),
        event == ProbeEvent::Other ==> r is None,
{
    law_a_host_counts_frames_and_not_starts(final(app).draws as nat);
    law_a_host_counts_frames_and_not_starts(final(app).startups as nat);
}

} // verus!
