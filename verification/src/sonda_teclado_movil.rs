//! A probe for the keyboards of phones: a search field, and an echo of what is typed.
//!
//! The echo shows that the keys arrive, which is another matter than that the keyboard
//! is seen: on a phone there can be the second without the first.

use crate::text;
use vstd::prelude::*;

verus! {

/// The echo before anything is typed.
pub const NOTHING_TYPED: &'static str = "(sin escribir nada todavia)";

/// In front of what was typed.
pub const TYPED: &'static str = "escrito: «";

/// Behind what was typed.
pub const TYPED_END: &'static str = "»";

/// The probe, by the text of its echo.
#[derive(Debug)]
pub struct SondaTecladoMovil {
    pub eco: String,
}

impl Default for SondaTecladoMovil {
    fn default() -> (r: SondaTecladoMovil)
        ensures
            r.eco@ == NOTHING_TYPED@,
    {
        SondaTecladoMovil { eco: text::owned(NOTHING_TYPED) }
    }
}

impl SondaTecladoMovil {
    /// Echoes the text of the field where it has changed. Tells whether it did.
    pub fn handle_actions(&mut self, changed: Option<&str>) -> (r: bool)
        ensures
            r == (changed is Some),
            match changed {
                Some(t) => final(self).eco@ == TYPED@ + t@ + TYPED_END@,
                None => *final(self) == *old(self),
            },
    {
        match changed {
            Some(t) => {
                let mut echo = text::owned(TYPED);
                text::append_text(&mut echo, t);
                text::append_text(&mut echo, TYPED_END);
                self.eco = echo;
                true
            },
            None => false,
        }
    }
}

/// What is typed is echoed, each text as its own; without a change the echo stays.
pub proof fn law_what_is_typed_is_echoed(
    probe: &mut SondaTecladoMovil,
    changed: Option<&str>,
    r: bool,
    other: &mut SondaTecladoMovil,
    typed: &str,
    s: bool,
)
    requires
        call_ensures(SondaTecladoMovil::handle_actions, (probe, changed), r),
        call_ensures(SondaTecladoMovil::handle_actions, (other, Some(typed)), s),
    ensures
        r <==> changed is Some,
        changed is None ==> final(probe).eco@ == old(probe).eco@,
        changed matches Some(t) ==> text::occurs(final(probe).eco@, t@) && (final(probe).eco@
            == final(other).eco@ <==> t@ == typed@),
{
    match changed {
        Some(t) => {
            text::law_what_occurs_stands_between_the_rest(
                final(probe).eco@,
                t@,
                TYPED@,
                TYPED_END@,
            );
            if final(probe).eco@ == final(other).eco@ {
                text::lemma_middle(TYPED@, t@, typed@, TYPED_END@);
            }
        },
        None => {},
    }
}

} // verus!
