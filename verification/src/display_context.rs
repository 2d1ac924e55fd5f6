//! What adaptive views need to know about the display.

use crate::double;
use crate::double::{Vec2d, F64};
use vstd::prelude::*;

verus! {

/// Controls how the icons and text of the system bars (status bar and navigation
/// bar) are tinted, on platforms that support it.
#[derive(Clone, Copy, Debug, PartialEq, Eq, Structural)]
pub enum SystemBarAppearance {
    /// Dark or light icons, chosen by the luminance of the window's background.
    Auto,
    /// Dark icons and text, for light backgrounds.
    DarkIcons,
    /// Light icons and text, for dark backgrounds.
    LightIcons,
}

impl Default for SystemBarAppearance {
    fn default() -> (r: Self)
        ensures
            r == SystemBarAppearance::Auto,
    {
        SystemBarAppearance::Auto
    }
}

/// The parts of the screen that notches, rounded corners and home indicators take.
#[derive(Clone, Copy, Debug, PartialEq, Eq, Structural)]
pub struct SafeAreaInsets {
    pub left: F64,
    pub top: F64,
    pub right: F64,
    pub bottom: F64,
}

/// The current context data relevant to adaptive views.
#[derive(Clone, Copy, Debug, PartialEq, Eq, Structural)]
pub struct DisplayContext {
    /// The event that last updated the display context.
    pub updated_on_event_id: u64,
    /// The current screen size.
    pub screen_size: Vec2d,
    /// Safe area insets for the current window, in layout points.
    pub safe_area_insets: SafeAreaInsets,
    /// The tint of the system bar icons.
    pub system_bar_appearance: SystemBarAppearance,
    /// The text size multiplier the user asked for in the accessibility settings of
    /// the operating system. 1.0 is normal. It must never be zero: that scales every
    /// glyph to nothing, and the interface goes blank with no error anywhere.
    pub text_scale: F64,
}

impl Default for DisplayContext {
    /// Nothing known yet, and the neutral text multiplier.
    fn default() -> (r: Self)
        ensures
            r.updated_on_event_id == 0,
            r.screen_size == double::vec_of_bits(0, 0),
            r.safe_area_insets.left == double::of_bits(0),
            r.safe_area_insets.top == double::of_bits(0),
            r.safe_area_insets.right == double::of_bits(0),
            r.safe_area_insets.bottom == double::of_bits(0),
            r.system_bar_appearance == SystemBarAppearance::Auto,
            r.text_scale == double::of_bits(double::ONE_BITS),
            r.text_scale.positive(),
    {
        let z = F64 { bits: 0 };
        DisplayContext {
            updated_on_event_id: 0,
            screen_size: Vec2d { x: z, y: z },
            safe_area_insets: SafeAreaInsets { left: z, top: z, right: z, bottom: z },
            system_bar_appearance: SystemBarAppearance::Auto,
            text_scale: F64 { bits: double::ONE_BITS },
        }
    }
}

impl DisplayContext {
    /// Whether the screen is wide enough for the desktop layout: 860 points or more.
    pub fn is_desktop(&self) -> (r: bool)
        ensures
            r == self.screen_size.x.ge(double::of_bits(double::N860_BITS)),
    {
        self.is_desktop_width(self.screen_size.x)
    }

    /// Whether `width` qualifies as the wide desktop layout. Useful as a fallback when
    /// the screen size is not known yet.
    pub fn is_desktop_width(&self, width: F64) -> (r: bool)
        ensures
            r == width.ge(double::of_bits(double::N860_BITS)),
    {
        width.is_at_least(F64 { bits: double::N860_BITS })
    }

    /// Whether both sides of the screen size are other than zero.
    pub fn is_screen_size_known(&self) -> (r: bool)
        ensures
            r == (!self.screen_size.x.zero() && !self.screen_size.y.zero()),
    {
        !self.screen_size.x.is_zero() && !self.screen_size.y.is_zero()
    }
}

/// A screen is one of a desktop from eight hundred and sixty points of width on, and its size
/// is known once neither side is zero.
pub proof fn law_wide_screens_are_desktops(
    context: &DisplayContext,
    width: F64,
    desktop: bool,
    wide: bool,
    known: bool,
)
    requires
        call_ensures(DisplayContext::is_desktop, (context,), desktop),
        call_ensures(DisplayContext::is_desktop_width, (context, width), wide),
        call_ensures(DisplayContext::is_screen_size_known, (context,), known),
    ensures
        width.bits <= 0x7ff0_0000_0000_0000 ==> (wide <==> width.bits >= 0x408a_e000_0000_0000),
        width.bits >= 0x8000_0000_0000_0000 ==> !wide,
        width == context.screen_size.x ==> wide == desktop,
        known <==> context.screen_size.x.bits != 0 && context.screen_size.x.bits
            != 0x8000_0000_0000_0000 && context.screen_size.y.bits != 0 && context.screen_size.y.bits
            != 0x8000_0000_0000_0000,
{
}

} // verus!
