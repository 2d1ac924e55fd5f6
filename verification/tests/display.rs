use makepad_platform::display_context::{DisplayContext, SystemBarAppearance};
use makepad_platform::double::{Vec2d, F64};

fn f(v: f64) -> F64 {
    F64 { bits: v.to_bits() }
}

fn screen(x: f64, y: f64) -> DisplayContext {
    let mut c = DisplayContext::default();
    c.screen_size = Vec2d { x: f(x), y: f(y) };
    c
}

#[test]
fn a_fresh_display_is_unknown_and_unscaled() {
    let c = DisplayContext::default();
    assert_eq!(c.updated_on_event_id, 0);
    assert!(!c.is_screen_size_known());
    assert!(!c.is_desktop());
    assert_eq!(c.text_scale, f(1.0));
    assert_eq!(c.system_bar_appearance, SystemBarAppearance::Auto);
}

#[test]
fn a_desktop_begins_at_860_points() {
    assert!(screen(860.0, 100.0).is_desktop());
    assert!(screen(1920.0, 100.0).is_desktop());
    assert!(!screen(859.999, 100.0).is_desktop());
    assert!(!screen(-900.0, 100.0).is_desktop());
    assert!(!screen(f64::NAN, 100.0).is_desktop());
    let c = DisplayContext::default();
    assert!(c.is_desktop_width(f(f64::INFINITY)));
    assert!(!c.is_desktop_width(f(f64::NEG_INFINITY)));
    assert!(!c.is_desktop_width(f(-0.0)));
}

#[test]
fn a_screen_is_known_by_both_of_its_sides() {
    assert!(screen(1.0, 1.0).is_screen_size_known());
    assert!(!screen(0.0, 1.0).is_screen_size_known());
    assert!(!screen(1.0, -0.0).is_screen_size_known());
    assert!(screen(f64::NAN, -1.0).is_screen_size_known());
}

#[test]
fn lengths_cover_pixels() {
    assert_eq!(f(0.0).to_pixels(), 1);
    assert_eq!(f(-17.0).to_pixels(), 1);
    assert_eq!(f(f64::NAN).to_pixels(), 1);
    assert_eq!(f(1.999).to_pixels(), 1);
    assert_eq!(f(1280.75).to_pixels(), 1280);
    assert_eq!(f(4294967295.5).to_pixels(), u32::MAX);
    assert_eq!(f(4294967296.0).to_pixels(), u32::MAX);
    assert_eq!(f(f64::INFINITY).to_pixels(), u32::MAX);
    for v in [1.0, 2.0, 2.5, 3.0, 719.999, 65535.0, 65536.0, 123456789.125] {
        assert_eq!(f(v).to_pixels(), v as u32);
    }
}

#[test]
fn doubles_compare_by_their_bits() {
    let values = [f64::NEG_INFINITY, -1e300, -2.0, -0.0, 0.0, 1e-310, 1.0, 860.0, f64::INFINITY];
    for a in values {
        for b in values {
            assert_eq!(f(a).is_at_least(f(b)), a >= b);
        }
        assert_eq!(f(a).is_positive(), a > 0.0);
        assert_eq!(f(a).is_not_positive(), a <= 0.0);
        assert_eq!(f(a).is_zero(), a == 0.0);
        assert!(!f(a).is_at_least(f(f64::NAN)));
    }
    assert!(!f(f64::NAN).is_positive());
    assert!(!f(f64::NAN).is_not_positive());
    assert!(f(f64::NAN).is_nan());
}
