use makepad_platform::fragment::{
    fragment_colour, set_u32, shade_plainly, shade_with_derivatives, shift_varyings, write_varyings,
    ByteOrder, RcxLayout,
};
use makepad_platform::single::{Rgba, F32};
use std::cell::RefCell;

fn s(v: f32) -> F32 {
    F32 { bits: v.to_bits() }
}

fn layout() -> RcxLayout {
    RcxLayout { vary_offset: 0, quad_mode_offset: 8, frag_offset: 24 }
}

fn word(buf: &[u8], at: usize) -> u32 {
    u32::from_ne_bytes([buf[at], buf[at + 1], buf[at + 2], buf[at + 3]])
}

fn native() -> ByteOrder {
    if is_little() { ByteOrder::Little } else { ByteOrder::Big }
}

fn is_little() -> bool {
    1u32.to_ne_bytes()[0] == 1
}

#[test]
fn a_word_is_written_in_its_order() {
    let mut buf = vec![0u8; 6];
    set_u32(&mut buf, 1, 0x0102_0304, ByteOrder::Little);
    assert_eq!(buf, vec![0, 4, 3, 2, 1, 0]);
    set_u32(&mut buf, 2, 0x0102_0304, ByteOrder::Big);
    assert_eq!(buf, vec![0, 4, 1, 2, 3, 4]);
    set_u32(&mut buf, 3, 0xffff_ffff, ByteOrder::Big);
    assert_eq!(buf, vec![0, 4, 1, 2, 3, 4]);
    set_u32(&mut buf, usize::MAX, 0xffff_ffff, ByteOrder::Big);
    assert_eq!(buf, vec![0, 4, 1, 2, 3, 4]);
}

#[test]
fn varyings_are_written_one_after_the_other() {
    let mut buf = vec![0u8; 12];
    write_varyings(&mut buf, 4, &vec![s(1.0), s(-2.0)], native());
    assert_eq!(word(&buf, 0), 0);
    assert_eq!(word(&buf, 4), 1.0f32.to_bits());
    assert_eq!(word(&buf, 8), (-2.0f32).to_bits());
}

#[test]
fn a_colour_is_read_where_the_shader_leaves_it() {
    let mut buf = vec![0u8; 40];
    for (i, c) in [0.1f32, 0.2, 0.3, 0.4].iter().enumerate() {
        set_u32(&mut buf, 24 + 4 * i, c.to_bits(), native());
    }
    assert_eq!(
        fragment_colour(&buf, layout(), 1, native()),
        Some(Rgba { r: s(0.1), g: s(0.2), b: s(0.3), a: s(0.4) })
    );
    assert_eq!(fragment_colour(&buf, layout(), 0, native()), None);
}

#[test]
fn a_pixel_is_shaded_with_its_varyings_and_lane() {
    let seen: RefCell<Vec<Vec<u8>>> = RefCell::new(Vec::new());
    let shader = |mut b: Vec<u8>| {
        seen.borrow_mut().push(b.clone());
        for i in 0..4 {
            set_u32(&mut b, 24 + 4 * i, 0.5f32.to_bits(), native());
        }
        (b, 1)
    };
    let (_, colour) =
        shade_plainly(&shader, vec![0u8; 40], layout(), &vec![s(3.0), s(4.0)], 1, 0, native());
    assert_eq!(colour, Some(Rgba { r: s(0.5), g: s(0.5), b: s(0.5), a: s(0.5) }));
    let calls = seen.borrow();
    assert_eq!(calls.len(), 1);
    assert_eq!(word(&calls[0], 0), 3.0f32.to_bits());
    assert_eq!(word(&calls[0], 4), 4.0f32.to_bits());
}

#[test]
fn derivatives_are_recorded_before_a_pixel_is_shaded() {
    let modes: RefCell<Vec<(u32, u32)>> = RefCell::new(Vec::new());
    let shader = |b: Vec<u8>| {
        modes.borrow_mut().push((word(&b, 8), word(&b, 0)));
        (b, 0)
    };
    let (_, colour) = shade_with_derivatives(
        &shader,
        vec![0u8; 40],
        layout(),
        &vec![s(1.0)],
        &vec![s(2.0)],
        &vec![s(3.0)],
        0,
        1,
        false,
        native(),
    );
    assert_eq!(colour, None);
    assert_eq!(
        *modes.borrow(),
        vec![(0, 1.0f32.to_bits()), (1, 2.0f32.to_bits()), (2, 3.0f32.to_bits())]
    );
    modes.borrow_mut().clear();
    shade_with_derivatives(
        &shader,
        vec![0u8; 40],
        layout(),
        &vec![s(1.0)],
        &vec![s(2.0)],
        &vec![s(3.0)],
        0,
        1,
        true,
        native(),
    );
    assert_eq!(modes.borrow().len(), 1);
}

#[test]
fn varyings_are_shifted_from_a_place_on() {
    let plus = |a: F32, b: F32| s(f32::from_bits(a.bits) + f32::from_bits(b.bits));
    assert_eq!(
        shift_varyings(&vec![s(1.0), s(2.0), s(3.0)], &vec![s(10.0), s(20.0), s(30.0), s(40.0)], 1, &plus),
        vec![s(1.0), s(22.0), s(33.0)]
    );
}
