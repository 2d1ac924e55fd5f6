//! The calls of a fragment shader.
//!
//! A compiled shader works on one block of bytes: it holds the uniforms and textures of
//! the draw call, the varyings of the pixel, a few words that say what the call is for,
//! and, after the call, the colour. A shader that uses derivatives is called three times
//! per pixel: twice to record what it computes one pixel to the right and one pixel
//! down, and once for the pixel itself.

use crate::single;
use crate::single::{Rgba, F32};
use vstd::prelude::*;

verus! {

/// The call that records the values one pixel to the right.
pub const MODE_RECORD_X: u32 = 0;

/// The call that records the values one pixel down.
pub const MODE_RECORD_Y: u32 = 1;

/// The call that computes the pixel.
pub const MODE_SHADE: u32 = 2;

/// The order of the bytes of a word in memory.
#[derive(Clone, Copy, Debug, PartialEq, Eq, Structural)]
pub enum ByteOrder {
    Little,
    Big,
}

/// Where the parts of the block stand, in bytes.
#[derive(Clone, Copy, Debug, PartialEq, Eq, Structural)]
pub struct RcxLayout {
    pub vary_offset: usize,
    pub quad_mode_offset: usize,
    pub frag_offset: usize,
}

/// The byte number `n` of a word as it stands in memory.
pub open spec fn byte_at(word: u32, n: int, order: ByteOrder) -> u8 {
    let rank = match order {
        ByteOrder::Little => n,
        ByteOrder::Big => 3 - n,
    };
    (if rank == 0 {
        word as int % 256
    } else if rank == 1 {
        word as int / 256 % 256
    } else if rank == 2 {
        word as int / 65536 % 256
    } else {
        word as int / 16777216
    }) as u8
}

/// The bytes of a word as they stand in memory.
pub open spec fn word_bytes(word: u32, order: ByteOrder) -> Seq<u8> {
    seq![
        byte_at(word, 0, order),
        byte_at(word, 1, order),
        byte_at(word, 2, order),
        byte_at(word, 3, order),
    ]
}

/// The word whose bytes stand at `offset`.
pub open spec fn word_in(buf: Seq<u8>, offset: int, order: ByteOrder) -> u32 {
    let (b0, b1, b2, b3) = match order {
        ByteOrder::Little => (buf[offset], buf[offset + 1], buf[offset + 2], buf[offset + 3]),
        ByteOrder::Big => (buf[offset + 3], buf[offset + 2], buf[offset + 1], buf[offset]),
    };
    (b0 + b1 * 256 + b2 * 65536 + b3 * 16777216) as u32
}

/// The block with `bytes` written at `offset`, or as it was if they do not fit.
pub open spec fn put(buf: Seq<u8>, offset: int, bytes: Seq<u8>) -> Seq<u8> {
    if offset + bytes.len() <= buf.len() {
        Seq::new(
            buf.len(),
            |i: int|
                if offset <= i < offset + bytes.len() {
                    bytes[i - offset]
                } else {
                    buf[i]
                },
        )
    } else {
        buf
    }
}

/// The bytes of some singles, one behind the other.
pub open spec fn bytes_of_singles(values: Seq<F32>, order: ByteOrder) -> Seq<u8> {
    Seq::new(values.len() * 4, |i: int| byte_at(values[i / 4].bits, i % 4, order))
}

/// A word that was written is read back.
pub proof fn law_word_is_read_back(buf: Seq<u8>, offset: int, word: u32, order: ByteOrder)
    requires
        0 <= offset,
        offset + 4 <= buf.len(),
    ensures
        word_in(put(buf, offset, word_bytes(word, order)), offset, order) == word,
{
    let after = put(buf, offset, word_bytes(word, order));
    assert(after[offset] == byte_at(word, 0, order));
    assert(after[offset + 1] == byte_at(word, 1, order));
    assert(after[offset + 2] == byte_at(word, 2, order));
    assert(after[offset + 3] == byte_at(word, 3, order));
    let w = word as int;
    assert(w % 256 + w / 256 % 256 * 256 + w / 65536 % 256 * 65536 + w / 16777216 * 16777216 == w)
        by (nonlinear_arith)
        requires
            0 <= w <= 0xffff_ffff,
    ;
}

fn byte_of_word(word: u32, n: usize, order: ByteOrder) -> (r: u8)
    requires
        n < 4,
    ensures
        r == byte_at(word, n as int, order),
{
    let rank: usize = match order {
        ByteOrder::Little => n,
        ByteOrder::Big => 3 - n,
    };
    let divisor: u32 = if rank == 0 {
        1
    } else if rank == 1 {
        256
    } else if rank == 2 {
        65536
    } else {
        16777216
    };
    (word / divisor % 256) as u8
}

/// Writes a word into the block, if it fits.
pub fn set_u32(buf: &mut Vec<u8>, offset: usize, val: u32, order: ByteOrder)
    ensures
        final(buf)@ == put(old(buf)@, offset as int, word_bytes(val, order)),
{
    let ghost before = buf@;
    let size: usize = buf.len();
    if size >= 4 && offset <= size - 4 {
        buf[offset] = byte_of_word(val, 0, order);
        buf[offset + 1] = byte_of_word(val, 1, order);
        buf[offset + 2] = byte_of_word(val, 2, order);
        buf[offset + 3] = byte_of_word(val, 3, order);
    }
    assert(buf@ =~= put(before, offset as int, word_bytes(val, order)));
}

/// Writes the varyings into the block, if they fit.
pub fn write_varyings(buf: &mut Vec<u8>, offset: usize, varyings: &Vec<F32>, order: ByteOrder)
    ensures
        final(buf)@ == put(old(buf)@, offset as int, bytes_of_singles(varyings@, order)),
{
    let ghost before = buf@;
    let size: usize = buf.len();
    let fits = match varyings.len().checked_mul(4) {
        Some(n) => n <= size && offset <= size - n,
        None => false,
    };
    if !fits {
        return;
    }
    let ghost bytes = bytes_of_singles(varyings@, order);
    let mut i: usize = 0;
    while i < varyings.len()
        invariant
            i <= varyings@.len(),
            bytes == bytes_of_singles(varyings@, order),
            offset + varyings@.len() * 4 <= buf@.len(),
            buf@.len() == size,
            before.len() == size,
            buf@ =~= Seq::new(
                before.len(),
                |j: int|
                    if offset <= j < offset + i * 4 {
                        bytes[j - offset]
                    } else {
                        before[j]
                    },
            ),
        decreases varyings@.len() - i,
    {
        let base: usize = offset + i * 4;
        let word: u32 = varyings[i].bits;
        proof {
            assert((i * 4) / 4 == i && (i * 4) % 4 == 0);
            assert((i * 4 + 1) / 4 == i && (i * 4 + 1) % 4 == 1);
            assert((i * 4 + 2) / 4 == i && (i * 4 + 2) % 4 == 2);
            assert((i * 4 + 3) / 4 == i && (i * 4 + 3) % 4 == 3);
        }
        buf[base] = byte_of_word(word, 0, order);
        buf[base + 1] = byte_of_word(word, 1, order);
        buf[base + 2] = byte_of_word(word, 2, order);
        buf[base + 3] = byte_of_word(word, 3, order);
        i = i + 1;
    }
    assert(buf@ =~= put(before, offset as int, bytes));
}

fn read_word(buf: &Vec<u8>, offset: usize, order: ByteOrder) -> (r: u32)
    requires
        offset + 4 <= buf@.len(),
    ensures
        r == word_in(buf@, offset as int, order),
{
    assert(buf@.len() == buf.len());
    let (b0, b1, b2, b3): (u8, u8, u8, u8) = match order {
        ByteOrder::Little => (buf[offset], buf[offset + 1], buf[offset + 2], buf[offset + 3]),
        ByteOrder::Big => (buf[offset + 3], buf[offset + 2], buf[offset + 1], buf[offset]),
    };
    b0 as u32 + b1 as u32 * 256 + b2 as u32 * 65536 + b3 as u32 * 16777216
}

/// The colour that a shader has left in the block: none if it discarded the pixel, and
/// clear if the block has no place for one.
pub open spec fn colour_in(
    buf: Seq<u8>,
    layout: RcxLayout,
    write_pixel: u32,
    order: ByteOrder,
) -> Option<Rgba> {
    let at = layout.frag_offset as int;
    if write_pixel == 0 {
        None
    } else if at + 16 <= buf.len() {
        Some(
            Rgba {
                r: single::of_bits(word_in(buf, at, order)),
                g: single::of_bits(word_in(buf, at + 4, order)),
                b: single::of_bits(word_in(buf, at + 8, order)),
                a: single::of_bits(word_in(buf, at + 12, order)),
            },
        )
    } else {
        Some(single::clear_colour())
    }
}

/// Reads the colour that a shader has left in the block.
pub fn fragment_colour(
    buf: &Vec<u8>,
    layout: RcxLayout,
    write_pixel: u32,
    order: ByteOrder,
) -> (r: Option<Rgba>)
    ensures
        r == colour_in(buf@, layout, write_pixel, order),
{
    if write_pixel == 0 {
        return None;
    }
    let at: usize = layout.frag_offset;
    let size: usize = buf.len();
    if size >= 16 && at <= size - 16 {
        Some(
            Rgba {
                r: F32 { bits: read_word(buf, at, order) },
                g: F32 { bits: read_word(buf, at + 4, order) },
                b: F32 { bits: read_word(buf, at + 8, order) },
                a: F32 { bits: read_word(buf, at + 12, order) },
            },
        )
    } else {
        let zero = F32 { bits: 0 };
        Some(Rgba { r: zero, g: zero, b: zero, a: zero })
    }
}

/// The block as a call finds it that is made for `mode` with some varyings.
pub open spec fn set_for_call(
    buf: Seq<u8>,
    layout: RcxLayout,
    mode: u32,
    varyings: Seq<F32>,
    order: ByteOrder,
) -> Seq<u8> {
    let at = layout.quad_mode_offset as int;
    let with_varyings = put(buf, layout.vary_offset as int, bytes_of_singles(varyings, order));
    put(put(with_varyings, at, word_bytes(mode, order)), at + 4, word_bytes(0, order))
}

/// The block at the start of a pixel: it says where in its group of four the pixel is.
pub open spec fn set_for_pixel(
    buf: Seq<u8>,
    layout: RcxLayout,
    lane_x: u32,
    lane_y: u32,
    order: ByteOrder,
) -> Seq<u8> {
    let at = layout.quad_mode_offset as int;
    put(put(buf, at + 8, word_bytes(lane_x, order)), at + 12, word_bytes(lane_y, order))
}

fn prepare_call(
    buf: &mut Vec<u8>,
    layout: RcxLayout,
    mode: u32,
    varyings: &Vec<F32>,
    order: ByteOrder,
)
    requires
        layout.quad_mode_offset + 12 <= usize::MAX,
    ensures
        final(buf)@ == set_for_call(old(buf)@, layout, mode, varyings@, order),
{
    write_varyings(buf, layout.vary_offset, varyings, order);
    set_u32(buf, layout.quad_mode_offset, mode, order);
    set_u32(buf, layout.quad_mode_offset + 4, 0, order);
}

fn prepare_pixel(
    buf: &mut Vec<u8>,
    layout: RcxLayout,
    lane_x: u32,
    lane_y: u32,
    order: ByteOrder,
)
    requires
        layout.quad_mode_offset + 12 <= usize::MAX,
    ensures
        final(buf)@ == set_for_pixel(old(buf)@, layout, lane_x, lane_y, order),
{
    set_u32(buf, layout.quad_mode_offset + 8, lane_x, order);
    set_u32(buf, layout.quad_mode_offset + 12, lane_y, order);
}

/// Whether a call of the shader on the block `before`, or leaving it out, gives `after`.
pub open spec fn recorded_by<F: Fn(Vec<u8>) -> (Vec<u8>, u32)>(
    shader: F,
    before: Seq<u8>,
    skipped: bool,
    after: Seq<u8>,
) -> bool {
    if skipped {
        after == before
    } else {
        exists|block: Vec<u8>, end: (Vec<u8>, u32)| #[trigger]
            call_ensures(shader, (block,), end) && block@ == before && end.0@ == after
    }
}

/// Whether shading a pixel without derivatives leaves the block `after` and gives
/// `colour`.
pub open spec fn shaded_plainly<F: Fn(Vec<u8>) -> (Vec<u8>, u32)>(
    shader: F,
    before: Seq<u8>,
    layout: RcxLayout,
    varyings: Seq<F32>,
    order: ByteOrder,
    after: Seq<u8>,
    colour: Option<Rgba>,
) -> bool {
    exists|block: Vec<u8>, end: (Vec<u8>, u32)| #[trigger]
        call_ensures(shader, (block,), end) && block@ == set_for_call(
            before,
            layout,
            MODE_SHADE,
            varyings,
            order,
        ) && end.0@ == after && colour == colour_in(after, layout, end.1, order)
}

/// Whether shading a pixel with derivatives leaves the block `after` and gives `colour`:
/// the two recording calls come first, unless they are left out.
pub open spec fn shaded_with_derivatives<F: Fn(Vec<u8>) -> (Vec<u8>, u32)>(
    shader: F,
    before: Seq<u8>,
    layout: RcxLayout,
    varyings_dx: Seq<F32>,
    varyings_dy: Seq<F32>,
    varyings: Seq<F32>,
    record_noop: bool,
    order: ByteOrder,
    after: Seq<u8>,
    colour: Option<Rgba>,
) -> bool {
    exists|first: Seq<u8>, second: Seq<u8>|
        {
            &&& #[trigger] recorded_by(
                shader,
                set_for_call(before, layout, MODE_RECORD_X, varyings_dx, order),
                record_noop,
                first,
            )
            &&& #[trigger] recorded_by(
                shader,
                set_for_call(first, layout, MODE_RECORD_Y, varyings_dy, order),
                record_noop,
                second,
            )
            &&& shaded_plainly(shader, second, layout, varyings, order, after, colour)
        }
}

/// Shades a pixel with a shader that uses no derivatives: one call. Gives the block back
/// for the next pixel.
pub fn shade_plainly<F: Fn(Vec<u8>) -> (Vec<u8>, u32)>(
    shader: &F,
    block: Vec<u8>,
    layout: RcxLayout,
    varyings: &Vec<F32>,
    lane_x: u32,
    lane_y: u32,
    order: ByteOrder,
) -> (r: (Vec<u8>, Option<Rgba>))
    requires
        layout.quad_mode_offset + 12 <= usize::MAX,
        forall|b: Vec<u8>| call_requires(*shader, (b,)),
    ensures
        shaded_plainly(
            *shader,
            set_for_pixel(block@, layout, lane_x, lane_y, order),
            layout,
            varyings@,
            order,
            r.0@,
            r.1,
        ),
{
    let mut buf: Vec<u8> = block;
    prepare_pixel(&mut buf, layout, lane_x, lane_y, order);
    prepare_call(&mut buf, layout, MODE_SHADE, varyings, order);
    let end: (Vec<u8>, u32) = shader(buf);
    let colour = fragment_colour(&end.0, layout, end.1, order);
    (end.0, colour)
}

/// Shades a pixel with a shader that uses derivatives: two calls that record, unless
/// they are left out, and one for the pixel. Gives the block back for the next pixel.
///
/// Leaving the recording out is a probe and no optimization: the derivatives are then
/// those of another pixel.
pub fn shade_with_derivatives<F: Fn(Vec<u8>) -> (Vec<u8>, u32)>(
    shader: &F,
    block: Vec<u8>,
    layout: RcxLayout,
    varyings_dx: &Vec<F32>,
    varyings_dy: &Vec<F32>,
    varyings: &Vec<F32>,
    lane_x: u32,
    lane_y: u32,
    record_noop: bool,
    order: ByteOrder,
) -> (r: (Vec<u8>, Option<Rgba>))
    requires
        layout.quad_mode_offset + 12 <= usize::MAX,
        forall|b: Vec<u8>| call_requires(*shader, (b,)),
    ensures
        shaded_with_derivatives(
            *shader,
            set_for_pixel(block@, layout, lane_x, lane_y, order),
            layout,
            varyings_dx@,
            varyings_dy@,
            varyings@,
            record_noop,
            order,
            r.0@,
            r.1,
        ),
{
    let mut buf: Vec<u8> = block;
    prepare_pixel(&mut buf, layout, lane_x, lane_y, order);
    prepare_call(&mut buf, layout, MODE_RECORD_X, varyings_dx, order);
    let ghost asked_x = buf@;
    if !record_noop {
        let end: (Vec<u8>, u32) = shader(buf);
        buf = end.0;
    }
    let ghost first = buf@;
    assert(recorded_by(*shader, asked_x, record_noop, first));
    prepare_call(&mut buf, layout, MODE_RECORD_Y, varyings_dy, order);
    let ghost asked_y = buf@;
    if !record_noop {
        let end: (Vec<u8>, u32) = shader(buf);
        buf = end.0;
    }
    let ghost second = buf@;
    assert(recorded_by(*shader, asked_y, record_noop, second));
    prepare_call(&mut buf, layout, MODE_SHADE, varyings, order);
    let end: (Vec<u8>, u32) = shader(buf);
    let colour = fragment_colour(&end.0, layout, end.1, order);
    (end.0, colour)
}

/// The varyings a pixel further on: the first `shift_start` of them are constant over
/// the primitive and stay, to the others the difference is added.
pub fn shift_varyings<A: Fn(F32, F32) -> F32>(
    varyings: &Vec<F32>,
    deltas: &Vec<F32>,
    shift_start: usize,
    plus: &A,
) -> (r: Vec<F32>)
    requires
        varyings@.len() <= deltas@.len(),
        forall|a: F32, b: F32| call_requires(*plus, (a, b)),
    ensures
        r@.len() == varyings@.len(),
        forall|i: int|
            0 <= i < r@.len() ==> if i < shift_start {
                #[trigger] r@[i] == varyings@[i]
            } else {
                call_ensures(*plus, (varyings@[i], deltas@[i]), r@[i])
            },
{
    let mut out: Vec<F32> = Vec::new();
    let mut i: usize = 0;
    while i < varyings.len()
        invariant
            i <= varyings@.len(),
            varyings@.len() <= deltas@.len(),
            forall|a: F32, b: F32| call_requires(*plus, (a, b)),
            out@.len() == i,
            forall|j: int|
                0 <= j < i ==> if j < shift_start {
                    #[trigger] out@[j] == varyings@[j]
                } else {
                    call_ensures(*plus, (varyings@[j], deltas@[j]), out@[j])
                },
        decreases varyings@.len() - i,
    {
        let v: F32 = if i < shift_start {
            varyings[i]
        } else {
            plus(varyings[i], deltas[i])
        };
        out.push(v);
        i = i + 1;
    }
    out
}

/// The bytes of a word stand for it, each for two hundred and fifty-six times what the one
/// below it stands for: in one order the lowest byte comes first, in the other last.
pub proof fn law_bytes_stand_for_the_word(word: u32, order: ByteOrder)
    ensures
        word_bytes(word, order).len() == 4,
        ({
            let b = word_bytes(word, order);
            word == match order {
                ByteOrder::Little => b[0] + 0x100 * b[1] + 0x1_0000 * b[2] + 0x100_0000 * b[3],
                ByteOrder::Big => b[3] + 0x100 * b[2] + 0x1_0000 * b[1] + 0x100_0000 * b[0],
            }
        }),
{
    let w = word as int;
    assert(w % 256 + w / 256 % 256 * 256 + w / 65536 % 256 * 65536 + w / 16777216 * 16777216 == w)
        by (nonlinear_arith)
        requires
            0 <= w <= 0xffff_ffff,
    ;
    assert(0 <= w / 16777216 < 256);
}

/// What stands in four bytes is the word that they stand for.
pub proof fn law_words_are_read_as_they_stand(buf: Seq<u8>, offset: int, word: u32, order: ByteOrder)
    requires
        0 <= offset,
        offset + 4 <= buf.len(),
        word == match order {
            ByteOrder::Little => buf[offset] + 0x100 * buf[offset + 1] + 0x1_0000 * buf[offset + 2]
                + 0x100_0000 * buf[offset + 3],
            ByteOrder::Big => buf[offset + 3] + 0x100 * buf[offset + 2] + 0x1_0000 * buf[offset + 1]
                + 0x100_0000 * buf[offset],
        },
    ensures
        word_in(buf, offset, order) == word,
{
}

/// Words with the same bytes are the same.
pub proof fn law_words_are_told_apart(a: u32, b: u32, order: ByteOrder)
    requires
        word_bytes(a, order) == word_bytes(b, order),
    ensures
        a == b,
{
    law_bytes_stand_for_the_word(a, order);
    law_bytes_stand_for_the_word(b, order);
}

/// Writing to the block changes the bytes that are written, and no others; what does not fit
/// is not written at all.
pub proof fn law_writing_touches_nothing_else(buf: Seq<u8>, offset: int, bytes: Seq<u8>)
    requires
        0 <= offset,
    ensures
        put(buf, offset, bytes).len() == buf.len(),
        offset + bytes.len() > buf.len() ==> put(buf, offset, bytes) == buf,
        offset + bytes.len() <= buf.len() ==> put(buf, offset, bytes).subrange(
            offset,
            offset + bytes.len(),
        ) == bytes,
        forall|i: int|
            0 <= i < buf.len() && !(offset <= i < offset + bytes.len()) ==> #[trigger] put(
                buf,
                offset,
                bytes,
            )[i] == buf[i],
{
    if offset + bytes.len() <= buf.len() {
        assert(put(buf, offset, bytes).subrange(offset, offset + bytes.len()) =~= bytes);
    }
}

/// The bytes of singles stand one behind the other, in the order of the singles.
pub proof fn law_singles_follow_each_other(a: Seq<F32>, b: Seq<F32>, v: F32, order: ByteOrder)
    ensures
        bytes_of_singles(a + b, order) == bytes_of_singles(a, order) + bytes_of_singles(b, order),
        bytes_of_singles(seq![v], order) == word_bytes(v.bits, order),
{
    let joined = bytes_of_singles(a + b, order);
    let apart = bytes_of_singles(a, order) + bytes_of_singles(b, order);
    assert forall|i: int| 0 <= i < joined.len() implies joined[i] == apart[i] by {
        if i >= a.len() * 4 {
            assert((i - a.len() * 4) / 4 == i / 4 - a.len());
            assert((i - a.len() * 4) % 4 == i % 4);
        }
    }
    assert(joined =~= apart);
    assert(bytes_of_singles(seq![v], order) =~= word_bytes(v.bits, order));
}

/// A shader that has discarded a pixel leaves no colour; otherwise its four components stand
/// in the block one behind the other, red first and alpha last.
pub proof fn law_the_colour_is_what_the_shader_left(
    buf: Seq<u8>,
    layout: RcxLayout,
    write_pixel: u32,
    order: ByteOrder,
)
    ensures
        write_pixel == 0 ==> colour_in(buf, layout, write_pixel, order) is None,
        write_pixel != 0 && layout.frag_offset + 16 <= buf.len() ==> (colour_in(
            buf,
            layout,
            write_pixel,
            order,
        ) matches Some(c) && buf.subrange(
            layout.frag_offset as int,
            layout.frag_offset + 16,
        ) == bytes_of_singles(seq![c.r, c.g, c.b, c.a], order)),
        write_pixel != 0 && layout.frag_offset + 16 > buf.len() ==> (colour_in(
            buf,
            layout,
            write_pixel,
            order,
        ) matches Some(c) && c.r.bits == 0 && c.g.bits == 0 && c.b.bits == 0 && c.a.bits == 0),
{
    let at = layout.frag_offset as int;
    if write_pixel != 0 && at + 16 <= buf.len() {
        let c = colour_in(buf, layout, write_pixel, order)->0;
        let part = buf.subrange(at, at + 16);
        let want = bytes_of_singles(seq![c.r, c.g, c.b, c.a], order);
        lemma_word_gives_its_bytes(buf, at, order);
        lemma_word_gives_its_bytes(buf, at + 4, order);
        lemma_word_gives_its_bytes(buf, at + 8, order);
        lemma_word_gives_its_bytes(buf, at + 12, order);
        assert forall|i: int| 0 <= i < 16 implies part[i] == want[i] by {
            assert(i / 4 == 0 || i / 4 == 1 || i / 4 == 2 || i / 4 == 3);
            assert(i % 4 == 0 || i % 4 == 1 || i % 4 == 2 || i % 4 == 3);
        }
        assert(part =~= want);
    }
}

proof fn lemma_word_gives_its_bytes(buf: Seq<u8>, at: int, order: ByteOrder)
    requires
        0 <= at,
        at + 4 <= buf.len(),
    ensures
        byte_at(word_in(buf, at, order), 0, order) == buf[at],
        byte_at(word_in(buf, at, order), 1, order) == buf[at + 1],
        byte_at(word_in(buf, at, order), 2, order) == buf[at + 2],
        byte_at(word_in(buf, at, order), 3, order) == buf[at + 3],
{
    match order {
        ByteOrder::Little => {
            lemma_digits(
                buf[at] as int,
                buf[at + 1] as int,
                buf[at + 2] as int,
                buf[at + 3] as int,
            );
        },
        ByteOrder::Big => {
            lemma_digits(
                buf[at + 3] as int,
                buf[at + 2] as int,
                buf[at + 1] as int,
                buf[at] as int,
            );
        },
    }
}

proof fn lemma_digits(b0: int, b1: int, b2: int, b3: int)
    requires
        0 <= b0 < 256,
        0 <= b1 < 256,
        0 <= b2 < 256,
        0 <= b3 < 256,
    ensures
        ({
            let w = b0 + b1 * 256 + b2 * 65536 + b3 * 16777216;
            &&& 0 <= w <= 0xffff_ffff
            &&& w % 256 == b0
            &&& w / 256 % 256 == b1
            &&& w / 65536 % 256 == b2
            &&& w / 16777216 == b3
        }),
{
    let w = b0 + b1 * 256 + b2 * 65536 + b3 * 16777216;
    assert(w / 256 == b1 + b2 * 256 + b3 * 65536);
    assert(w / 65536 == b2 + b3 * 256);
}

/// A call finds in the block what it is made for, that nothing is written yet, where in its
/// group of four the pixel is, and the varyings, if all that fits and does not overlap.
pub proof fn law_a_shader_is_told_what_it_is_called_for(
    buf: Seq<u8>,
    layout: RcxLayout,
    mode: u32,
    varyings: Seq<F32>,
    lane_x: u32,
    lane_y: u32,
    order: ByteOrder,
)
    requires
        layout.quad_mode_offset + 16 <= buf.len(),
        layout.vary_offset + varyings.len() * 4 <= buf.len(),
        layout.vary_offset + varyings.len() * 4 <= layout.quad_mode_offset
            || layout.quad_mode_offset + 16 <= layout.vary_offset,
    ensures
        ({
            let block = set_for_call(
                set_for_pixel(buf, layout, lane_x, lane_y, order),
                layout,
                mode,
                varyings,
                order,
            );
            let at = layout.quad_mode_offset as int;
            let from = layout.vary_offset as int;
            &&& block.len() == buf.len()
            &&& block.subrange(at, at + 4) == word_bytes(mode, order)
            &&& block.subrange(at + 4, at + 8) == word_bytes(0, order)
            &&& block.subrange(at + 8, at + 12) == word_bytes(lane_x, order)
            &&& block.subrange(at + 12, at + 16) == word_bytes(lane_y, order)
            &&& block.subrange(from, from + varyings.len() * 4) == bytes_of_singles(
                varyings,
                order,
            )
            &&& forall|i: int|
                0 <= i < buf.len() && !(at <= i < at + 16) && !(from <= i < from + varyings.len()
                    * 4) ==> #[trigger] block[i] == buf[i]
        }),
{
    let at = layout.quad_mode_offset as int;
    let from = layout.vary_offset as int;
    let block = set_for_call(
        set_for_pixel(buf, layout, lane_x, lane_y, order),
        layout,
        mode,
        varyings,
        order,
    );
    assert(block.subrange(at, at + 4) =~= word_bytes(mode, order));
    assert(block.subrange(at + 4, at + 8) =~= word_bytes(0, order));
    assert(block.subrange(at + 8, at + 12) =~= word_bytes(lane_x, order));
    assert(block.subrange(at + 12, at + 16) =~= word_bytes(lane_y, order));
    assert(block.subrange(from, from + varyings.len() * 4) =~= bytes_of_singles(varyings, order));
}

/// A pixel has the colour that the shader gave when it was last called: with the varyings of
/// the pixel itself, in the mode two.
pub proof fn law_the_last_call_gives_the_colour<F: Fn(Vec<u8>) -> (Vec<u8>, u32)>(
    shader: F,
    before: Seq<u8>,
    layout: RcxLayout,
    varyings: Seq<F32>,
    order: ByteOrder,
    after: Seq<u8>,
    colour: Option<Rgba>,
)
    requires
        shaded_plainly(shader, before, layout, varyings, order, after, colour),
    ensures
        exists|block: Vec<u8>, end: (Vec<u8>, u32)| #[trigger]
            call_ensures(shader, (block,), end) && block@ == set_for_call(
                before,
                layout,
                2,
                varyings,
                order,
            ) && end.0@ == after && colour == colour_in(end.0@, layout, end.1, order),
{
}

/// A shader that uses derivatives is called first for the pixel to the right, in the mode
/// zero, then for the pixel below, in the mode one, each on the block that the call before it
/// has left, and last for the pixel itself.
pub proof fn law_derivatives_are_recorded_first<F: Fn(Vec<u8>) -> (Vec<u8>, u32)>(
    shader: F,
    before: Seq<u8>,
    layout: RcxLayout,
    varyings_dx: Seq<F32>,
    varyings_dy: Seq<F32>,
    varyings: Seq<F32>,
    order: ByteOrder,
    after: Seq<u8>,
    colour: Option<Rgba>,
)
    requires
        shaded_with_derivatives(
            shader,
            before,
            layout,
            varyings_dx,
            varyings_dy,
            varyings,
            false,
            order,
            after,
            colour,
        ),
    ensures
        exists|
            right: Vec<u8>,
            right_end: (Vec<u8>, u32),
            below: Vec<u8>,
            below_end: (Vec<u8>, u32),
        |
            {
                &&& #[trigger] call_ensures(shader, (right,), right_end)
                &&& right@ == set_for_call(before, layout, 0, varyings_dx, order)
                &&& #[trigger] call_ensures(shader, (below,), below_end)
                &&& below@ == set_for_call(right_end.0@, layout, 1, varyings_dy, order)
                &&& shaded_plainly(shader, below_end.0@, layout, varyings, order, after, colour)
            },
{
    let (first, second) = choose|first: Seq<u8>, second: Seq<u8>|
        {
            &&& #[trigger] recorded_by(
                shader,
                set_for_call(before, layout, MODE_RECORD_X, varyings_dx, order),
                false,
                first,
            )
            &&& #[trigger] recorded_by(
                shader,
                set_for_call(first, layout, MODE_RECORD_Y, varyings_dy, order),
                false,
                second,
            )
            &&& shaded_plainly(shader, second, layout, varyings, order, after, colour)
        };
    let (right, right_end) = choose|block: Vec<u8>, end: (Vec<u8>, u32)| #[trigger]
        call_ensures(shader, (block,), end) && block@ == set_for_call(
            before,
            layout,
            MODE_RECORD_X,
            varyings_dx,
            order,
        ) && end.0@ == first;
    let (below, below_end) = choose|block: Vec<u8>, end: (Vec<u8>, u32)| #[trigger]
        call_ensures(shader, (block,), end) && block@ == set_for_call(
            first,
            layout,
            MODE_RECORD_Y,
            varyings_dy,
            order,
        ) && end.0@ == second;
    assert(call_ensures(shader, (right,), right_end));
    assert(call_ensures(shader, (below,), below_end));
}

/// A word that is written is found at its offset in the byte order that was asked for, what
/// is written of singles is their words one behind the other, and every other byte stays.
pub proof fn law_what_is_written_is_found(
    buf: &mut Vec<u8>,
    offset: usize,
    val: u32,
    order: ByteOrder,
    other: &mut Vec<u8>,
    varyings: &Vec<F32>,
    i: int,
    k: int,
)
    requires
        call_ensures(set_u32, (buf, offset, val, order), ()),
        call_ensures(write_varyings, (other, offset, varyings, order), ()),
        0 <= i < old(buf)@.len(),
        0 <= k < varyings@.len(),
    ensures
        final(buf)@.len() == old(buf)@.len(),
        offset + 4 > old(buf)@.len() || i < offset || i >= offset + 4 ==> final(buf)@[i] == old(
            buf,
        )@[i],
        offset + 4 <= old(buf)@.len() ==> ({
            let b = final(buf)@.subrange(offset as int, offset + 4);
            val == match order {
                ByteOrder::Little => b[0] + 0x100 * b[1] + 0x1_0000 * b[2] + 0x100_0000 * b[3],
                ByteOrder::Big => b[3] + 0x100 * b[2] + 0x1_0000 * b[1] + 0x100_0000 * b[0],
            }
        }),
        final(other)@.len() == old(other)@.len(),
        offset + varyings@.len() * 4 > old(other)@.len() ==> final(other)@ == old(other)@,
        offset + varyings@.len() * 4 <= old(other)@.len() ==> ({
            let b = final(other)@.subrange(offset + k * 4, offset + k * 4 + 4);
            varyings@[k].bits == match order {
                ByteOrder::Little => b[0] + 0x100 * b[1] + 0x1_0000 * b[2] + 0x100_0000 * b[3],
                ByteOrder::Big => b[3] + 0x100 * b[2] + 0x1_0000 * b[1] + 0x100_0000 * b[0],
            }
        }),
        offset + varyings@.len() * 4 <= old(other)@.len() ==> final(other)@.take(offset as int)
            == old(other)@.take(offset as int) && final(other)@.skip(
            offset + varyings@.len() * 4,
        ) == old(other)@.skip(offset + varyings@.len() * 4),
{
    law_bytes_stand_for_the_word(val, order);
    law_bytes_stand_for_the_word(varyings@[k].bits, order);
    law_writing_touches_nothing_else(old(buf)@, offset as int, word_bytes(val, order));
    let bytes = bytes_of_singles(varyings@, order);
    law_writing_touches_nothing_else(old(other)@, offset as int, bytes);
    if offset + varyings@.len() * 4 <= old(other)@.len() {
        let b = final(other)@.subrange(offset + k * 4, offset + k * 4 + 4);
        assert((k * 4) / 4 == k && (k * 4 + 1) / 4 == k && (k * 4 + 2) / 4 == k && (k * 4 + 3) / 4
            == k);
        assert(b =~= word_bytes(varyings@[k].bits, order));
        assert(final(other)@.take(offset as int) =~= old(other)@.take(offset as int));
        assert(final(other)@.skip(offset + varyings@.len() * 4) =~= old(other)@.skip(
            offset + varyings@.len() * 4,
        ));
    }
}

/// The colour that comes back has its red, green, blue and alpha from the words that stand one
/// behind the other where the shader leaves them; a pixel that it discards has none.
pub proof fn law_the_colour_is_read_from_the_block(
    buf: &Vec<u8>,
    layout: RcxLayout,
    write_pixel: u32,
    order: ByteOrder,
    r: Option<Rgba>,
)
    requires
        call_ensures(fragment_colour, (buf, layout, write_pixel, order), r),
    ensures
        r is None <==> write_pixel == 0,
        r matches Some(c) ==> layout.frag_offset + 16 <= buf@.len() ==> ({
            let at = layout.frag_offset as int;
            &&& word_bytes(c.r.bits, order) == buf@.subrange(at, at + 4)
            &&& word_bytes(c.g.bits, order) == buf@.subrange(at + 4, at + 8)
            &&& word_bytes(c.b.bits, order) == buf@.subrange(at + 8, at + 12)
            &&& word_bytes(c.a.bits, order) == buf@.subrange(at + 12, at + 16)
        }),
        r matches Some(c) ==> layout.frag_offset + 16 > buf@.len() ==> c.r.bits == 0 && c.g.bits
            == 0 && c.b.bits == 0 && c.a.bits == 0,
{
    match r {
        Some(c) if layout.frag_offset + 16 <= buf@.len() => {
            let at = layout.frag_offset as int;
            lemma_word_gives_its_bytes(buf@, at, order);
            lemma_word_gives_its_bytes(buf@, at + 4, order);
            lemma_word_gives_its_bytes(buf@, at + 8, order);
            lemma_word_gives_its_bytes(buf@, at + 12, order);
            assert(word_bytes(c.r.bits, order) =~= buf@.subrange(at, at + 4));
            assert(word_bytes(c.g.bits, order) =~= buf@.subrange(at + 4, at + 8));
            assert(word_bytes(c.b.bits, order) =~= buf@.subrange(at + 8, at + 12));
            assert(word_bytes(c.a.bits, order) =~= buf@.subrange(at + 12, at + 16));
        },
        _ => {},
    }
}

/// A pixel is shaded by a call of the shader that finds in the block the mode two, nothing
/// written, the pixel's place in its group of four and the pixel's own varyings; the pixel
/// has the colour that this call leaves.
pub proof fn law_a_pixel_is_shaded_with_its_varyings<F: Fn(Vec<u8>) -> (Vec<u8>, u32)>(
    shader: &F,
    block: Vec<u8>,
    layout: RcxLayout,
    varyings: &Vec<F32>,
    lane_x: u32,
    lane_y: u32,
    order: ByteOrder,
    r: (Vec<u8>, Option<Rgba>),
)
    requires
        layout.quad_mode_offset + 16 <= block@.len(),
        layout.vary_offset + varyings@.len() * 4 <= block@.len(),
        layout.vary_offset + varyings@.len() * 4 <= layout.quad_mode_offset
            || layout.quad_mode_offset + 16 <= layout.vary_offset,
        call_ensures(
            shade_plainly::<F>,
            (shader, block, layout, varyings, lane_x, lane_y, order),
            r,
        ),
    ensures
        exists|found: Vec<u8>, end: (Vec<u8>, u32)|
            {
                let at = layout.quad_mode_offset as int;
                let from = layout.vary_offset as int;
                &&& #[trigger] call_ensures(*shader, (found,), end)
                &&& found@.len() == block@.len()
                &&& found@.subrange(at, at + 4) == word_bytes(2, order)
                &&& found@.subrange(at + 4, at + 8) == word_bytes(0, order)
                &&& found@.subrange(at + 8, at + 12) == word_bytes(lane_x, order)
                &&& found@.subrange(at + 12, at + 16) == word_bytes(lane_y, order)
                &&& found@.subrange(from, from + varyings@.len() * 4) == bytes_of_singles(
                    varyings@,
                    order,
                )
                &&& r.0@ == end.0@
                &&& r.1 is None <==> end.1 == 0
                &&& r.1 == colour_in(end.0@, layout, end.1, order)
            },
{
    law_a_shader_is_told_what_it_is_called_for(
        block@,
        layout,
        2,
        varyings@,
        lane_x,
        lane_y,
        order,
    );
}

/// For a derivative every varying is shifted by its own delta, except the flat ones in front.
pub proof fn law_flat_varyings_are_not_shifted<A: Fn(F32, F32) -> F32>(
    varyings: &Vec<F32>,
    deltas: &Vec<F32>,
    shift_start: usize,
    plus: &A,
    r: Vec<F32>,
    i: int,
)
    requires
        call_ensures(shift_varyings::<A>, (varyings, deltas, shift_start, plus), r),
        0 <= i < varyings@.len(),
    ensures
        r@.len() == varyings@.len(),
        i < shift_start ==> r@[i] == varyings@[i],
        i >= shift_start ==> call_ensures(*plus, (varyings@[i], deltas@[i]), r@[i]),
{
    let shifted = r@[i];
}

/// A shader that uses derivatives is called three times for a pixel, each time on the block
/// that the call before it has left: with the varyings of the pixel to the right, with those
/// of the pixel below, and with those of the pixel itself, which gives the colour.
pub proof fn law_a_pixel_with_derivatives_is_shaded_last<F: Fn(Vec<u8>) -> (Vec<u8>, u32)>(
    shader: &F,
    block: Vec<u8>,
    layout: RcxLayout,
    varyings_dx: &Vec<F32>,
    varyings_dy: &Vec<F32>,
    varyings: &Vec<F32>,
    lane_x: u32,
    lane_y: u32,
    order: ByteOrder,
    r: (Vec<u8>, Option<Rgba>),
)
    requires
        call_ensures(
            shade_with_derivatives::<F>,
            (
                shader,
                block,
                layout,
                varyings_dx,
                varyings_dy,
                varyings,
                lane_x,
                lane_y,
                false,
                order,
            ),
            r,
        ),
    ensures
        exists|
            right: Vec<u8>,
            right_end: (Vec<u8>, u32),
            below: Vec<u8>,
            below_end: (Vec<u8>, u32),
        |
            {
                let start = set_for_pixel(block@, layout, lane_x, lane_y, order);
                &&& #[trigger] call_ensures(*shader, (right,), right_end)
                &&& right@ == set_for_call(start, layout, 0, varyings_dx@, order)
                &&& #[trigger] call_ensures(*shader, (below,), below_end)
                &&& below@ == set_for_call(right_end.0@, layout, 1, varyings_dy@, order)
                &&& exists|own: Vec<u8>, end: (Vec<u8>, u32)| #[trigger]
                    call_ensures(*shader, (own,), end) && own@ == set_for_call(
                        below_end.0@,
                        layout,
                        2,
                        varyings@,
                        order,
                    ) && end.0@ == r.0@ && r.1 == colour_in(end.0@, layout, end.1, order)
            },
{
    law_derivatives_are_recorded_first(
        *shader,
        set_for_pixel(block@, layout, lane_x, lane_y, order),
        layout,
        varyings_dx@,
        varyings_dy@,
        varyings@,
        order,
        r.0@,
        r.1,
    );
}

} // verus!
