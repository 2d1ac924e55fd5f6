//! Frames as PNG files.

use crate::text;
use makepad_zune_png::zune_core::bit_depth::BitDepth;
use makepad_zune_png::zune_core::colorspace::ColorSpace;
use makepad_zune_png::zune_core::options::EncoderOptions;
use makepad_zune_png::PngEncoder;
use vstd::prelude::*;

verus! {

/// The number of bytes in a data chunk of the file.
pub const CHUNK_LEN: u128 = 8192;

/// The number of bytes in a block of the stream inside of the chunks.
pub const BLOCK_LEN: u128 = 65535;

/// The file that the encoder of the crate `makepad_zune_png` makes of an image of
/// `width` by `height` pixels, with four bytes per pixel.
pub uninterp spec fn png_bytes(width: u32, height: u32, rgba: Seq<u8>) -> Seq<u8>;

/// `a` divided by `b`, rounded up.
pub open spec fn parts(a: int, b: int) -> int {
    (a + b - 1) / b
}

/// The bytes of the rows, each with the byte that names its filter in front.
pub open spec fn filtered_len(width: u32, height: u32) -> int {
    (width * 4 + 1) * height
}

/// The bytes of the stream: it is not compressed, and has a header of two bytes, five
/// bytes in front of each block, and a checksum of four.
pub open spec fn stream_len(width: u32, height: u32) -> int {
    let raw = filtered_len(width, height);
    2 + raw + 5 * parts(raw, BLOCK_LEN as int) + 4
}

/// The bytes of the file: the signature and the header, the stream in chunks with twelve
/// bytes around each, and the end.
pub open spec fn file_len(width: u32, height: u32) -> int {
    let stream = stream_len(width, height);
    33 + stream + 12 * parts(stream, CHUNK_LEN as int) + 12
}

/// The bytes that the encoder sets aside for the file.
pub open spec fn room(width: u32, height: u32) -> int {
    width * (height + 1) * 4 + 2048 + 12 * parts(width * height * 4 + height, CHUNK_LEN as int)
}

/// Whether the encoder can make a file of an image: it has a row, the file fits into the
/// room that is set aside for it, and everything fits into memory.
pub open spec fn encodable(width: u32, height: u32) -> bool {
    &&& height > 0
    &&& file_len(width, height) <= room(width, height)
    &&& room(width, height) <= isize::MAX
    &&& 2 * filtered_len(width, height) + 2048 <= isize::MAX
}

/// Calls `PngEncoder::encode` of the crate `makepad_zune_png` on an encoder that
/// `PngEncoder::new` has made for the pixels with the options of an image of `width` by
/// `height` pixels with four components, red, green, blue and alpha, of eight bits. The
/// file it gives depends on nothing but the size and the pixels.
#[verifier::external_body]
fn encode(width: u32, height: u32, rgba: &[u8]) -> (r: Vec<u8>)
    requires
        rgba@.len() == width * height * 4,
        encodable(width, height),
    ensures
        r@ == png_bytes(width, height, rgba@),
{
    let options = EncoderOptions::default()
        .set_width(width as usize)
        .set_height(height as usize)
        .set_depth(BitDepth::Eight)
        .set_colorspace(ColorSpace::RGBA);
    PngEncoder::new(rgba, options).encode()
}

fn divided(a: u128, b: u128) -> (r: u128)
    requires
        b > 0,
        a + b - 1 <= u128::MAX,
    ensures
        r == parts(a as int, b as int),
{
    (a + (b - 1)) / b
}

/// Whether the encoder can make a file of an image.
pub fn can_encode(width: u32, height: u32) -> (r: bool)
    ensures
        r == encodable(width, height),
{
    if height == 0 {
        return false;
    }
    let w: u128 = width as u128;
    let h: u128 = height as u128;
    proof {
        assert((w * 4 + 1) * h <= 0x8_0000_0000_0000_0000 && 0 <= (w * 4 + 1) * h)
            by (nonlinear_arith)
            requires
                w <= 0xffff_ffff,
                h <= 0xffff_ffff,
        ;
        assert(0 <= w * (h + 1) && w * (h + 1) <= 0x2_0000_0000_0000_0000) by (nonlinear_arith)
            requires
                w <= 0xffff_ffff,
                h <= 0xffff_ffff,
        ;
        assert(0 <= w * h && w * h <= 0x2_0000_0000_0000_0000) by (nonlinear_arith)
            requires
                w <= 0xffff_ffff,
                h <= 0xffff_ffff,
        ;
    }
    let raw: u128 = (w * 4 + 1) * h;
    let blocks: u128 = divided(raw, BLOCK_LEN);
    let stream: u128 = 2 + raw + 5 * blocks + 4;
    let chunks: u128 = divided(stream, CHUNK_LEN);
    let file: u128 = 33 + stream + 12 * chunks + 12;
    let room: u128 = w * (h + 1) * 4 + 2048 + 12 * divided(w * h * 4 + h, CHUNK_LEN);
    let most: u128 = isize::MAX as u128;
    file <= room && room <= most && 2 * raw + 2048 <= most
}

/// What is said of an image that the encoder cannot make a file of.
pub const TOO_LARGE: &'static str = "headless png encode failed: the image does not fit the encoder";

/// What is said of pixels that do not make up the image.
pub open spec fn size_message(expected: nat, got: nat) -> Seq<char> {
    "encode_png_rgba: expected "@ + text::dec_text(expected) + " bytes, got "@ + text::dec_text(
        got,
    )
}

/// Makes a PNG file of an image of `width` by `height` pixels, with four bytes per
/// pixel.
pub fn encode_png_rgba(width: u32, height: u32, rgba: &[u8]) -> (r: Result<Vec<u8>, String>)
    ensures
        match r {
            Ok(file) => {
                &&& width * height * 4 <= usize::MAX
                &&& rgba@.len() == width * height * 4
                &&& encodable(width, height)
                &&& file@ == png_bytes(width, height, rgba@)
            },
            Err(e) => if width * height * 4 > usize::MAX {
                e@ == "rgba size overflow while encoding png"@
            } else if rgba@.len() != width * height * 4 {
                e@ == size_message((width * height * 4) as nat, rgba@.len())
            } else {
                &&& !encodable(width, height)
                &&& e@ == TOO_LARGE@
            },
        },
{
    proof {
        assert(0 <= width * height <= 0xffff_fffe_0000_0001) by (nonlinear_arith)
            requires
                width <= 0xffff_ffff,
                height <= 0xffff_ffff,
        ;
    }
    let pixels: u128 = width as u128 * height as u128;
    if pixels * 4 > usize::MAX as u128 {
        return Err(text::owned("rgba size overflow while encoding png"));
    }
    let expected: u64 = (pixels * 4) as u64;
    let got: usize = rgba.len();
    if got as u64 != expected {
        let mut message = text::owned("encode_png_rgba: expected ");
        text::append_dec(&mut message, expected);
        text::append_text(&mut message, " bytes, got ");
        text::append_dec(&mut message, got as u64);
        assert(message@ =~= size_message(expected as nat, got as nat));
        return Err(message);
    }
    if !can_encode(width, height) {
        return Err(text::owned(TOO_LARGE));
    }
    Ok(encode(width, height, rgba))
}

/// Images of the shape of screens can be encoded: those up to eight thousand one hundred and
/// ninety-two pixels wide that are no higher than wide, and those up to two thousand and
/// forty-eight pixels wide that are no higher than twice that.
pub proof fn law_screens_can_be_encoded(width: u32, height: u32)
    requires
        0 < height,
        (height <= width && width <= 8192) || (height <= 2 * width && width <= 2048),
    ensures
        encodable(width, height),
{
    let (w, h) = (width as int, height as int);
    let raw = filtered_len(width, height);
    let blocks = parts(raw, 65535);
    assert(raw == 4 * w * h + h && w * h * 4 + h == raw && w * (h + 1) * 4 == w * h * 4 + 4 * w
        && 0 <= raw) by (nonlinear_arith)
        requires
            raw == (w * 4 + 1) * h,
            w >= 0,
            h >= 0,
    ;
    assert(raw <= 0x1004_0000) by (nonlinear_arith)
        requires
            raw == (w * 4 + 1) * h,
            0 <= w <= 8192,
            0 <= h <= 8192,
    ;
    assert(65535 * blocks <= raw + 65534);
    if h <= w && w <= 8192 {
        assert(5 * raw <= 196605 * w) by (nonlinear_arith)
            requires
                raw == (w * 4 + 1) * h,
                0 <= h <= w <= 8192,
        ;
        assert(5 * blocks < 3 * w + 6);
    } else {
        assert(5 * raw <= 131070 * w) by (nonlinear_arith)
            requires
                raw == (w * 4 + 1) * h,
                0 <= h <= 2 * w,
                w <= 2048,
        ;
        assert(5 * blocks < 2 * w + 6);
    }
    let stream = stream_len(width, height);
    assert(stream == raw + 6 + 5 * blocks);
    assert(parts(stream, 8192) <= parts(raw, 8192) + 5);
}

/// A file that cannot be made because of the number of its bytes says how many there are and
/// how many there have to be.
pub proof fn law_wrong_sizes_are_told(expected: nat, got: nat)
    ensures
        text::occurs(size_message(expected, got), text::dec_text(expected)),
        text::occurs(size_message(expected, got), text::dec_text(got)),
{
    let said = size_message(expected, got);
    let (e, g) = (text::dec_text(expected), text::dec_text(got));
    let none = Seq::<char>::empty();
    let a = "encode_png_rgba: expected "@;
    let b = " bytes, got "@;
    text::law_what_occurs_stands_between_the_rest(said, e, a, b + g);
    assert(said =~= a + e + (b + g));
    text::law_what_occurs_stands_between_the_rest(said, g, a + e + b, none);
    assert(said =~= a + e + b + g + none);
}

/// An image is encoded exactly if its bytes are four for each pixel and the encoder can take
/// it, with its width and height and those bytes; anything else is refused in words.
pub proof fn law_images_are_encoded_as_they_are(
    width: u32,
    height: u32,
    rgba: &[u8],
    r: Result<Vec<u8>, String>,
    can: bool,
)
    requires
        call_ensures(encode_png_rgba, (width, height, rgba), r),
        call_ensures(can_encode, (width, height), can),
    ensures
        r is Ok <==> width * height * 4 <= usize::MAX && rgba@.len() == width * height * 4 && can,
        r matches Ok(file) ==> file@ == png_bytes(width, height, rgba@),
        r matches Err(e) ==> width * height * 4 > usize::MAX ==> e@
            == "rgba size overflow while encoding png"@,
{
}

} // verus!
