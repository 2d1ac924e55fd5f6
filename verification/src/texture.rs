//! Textures as the software renderer reads them: four singles per pixel, red first.
//!
//! Textures in other formats are converted, and the conversions are kept. The glyph
//! atlas is the case that matters: it is large, it is used by many draw calls of a
//! frame, and it arrives marked as changed. Its content does not change while a frame
//! is painted, so one conversion per frame is enough; and once a frame is done the mark
//! is taken away, so that the next frame finds the conversion it needs.

use crate::single::F32;
use std::collections::HashMap;
use vstd::prelude::*;

verus! {

broadcast use vstd::std_specs::hash::group_hash_axioms;

/// The number of values of a byte.
pub const LEVELS: usize = 256;

/// The pixels of a texture, as they were handed over. `updated` says that they have
/// changed since they were last consumed.
#[allow(inconsistent_fields)]
pub enum TextureFormat {
    /// Four singles per pixel: used as they are.
    Rgba { width: usize, height: usize, data: Option<Vec<F32>> },
    /// One word per pixel, blue in the lowest byte.
    Bgra { width: usize, height: usize, data: Option<Vec<u32>>, updated: bool },
    /// Six faces with one word per pixel, blue in the lowest byte.
    CubeBgra { width: usize, height: usize, data: Option<Vec<u32>>, updated: bool },
    /// One byte per pixel.
    Gray { width: usize, height: usize, data: Option<Vec<u8>>, updated: bool },
    /// One single per pixel.
    GrayF { width: usize, height: usize, data: Option<Vec<F32>>, updated: bool },
    /// Nothing that can be read here.
    Other,
}

/// A texture.
pub struct CxTexture {
    pub format: TextureFormat,
    /// Where its data stand in memory.
    pub data_ptr: usize,
}

/// What a conversion was made from. A conversion serves as long as this stays the same.
#[derive(Clone, Copy, Debug, PartialEq, Eq, Structural)]
pub struct TextureConversionSignature {
    pub kind: u8,
    pub width: usize,
    pub height: usize,
    pub data_ptr: usize,
    pub data_len: usize,
}

/// A conversion that is kept.
pub struct CachedTextureConversion {
    pub signature: TextureConversionSignature,
    pub rgba: Vec<F32>,
}

/// The conversions that are kept, by texture.
pub type TextureConversionCache = HashMap<usize, CachedTextureConversion>;

/// How many conversions were made, and of how many pixels. The counts start again from
/// zero when they pass the largest number.
#[derive(Clone, Copy, Debug, PartialEq, Eq, Structural)]
pub struct ConversionCounters {
    pub conversions: usize,
    pub converted_px: usize,
}

/// Where the singles of a texture are found.
#[derive(Clone, Copy, Debug, PartialEq, Eq, Structural)]
pub enum TextureSource {
    /// In the texture itself.
    Own,
    /// Among the conversions that are kept.
    Converted,
    /// Nowhere: there is no texture, or it cannot be read.
    Missing,
}

/// What a shader is told of a texture.
#[derive(Clone, Copy, Debug, PartialEq, Eq, Structural)]
pub struct TextureInfo {
    pub source: TextureSource,
    /// The number of singles.
    pub len: usize,
    pub width: usize,
    pub height: usize,
}

/// What is kept of a conversion, in mathematical terms.
pub open spec fn kept(
    cache: Map<usize, CachedTextureConversion>,
) -> Map<usize, (TextureConversionSignature, Seq<F32>)> {
    Map::new(
        |k: usize| cache.contains_key(k),
        |k: usize| (cache[k].signature, cache[k].rgba@),
    )
}

/// The byte number `n` of a word, the lowest first.
pub open spec fn byte_of(word: u32, n: int) -> int {
    if n == 0 {
        word as int % 256
    } else if n == 1 {
        word as int / 256 % 256
    } else if n == 2 {
        word as int / 65536 % 256
    } else {
        word as int / 16777216
    }
}

/// The singles of words with blue in the lowest byte, red first: `levels` says which
/// single stands for which byte.
pub open spec fn rgba_of_words(words: Seq<u32>, levels: Seq<F32>) -> Seq<F32> {
    Seq::new(
        words.len() * 4,
        |i: int|
            {
                let word = words[i / 4];
                levels[if i % 4 == 0 {
                    byte_of(word, 2)
                } else if i % 4 == 1 {
                    byte_of(word, 1)
                } else if i % 4 == 2 {
                    byte_of(word, 0)
                } else {
                    byte_of(word, 3)
                }]
            },
    )
}

/// Each value four times: once for each component.
pub open spec fn rgba_of_gray(values: Seq<F32>) -> Seq<F32> {
    Seq::new(values.len() * 4, |i: int| values[i / 4])
}

/// The singles that stand for some bytes.
pub open spec fn levels_of(bytes: Seq<u8>, levels: Seq<F32>) -> Seq<F32> {
    Seq::new(bytes.len(), |i: int| levels[bytes[i] as int])
}

/// The first `n` of some values, as far as there are that many.
pub open spec fn at_most<T>(values: Seq<T>, n: int) -> Seq<T> {
    if n < values.len() {
        values.take(n)
    } else {
        values
    }
}

/// What is converted of a texture: what it is converted from, whether that has
/// changed, and the singles.
pub struct Conversion {
    pub signature: TextureConversionSignature,
    pub updated: bool,
    pub rgba: Seq<F32>,
}

impl CxTexture {
    /// What is converted of the texture; none if it is used as it is, or cannot be read.
    pub open spec fn conversion(&self, levels: Seq<F32>) -> Option<Conversion> {
        match self.format {
            TextureFormat::Bgra { width, height, data: Some(data), updated } => Some(
                Conversion {
                    signature: self.signed(1, width, height, data@.len()),
                    updated,
                    rgba: rgba_of_words(data@, levels),
                },
            ),
            TextureFormat::CubeBgra { width, height, data: Some(data), updated } => Some(
                Conversion {
                    signature: self.signed(4, width, height, data@.len()),
                    updated,
                    rgba: rgba_of_words(at_most(data@, width * height * 6), levels),
                },
            ),
            TextureFormat::Gray { width, height, data: Some(data), updated } => Some(
                Conversion {
                    signature: self.signed(2, width, height, data@.len()),
                    updated,
                    rgba: rgba_of_gray(levels_of(at_most(data@, width * height), levels)),
                },
            ),
            TextureFormat::GrayF { width, height, data: Some(data), updated } => Some(
                Conversion {
                    signature: self.signed(3, width, height, data@.len()),
                    updated,
                    rgba: rgba_of_gray(at_most(data@, width * height)),
                },
            ),
            _ => None,
        }
    }

    pub open spec fn signed(
        &self,
        kind: u8,
        width: usize,
        height: usize,
        len: nat,
    ) -> TextureConversionSignature {
        TextureConversionSignature {
            kind,
            width,
            height,
            data_ptr: self.data_ptr,
            data_len: len as usize,
        }
    }

    /// Whether the singles of the texture can be counted and held in memory.
    pub open spec fn fits(&self) -> bool {
        match self.format {
            TextureFormat::Bgra { width, height, data: Some(data), .. } => {
                &&& width * height <= usize::MAX
                &&& data@.len() * 16 <= isize::MAX
            },
            TextureFormat::CubeBgra { width, height, data: Some(data), .. } => {
                width * height * 96 <= isize::MAX
            },
            TextureFormat::Gray { width, height, data: Some(data), .. } => {
                width * height * 16 <= isize::MAX
            },
            TextureFormat::GrayF { width, height, data: Some(data), .. } => {
                width * height * 16 <= isize::MAX
            },
            _ => true,
        }
    }
}

/// Whether a texture has to be converted before it is used: there is no conversion of
/// what it is made from, or it has changed since and was not converted in this frame.
pub open spec fn must_convert(
    cache: Map<usize, (TextureConversionSignature, Seq<F32>)>,
    texture_index: usize,
    conversion: Conversion,
    already_converted_this_frame: bool,
) -> bool {
    ||| !cache.contains_key(texture_index)
    ||| cache[texture_index].0 != conversion.signature
    ||| conversion.updated && !already_converted_this_frame
    ||| cache[texture_index].1.len() == 0
}

/// What is kept after a texture was used.
pub open spec fn kept_after(
    cache: Map<usize, (TextureConversionSignature, Seq<F32>)>,
    texture_index: usize,
    conversion: Option<Conversion>,
    already_converted_this_frame: bool,
) -> Map<usize, (TextureConversionSignature, Seq<F32>)> {
    match conversion {
        Some(c) => if must_convert(cache, texture_index, c, already_converted_this_frame) {
            cache.insert(texture_index, (c.signature, c.rgba))
        } else {
            cache
        },
        None => cache,
    }
}

/// The counts after a texture was used.
pub open spec fn counted_after(
    counters: ConversionCounters,
    cache: Map<usize, (TextureConversionSignature, Seq<F32>)>,
    texture_index: usize,
    conversion: Option<Conversion>,
    already_converted_this_frame: bool,
) -> ConversionCounters {
    match conversion {
        Some(c) => if must_convert(cache, texture_index, c, already_converted_this_frame) {
            ConversionCounters {
                conversions: counters.conversions.wrapping_add(1),
                converted_px: counters.converted_px.wrapping_add(
                    (c.signature.width * c.signature.height) as usize,
                ),
            }
        } else {
            counters
        },
        None => counters,
    }
}

/// What a shader is told of a texture: none if the texture cannot be read.
pub open spec fn info_of(
    texture: &CxTexture,
    cache_after: Map<usize, (TextureConversionSignature, Seq<F32>)>,
    texture_index: usize,
    levels: Seq<F32>,
) -> Option<TextureInfo> {
    match texture.format {
        TextureFormat::Rgba { width, height, data: Some(data) } => Some(
            TextureInfo { source: TextureSource::Own, len: data@.len() as usize, width, height },
        ),
        _ => match texture.conversion(levels) {
            Some(c) => Some(
                TextureInfo {
                    source: TextureSource::Converted,
                    len: cache_after[texture_index].1.len() as usize,
                    width: c.signature.width,
                    height: c.signature.height,
                },
            ),
            None => None,
        },
    }
}

fn word_byte(word: u32, n: u32) -> (r: usize)
    requires
        n < 4,
    ensures
        r == byte_of(word, n as int),
        r < 256,
{
    let divisor: u32 = if n == 0 {
        1
    } else if n == 1 {
        256
    } else if n == 2 {
        65536
    } else {
        16777216
    };
    (word / divisor % 256) as usize
}

/// The singles of the first `count` words.
fn convert_words(words: &Vec<u32>, count: usize, levels: &Vec<F32>) -> (r: Vec<F32>)
    requires
        count <= words@.len(),
        levels@.len() == LEVELS,
    ensures
        r@ == rgba_of_words(words@.take(count as int), levels@),
{
    let ghost first = words@.take(count as int);
    let mut out: Vec<F32> = Vec::new();
    let mut i: usize = 0;
    while i < count
        invariant
            i <= count,
            count <= words@.len(),
            levels@.len() == LEVELS,
            first == words@.take(count as int),
            out@.len() == i * 4,
            forall|j: int|
                0 <= j < out@.len() ==> #[trigger] out@[j] == rgba_of_words(first, levels@)[j],
        decreases count - i,
    {
        let word: u32 = words[i];
        proof {
            assert(first[i as int] == word);
        }
        out.push(levels[word_byte(word, 2)]);
        out.push(levels[word_byte(word, 1)]);
        out.push(levels[word_byte(word, 0)]);
        out.push(levels[word_byte(word, 3)]);
        proof {
            let all = rgba_of_words(first, levels@);
            assert((i * 4) / 4 == i && (i * 4) % 4 == 0);
            assert((i * 4 + 1) / 4 == i && (i * 4 + 1) % 4 == 1);
            assert((i * 4 + 2) / 4 == i && (i * 4 + 2) % 4 == 2);
            assert((i * 4 + 3) / 4 == i && (i * 4 + 3) % 4 == 3);
            assert(out@[i * 4] == all[i * 4]);
            assert(out@[i * 4 + 1] == all[i * 4 + 1]);
            assert(out@[i * 4 + 2] == all[i * 4 + 2]);
            assert(out@[i * 4 + 3] == all[i * 4 + 3]);
        }
        i = i + 1;
    }
    assert(out@ =~= rgba_of_words(first, levels@));
    out
}

/// The singles of the first `count` gray values.
fn convert_gray(values: &Vec<F32>, count: usize) -> (r: Vec<F32>)
    requires
        count <= values@.len(),
    ensures
        r@ == rgba_of_gray(values@.take(count as int)),
{
    let ghost first = values@.take(count as int);
    let mut out: Vec<F32> = Vec::new();
    let mut i: usize = 0;
    while i < count
        invariant
            i <= count,
            count <= values@.len(),
            first == values@.take(count as int),
            out@.len() == i * 4,
            forall|j: int| 0 <= j < out@.len() ==> #[trigger] out@[j] == first[j / 4],
        decreases count - i,
    {
        let v: F32 = values[i];
        proof {
            assert(first[i as int] == v);
        }
        out.push(v);
        out.push(v);
        out.push(v);
        out.push(v);
        i = i + 1;
    }
    assert(out@ =~= rgba_of_gray(first));
    out
}

/// The singles that stand for the first `count` bytes.
fn convert_bytes(bytes: &Vec<u8>, count: usize, levels: &Vec<F32>) -> (r: Vec<F32>)
    requires
        count <= bytes@.len(),
        levels@.len() == LEVELS,
    ensures
        r@ == rgba_of_gray(levels_of(bytes@.take(count as int), levels@)),
{
    let ghost first = bytes@.take(count as int);
    let mut out: Vec<F32> = Vec::new();
    let mut i: usize = 0;
    while i < count
        invariant
            i <= count,
            count <= bytes@.len(),
            levels@.len() == LEVELS,
            first == bytes@.take(count as int),
            out@.len() == i * 4,
            forall|j: int|
                0 <= j < out@.len() ==> #[trigger] out@[j] == levels@[first[j / 4] as int],
        decreases count - i,
    {
        let v: F32 = levels[bytes[i] as usize];
        proof {
            assert(first[i as int] == bytes@[i as int]);
        }
        out.push(v);
        out.push(v);
        out.push(v);
        out.push(v);
        i = i + 1;
    }
    assert(out@ =~= rgba_of_gray(levels_of(first, levels@)));
    out
}

fn smaller_of(a: usize, b: usize) -> (r: usize)
    ensures
        r == if a <= b {
            a
        } else {
            b
        },
{
    if a <= b {
        a
    } else {
        b
    }
}

/// Whether a kept conversion serves: it was made from the same data, it holds anything,
/// and the data have not changed since, or were converted in this frame.
fn serves(
    cache: &TextureConversionCache,
    texture_index: usize,
    signature: TextureConversionSignature,
    updated: bool,
    already_converted_this_frame: bool,
) -> (r: Option<usize>)
    ensures
        match r {
            Some(len) => {
                &&& cache@.contains_key(texture_index)
                &&& cache@[texture_index].signature == signature
                &&& !updated || already_converted_this_frame
                &&& cache@[texture_index].rgba@.len() == len > 0
            },
            None => {
                ||| !cache@.contains_key(texture_index)
                ||| cache@[texture_index].signature != signature
                ||| updated && !already_converted_this_frame
                ||| cache@[texture_index].rgba@.len() == 0
            },
        },
{
    match cache.get(&texture_index) {
        Some(entry) => if entry.signature == signature && (!updated
            || already_converted_this_frame) && entry.rgba.len() > 0 {
            Some(entry.rgba.len())
        } else {
            None
        },
        None => None,
    }
}

/// Keeps a conversion, and counts it.
fn keep(
    cache: &mut TextureConversionCache,
    counters: &mut ConversionCounters,
    texture_index: usize,
    signature: TextureConversionSignature,
    rgba: Vec<F32>,
) -> (len: usize)
    requires
        signature.width * signature.height <= usize::MAX,
    ensures
        kept(final(cache)@) == kept(old(cache)@).insert(texture_index, (signature, rgba@)),
        final(counters).conversions == old(counters).conversions.wrapping_add(1),
        final(counters).converted_px == old(counters).converted_px.wrapping_add(
            (signature.width * signature.height) as usize,
        ),
        len == rgba@.len(),
{
    let len: usize = rgba.len();
    counters.conversions = counters.conversions.wrapping_add(1);
    assert(0 <= signature.width * signature.height) by (nonlinear_arith);
    counters.converted_px = counters.converted_px.wrapping_add(signature.width * signature.height);
    cache.insert(texture_index, CachedTextureConversion { signature, rgba });
    assert(kept(cache@) =~= kept(old(cache)@).insert(texture_index, (signature, rgba@)));
    len
}

/// Makes a texture ready to be read, and says what a shader is told of it.
///
/// A texture that was already converted in this frame is not converted again, though it
/// is still marked as changed: its content does not change while the frame is painted.
pub fn headless_texture_info(
    texture_index: usize,
    cxtexture: &CxTexture,
    cache: &mut TextureConversionCache,
    counters: &mut ConversionCounters,
    levels: &Vec<F32>,
    already_converted_this_frame: bool,
) -> (r: Option<TextureInfo>)
    requires
        cxtexture.fits(),
        levels@.len() == LEVELS,
    ensures
        kept(final(cache)@) == kept_after(
            kept(old(cache)@),
            texture_index,
            cxtexture.conversion(levels@),
            already_converted_this_frame,
        ),
        *final(counters) == counted_after(
            *old(counters),
            kept(old(cache)@),
            texture_index,
            cxtexture.conversion(levels@),
            already_converted_this_frame,
        ),
        r == info_of(cxtexture, kept(final(cache)@), texture_index, levels@),
{
    match &cxtexture.format {
        TextureFormat::Rgba { width, height, data: Some(data) } => Some(
            TextureInfo {
                source: TextureSource::Own,
                len: data.len(),
                width: *width,
                height: *height,
            },
        ),
        TextureFormat::Bgra { width, height, data: Some(data), updated } => {
            let signature = TextureConversionSignature {
                kind: 1,
                width: *width,
                height: *height,
                data_ptr: cxtexture.data_ptr,
                data_len: data.len(),
            };
            let len: usize = match serves(
                cache,
                texture_index,
                signature,
                *updated,
                already_converted_this_frame,
            ) {
                Some(n) => n,
                None => {
                    let rgba = convert_words(data, data.len(), levels);
                    assert(data@.take(data@.len() as int) =~= data@);
                    keep(cache, counters, texture_index, signature, rgba)
                },
            };
            Some(
                TextureInfo {
                    source: TextureSource::Converted,
                    len,
                    width: *width,
                    height: *height,
                },
            )
        },
        TextureFormat::CubeBgra { width, height, data: Some(data), updated } => {
            proof {
                assert(0 <= *width * *height) by (nonlinear_arith);
            }
            let expected: usize = *width * *height * 6;
            let signature = TextureConversionSignature {
                kind: 4,
                width: *width,
                height: *height,
                data_ptr: cxtexture.data_ptr,
                data_len: data.len(),
            };
            let len: usize = match serves(
                cache,
                texture_index,
                signature,
                *updated,
                already_converted_this_frame,
            ) {
                Some(n) => n,
                None => {
                    let count: usize = smaller_of(expected, data.len());
                    let rgba = convert_words(data, count, levels);
                    assert(data@.take(count as int) =~= at_most(data@, expected as int));
                    keep(cache, counters, texture_index, signature, rgba)
                },
            };
            Some(
                TextureInfo {
                    source: TextureSource::Converted,
                    len,
                    width: *width,
                    height: *height,
                },
            )
        },
        TextureFormat::Gray { width, height, data: Some(data), updated } => {
            proof {
                assert(0 <= *width * *height) by (nonlinear_arith);
            }
            let expected: usize = *width * *height;
            let signature = TextureConversionSignature {
                kind: 2,
                width: *width,
                height: *height,
                data_ptr: cxtexture.data_ptr,
                data_len: data.len(),
            };
            let len: usize = match serves(
                cache,
                texture_index,
                signature,
                *updated,
                already_converted_this_frame,
            ) {
                Some(n) => n,
                None => {
                    let count: usize = smaller_of(expected, data.len());
                    let rgba = convert_bytes(data, count, levels);
                    assert(data@.take(count as int) =~= at_most(data@, expected as int));
                    keep(cache, counters, texture_index, signature, rgba)
                },
            };
            Some(
                TextureInfo {
                    source: TextureSource::Converted,
                    len,
                    width: *width,
                    height: *height,
                },
            )
        },
        TextureFormat::GrayF { width, height, data: Some(data), updated } => {
            proof {
                assert(0 <= *width * *height) by (nonlinear_arith);
            }
            let expected: usize = *width * *height;
            let signature = TextureConversionSignature {
                kind: 3,
                width: *width,
                height: *height,
                data_ptr: cxtexture.data_ptr,
                data_len: data.len(),
            };
            let len: usize = match serves(
                cache,
                texture_index,
                signature,
                *updated,
                already_converted_this_frame,
            ) {
                Some(n) => n,
                None => {
                    let count: usize = smaller_of(expected, data.len());
                    let rgba = convert_gray(data, count);
                    assert(data@.take(count as int) =~= at_most(data@, expected as int));
                    keep(cache, counters, texture_index, signature, rgba)
                },
            };
            Some(
                TextureInfo {
                    source: TextureSource::Converted,
                    len,
                    width: *width,
                    height: *height,
                },
            )
        },
        _ => None,
    }
}

/// What is known of the textures of a frame while it is painted.
pub struct TextureUse {
    /// The conversions that are kept.
    pub kept: Map<usize, (TextureConversionSignature, Seq<F32>)>,
    /// The textures that were used in this frame, each once.
    pub converted: Seq<usize>,
    pub counters: ConversionCounters,
    /// What the shader of the draw call is told, slot by slot.
    pub infos: Seq<TextureInfo>,
}

/// What a shader is told where there is no texture that can be read.
pub open spec fn missing() -> TextureInfo {
    TextureInfo { source: TextureSource::Missing, len: 0, width: 0, height: 0 }
}

/// What is known after the texture slots of a draw call were gone through.
pub open spec fn after_slots(
    textures: Seq<CxTexture>,
    slots: Seq<Option<usize>>,
    levels: Seq<F32>,
    start: TextureUse,
) -> TextureUse
    decreases slots.len(),
{
    if slots.len() == 0 {
        start
    } else {
        let u = after_slots(textures, slots.drop_last(), levels, start);
        match slots.last() {
            None => TextureUse { infos: u.infos.push(missing()), ..u },
            Some(id) => {
                let texture = textures[id as int];
                let conversion = texture.conversion(levels);
                let already = u.converted.contains(id);
                let kept = kept_after(u.kept, id, conversion, already);
                TextureUse {
                    kept,
                    converted: if already {
                        u.converted
                    } else {
                        u.converted.push(id)
                    },
                    counters: counted_after(u.counters, u.kept, id, conversion, already),
                    infos: u.infos.push(
                        match info_of(&texture, kept, id, levels) {
                            Some(info) => info,
                            None => missing(),
                        },
                    ),
                }
            },
        }
    }
}

fn holds(ids: &Vec<usize>, id: usize) -> (r: bool)
    ensures
        r == ids@.contains(id),
{
    let mut i: usize = 0;
    while i < ids.len()
        invariant
            i <= ids@.len(),
            forall|j: int| 0 <= j < i ==> ids@[j] != id,
        decreases ids@.len() - i,
    {
        if ids[i] == id {
            return true;
        }
        i = i + 1;
    }
    false
}

/// Goes through the first `count` texture slots of a draw call, and says what its shader
/// is told of each. `converted` collects the textures of the frame.
pub fn gather_textures(
    textures: &Vec<CxTexture>,
    slots: &Vec<Option<usize>>,
    count: usize,
    cache: &mut TextureConversionCache,
    converted: &mut Vec<usize>,
    counters: &mut ConversionCounters,
    levels: &Vec<F32>,
) -> (r: Vec<TextureInfo>)
    requires
        count <= slots@.len(),
        levels@.len() == LEVELS,
        forall|i: int|
            0 <= i < count ==> ((#[trigger] slots@[i]) matches Some(id) ==> id < textures@.len()
                && textures@[id as int].fits()),
    ensures
        after_slots(
            textures@,
            slots@.take(count as int),
            levels@,
            (TextureUse {
                kept: kept(old(cache)@),
                converted: old(converted)@,
                counters: *old(counters),
                infos: Seq::empty(),
            }),
        ) == (TextureUse {
            kept: kept(final(cache)@),
            converted: final(converted)@,
            counters: *final(counters),
            infos: r@,
        }),
{
    let ghost start = TextureUse {
        kept: kept(cache@),
        converted: converted@,
        counters: *counters,
        infos: Seq::empty(),
    };
    let mut infos: Vec<TextureInfo> = Vec::new();
    let mut i: usize = 0;
    assert(slots@.take(0) =~= Seq::<Option<usize>>::empty());
    assert(infos@ =~= start.infos);
    while i < count
        invariant
            i <= count,
            count <= slots@.len(),
            levels@.len() == LEVELS,
            forall|i: int|
                0 <= i < count ==> ((#[trigger] slots@[i]) matches Some(id) ==> id
                    < textures@.len() && textures@[id as int].fits()),
            after_slots(textures@, slots@.take(i as int), levels@, start) == (TextureUse {
                kept: kept(cache@),
                converted: converted@,
                counters: *counters,
                infos: infos@,
            }),
        decreases count - i,
    {
        proof {
            assert(slots@.take(i + 1).drop_last() =~= slots@.take(i as int));
            assert(slots@.take(i + 1).last() == slots@[i as int]);
        }
        match slots[i] {
            None => {
                infos.push(
                    TextureInfo {
                        source: TextureSource::Missing,
                        len: 0,
                        width: 0,
                        height: 0,
                    },
                );
            },
            Some(id) => {
                let already = holds(converted, id);
                let info = headless_texture_info(
                    id,
                    &textures[id],
                    cache,
                    counters,
                    levels,
                    already,
                );
                if !already {
                    converted.push(id);
                }
                match info {
                    Some(t) => infos.push(t),
                    None => infos.push(
                        TextureInfo {
                            source: TextureSource::Missing,
                            len: 0,
                            width: 0,
                            height: 0,
                        },
                    ),
                }
            },
        }
        i = i + 1;
    }
    infos
}

impl TextureFormat {
    /// The same pixels, not marked as changed.
    pub open spec fn consumed(&self) -> TextureFormat {
        match *self {
            TextureFormat::Bgra { width, height, data, updated } => TextureFormat::Bgra {
                width,
                height,
                data,
                updated: false,
            },
            TextureFormat::CubeBgra { width, height, data, updated } => TextureFormat::CubeBgra {
                width,
                height,
                data,
                updated: false,
            },
            TextureFormat::Gray { width, height, data, updated } => TextureFormat::Gray {
                width,
                height,
                data,
                updated: false,
            },
            TextureFormat::GrayF { width, height, data, updated } => TextureFormat::GrayF {
                width,
                height,
                data,
                updated: false,
            },
            other => other,
        }
    }
}

impl CxTexture {
    /// Takes the mark of a change away, and says whether there was one.
    pub fn take_updated(&mut self) -> (r: bool)
        ensures
            final(self).data_ptr == old(self).data_ptr,
            final(self).format == old(self).format.consumed(),
            r == match old(self).format {
                TextureFormat::Bgra { updated, .. } => updated,
                TextureFormat::CubeBgra { updated, .. } => updated,
                TextureFormat::Gray { updated, .. } => updated,
                TextureFormat::GrayF { updated, .. } => updated,
                _ => false,
            },
    {
        match &mut self.format {
            TextureFormat::Bgra { updated, .. } => {
                let was: bool = *updated;
                *updated = false;
                was
            },
            TextureFormat::CubeBgra { updated, .. } => {
                let was: bool = *updated;
                *updated = false;
                was
            },
            TextureFormat::Gray { updated, .. } => {
                let was: bool = *updated;
                *updated = false;
                was
            },
            TextureFormat::GrayF { updated, .. } => {
                let was: bool = *updated;
                *updated = false;
                was
            },
            _ => false,
        }
    }
}

/// Takes the mark of a change away from the textures that were used in a frame.
pub fn consume_updates(textures: &mut Vec<CxTexture>, converted: &Vec<usize>)
    requires
        forall|i: int| 0 <= i < converted@.len() ==> #[trigger] converted@[i] < old(textures)@.len(),
    ensures
        final(textures)@.len() == old(textures)@.len(),
        forall|t: int|
            0 <= t < final(textures)@.len() ==> (#[trigger] final(textures)@[t]).data_ptr == old(
                textures,
            )@[t].data_ptr,
        forall|t: int|
            0 <= t < final(textures)@.len() ==> (#[trigger] final(textures)@[t]).format
                == if converted@.contains(t as usize) {
                old(textures)@[t].format.consumed()
            } else {
                old(textures)@[t].format
            },
{
    let ghost before = textures@;
    let n: usize = textures.len();
    let mut i: usize = 0;
    assert(converted@.take(0) =~= Seq::<usize>::empty());
    while i < converted.len()
        invariant
            i <= converted@.len(),
            n == textures@.len() == before.len(),
            forall|i: int| 0 <= i < converted@.len() ==> #[trigger] converted@[i] < before.len(),
            forall|t: int|
                0 <= t < before.len() ==> (#[trigger] textures@[t]).data_ptr
                    == before[t].data_ptr,
            forall|t: int|
                0 <= t < before.len() ==> (#[trigger] textures@[t]).format == if converted@.take(
                    i as int,
                ).contains(t as usize) {
                    before[t].format.consumed()
                } else {
                    before[t].format
                },
        decreases converted@.len() - i,
    {
        let ghost earlier = textures@;
        let id: usize = converted[i];
        textures[id].take_updated();
        proof {
            let old_ids = converted@.take(i as int);
            let new_ids = converted@.take(i + 1);
            assert(new_ids =~= old_ids.push(id));
            assert forall|t: int| 0 <= t < before.len() implies (#[trigger] textures@[t]).format
                == if new_ids.contains(t as usize) {
                before[t].format.consumed()
            } else {
                before[t].format
            } by {
                if t == id {
                    assert(new_ids[i as int] == t);
                    assert(earlier[t].format.consumed() == before[t].format.consumed());
                } else {
                    assert(textures@[t] == earlier[t]);
                    if new_ids.contains(t as usize) {
                        let k = choose|k: int| 0 <= k < new_ids.len() && new_ids[k] == t;
                        assert(old_ids[k] == t);
                    }
                    if old_ids.contains(t as usize) {
                        let k = choose|k: int| 0 <= k < old_ids.len() && old_ids[k] == t;
                        assert(new_ids[k] == t);
                    }
                }
            }
        }
        i = i + 1;
    }
    assert(converted@.take(i as int) =~= converted@);
}

/// Within a frame, a texture is converted at most once: once it was used, using it again
/// changes nothing that is kept, though it is still marked as changed.
pub proof fn law_converted_once_per_frame(
    cache: Map<usize, (TextureConversionSignature, Seq<F32>)>,
    id: usize,
    conversion: Conversion,
    already: bool,
)
    requires
        conversion.rgba.len() > 0,
    ensures
        ({
            let first = kept_after(cache, id, Some(conversion), already);
            !must_convert(first, id, conversion, true)
        }),
{
}

/// The next frame finds the conversion it needs, once the mark of a change is taken away
/// and if nothing else about the texture has changed.
pub proof fn law_kept_for_the_next_frame(
    texture: &CxTexture,
    cache: Map<usize, (TextureConversionSignature, Seq<F32>)>,
    id: usize,
    levels: Seq<F32>,
    already: bool,
    next: &CxTexture,
)
    requires
        texture.conversion(levels) matches Some(c) && c.rgba.len() > 0,
        next.format == texture.format.consumed(),
        next.data_ptr == texture.data_ptr,
    ensures
        ({
            let after = kept_after(cache, id, texture.conversion(levels), already);
            next.conversion(levels) matches Some(c) && !must_convert(after, id, c, false)
        }),
{
}

/// A texture that has changed is converted anew when a frame first uses it.
pub proof fn law_a_change_is_seen(
    cache: Map<usize, (TextureConversionSignature, Seq<F32>)>,
    id: usize,
    conversion: Conversion,
)
    requires
        conversion.updated,
    ensures
        must_convert(cache, id, conversion, false),
        kept_after(cache, id, Some(conversion), false)[id].1 == conversion.rgba,
{
}

/// Every pixel is converted in its own place, as many as there are: red, green, blue and
/// alpha are the levels of the third, the second, the first and the fourth byte of its word.
pub proof fn law_pixels_keep_their_places(
    texture: &CxTexture,
    levels: Seq<F32>,
    data: Seq<u32>,
    p: int,
)
    requires
        match texture.format {
            TextureFormat::Bgra { data: Some(d), .. } => d@ == data,
            TextureFormat::CubeBgra { width, height, data: Some(d), .. } => d@ == data && p < width
                * height * 6,
            _ => false,
        },
        0 <= p < data.len(),
    ensures
        texture.conversion(levels) matches Some(c) && {
            &&& p * 4 + 3 < c.rgba.len()
            &&& c.rgba[p * 4] == levels[data[p] as int / 0x1_0000 % 256]
            &&& c.rgba[p * 4 + 1] == levels[data[p] as int / 0x100 % 256]
            &&& c.rgba[p * 4 + 2] == levels[data[p] as int % 256]
            &&& c.rgba[p * 4 + 3] == levels[data[p] as int / 0x100_0000]
        },
{
    assert((p * 4) / 4 == p && (p * 4) % 4 == 0);
    assert((p * 4 + 1) / 4 == p && (p * 4 + 1) % 4 == 1);
    assert((p * 4 + 2) / 4 == p && (p * 4 + 2) % 4 == 2);
    assert((p * 4 + 3) / 4 == p && (p * 4 + 3) % 4 == 3);
}

/// A gray pixel is converted in its own place too: its four components are alike, the level
/// of its byte, or the single itself.
pub proof fn law_gray_pixels_keep_their_places(
    texture: &CxTexture,
    levels: Seq<F32>,
    values: Seq<F32>,
    p: int,
)
    requires
        match texture.format {
            TextureFormat::Gray { width, height, data: Some(d), .. } => {
                &&& values.len() == d@.len()
                &&& p < width * height
                &&& forall|i: int|
                    0 <= i < d@.len() ==> #[trigger] values[i] == levels[d@[i] as int]
            },
            TextureFormat::GrayF { width, height, data: Some(d), .. } => d@ == values && p < width
                * height,
            _ => false,
        },
        0 <= p < values.len(),
    ensures
        texture.conversion(levels) matches Some(c) && {
            &&& p * 4 + 3 < c.rgba.len()
            &&& c.rgba[p * 4] == values[p]
            &&& c.rgba[p * 4 + 1] == values[p]
            &&& c.rgba[p * 4 + 2] == values[p]
            &&& c.rgba[p * 4 + 3] == values[p]
        },
{
    assert((p * 4) / 4 == p);
    assert((p * 4 + 1) / 4 == p);
    assert((p * 4 + 2) / 4 == p);
    assert((p * 4 + 3) / 4 == p);
}

/// Converting words and then more words is converting them one behind the other.
pub proof fn law_conversions_follow_each_other(a: Seq<u32>, b: Seq<u32>, levels: Seq<F32>)
    ensures
        rgba_of_words(a + b, levels) == rgba_of_words(a, levels) + rgba_of_words(b, levels),
{
    let joined = rgba_of_words(a + b, levels);
    let apart = rgba_of_words(a, levels) + rgba_of_words(b, levels);
    assert forall|i: int| 0 <= i < joined.len() implies joined[i] == apart[i] by {
        if i >= a.len() * 4 {
            assert((i - a.len() * 4) / 4 == i / 4 - a.len());
            assert((i - a.len() * 4) % 4 == i % 4);
        }
    }
    assert(joined =~= apart);
}

/// A conversion has four singles for each pixel: for each word that was handed over, but of a
/// cube for no more than its six faces have, and of a gray texture for no more than it has
/// pixels.
pub proof fn law_there_are_four_singles_for_each_pixel(texture: &CxTexture, levels: Seq<F32>)
    ensures
        match texture.format {
            TextureFormat::Bgra { data: Some(d), .. } => texture.conversion(levels) matches Some(c)
                && c.rgba.len() == d@.len() * 4,
            TextureFormat::CubeBgra { width, height, data: Some(d), .. } => texture.conversion(
                levels,
            ) matches Some(c) && c.rgba.len() == if d@.len() <= width * height * 6 {
                (d@.len() * 4) as int
            } else {
                width * height * 6 * 4
            },
            TextureFormat::Gray { width, height, data: Some(d), .. } => texture.conversion(
                levels,
            ) matches Some(c) && c.rgba.len() == if d@.len() <= width * height {
                (d@.len() * 4) as int
            } else {
                width * height * 4
            },
            TextureFormat::GrayF { width, height, data: Some(d), .. } => texture.conversion(
                levels,
            ) matches Some(c) && c.rgba.len() == if d@.len() <= width * height {
                (d@.len() * 4) as int
            } else {
                width * height * 4
            },
            _ => texture.conversion(levels) is None,
        },
{
    match texture.format {
        TextureFormat::CubeBgra { width, height, .. } => {
            assert(0 <= width * height) by (nonlinear_arith);
        },
        TextureFormat::Gray { width, height, .. } => {
            assert(0 <= width * height) by (nonlinear_arith);
        },
        TextureFormat::GrayF { width, height, .. } => {
            assert(0 <= width * height) by (nonlinear_arith);
        },
        _ => {},
    }
}

/// What a conversion is known by changes with whatever it is made from: two textures whose
/// conversions are known by the same have the same format, size, place in memory and number
/// of values.
pub proof fn law_conversions_are_told_apart(
    a: &CxTexture,
    b: &CxTexture,
    levels: Seq<F32>,
)
    requires
        a.conversion(levels) matches Some(c) && b.conversion(levels) matches Some(d)
            && c.signature == d.signature,
    ensures
        a.data_ptr == b.data_ptr,
        match (a.format, b.format) {
            (
                TextureFormat::Bgra { width, height, data: Some(d), .. },
                TextureFormat::Bgra { width: w, height: h, data: Some(e), .. },
            ) => width == w && height == h && d.len() == e.len(),
            (
                TextureFormat::CubeBgra { width, height, data: Some(d), .. },
                TextureFormat::CubeBgra { width: w, height: h, data: Some(e), .. },
            ) => width == w && height == h && d.len() == e.len(),
            (
                TextureFormat::Gray { width, height, data: Some(d), .. },
                TextureFormat::Gray { width: w, height: h, data: Some(e), .. },
            ) => width == w && height == h && d.len() == e.len(),
            (
                TextureFormat::GrayF { width, height, data: Some(d), .. },
                TextureFormat::GrayF { width: w, height: h, data: Some(e), .. },
            ) => width == w && height == h && d.len() == e.len(),
            _ => false,
        },
{
}

/// A conversion that is kept is used as long as it was made from the same data, holds
/// anything, and the data have not changed; else the texture is converted, and what is then
/// kept of it is its conversion. Nothing that is kept of other textures changes.
pub proof fn law_a_texture_is_converted_when_it_has_to_be(
    cache: Map<usize, (TextureConversionSignature, Seq<F32>)>,
    id: usize,
    conversion: Conversion,
    already: bool,
)
    ensures
        ({
            let after = kept_after(cache, id, Some(conversion), already);
            let usable = cache.contains_key(id) && cache[id].0 == conversion.signature
                && cache[id].1.len() > 0 && (already || !conversion.updated);
            &&& usable ==> after == cache
            &&& !usable ==> after.contains_key(id) && after[id].0 == conversion.signature
                && after[id].1 == conversion.rgba
            &&& forall|other: usize|
                other != id ==> (#[trigger] after.contains_key(other) <==> cache.contains_key(
                    other,
                )) && (cache.contains_key(other) ==> after[other] == cache[other])
        }),
        kept_after(cache, id, None, already) == cache,
{
}

/// Taking the mark of a change away changes nothing else about a texture: it is converted to
/// the same, from the same.
pub proof fn law_only_the_mark_is_taken_away(texture: &CxTexture, next: &CxTexture, levels: Seq<F32>)
    requires
        next.format == texture.format.consumed(),
        next.data_ptr == texture.data_ptr,
    ensures
        next.conversion(levels) == match texture.conversion(levels) {
            Some(c) => Some(
                Conversion { signature: c.signature, updated: false, rgba: c.rgba },
            ),
            None => None,
        },
        next.format.consumed() == next.format,
        (texture.format matches TextureFormat::Rgba { .. }) ==> next.format == texture.format,
        (texture.format matches TextureFormat::Other) ==> next.format == texture.format,
{
}

/// Whether what a shader is told of a texture is right: where its singles are found, and its
/// size.
pub open spec fn told_rightly(info: TextureInfo, texture: &CxTexture) -> bool {
    match texture.format {
        TextureFormat::Rgba { width: w, height: h, data: Some(d) } => {
            &&& info.source == TextureSource::Own
            &&& info.len == d@.len() as usize
            &&& info.width == w
            &&& info.height == h
        },
        TextureFormat::Bgra { width: w, height: h, data: Some(d), .. } => {
            &&& info.source == TextureSource::Converted
            &&& info.width == w
            &&& info.height == h
        },
        TextureFormat::CubeBgra { width: w, height: h, data: Some(d), .. } => {
            &&& info.source == TextureSource::Converted
            &&& info.width == w
            &&& info.height == h
        },
        TextureFormat::Gray { width: w, height: h, data: Some(d), .. } => {
            &&& info.source == TextureSource::Converted
            &&& info.width == w
            &&& info.height == h
        },
        TextureFormat::GrayF { width: w, height: h, data: Some(d), .. } => {
            &&& info.source == TextureSource::Converted
            &&& info.width == w
            &&& info.height == h
        },
        _ => info == (TextureInfo { source: TextureSource::Missing, len: 0, width: 0, height: 0 }),
    }
}

/// A shader is told of the texture in each of its slots, in the order of the slots; and the
/// textures of the slots are those that count as used, besides those that did already.
pub proof fn law_every_slot_is_told_of_its_texture(
    textures: Seq<CxTexture>,
    slots: Seq<Option<usize>>,
    levels: Seq<F32>,
    start: TextureUse,
)
    requires
        start.infos.len() == 0,
    ensures
        ({
            let end = after_slots(textures, slots, levels, start);
            &&& end.infos.len() == slots.len()
            &&& forall|i: int|
                0 <= i < slots.len() ==> match #[trigger] slots[i] {
                    Some(id) => told_rightly(end.infos[i], &textures[id as int]),
                    None => end.infos[i] == (TextureInfo {
                        source: TextureSource::Missing,
                        len: 0,
                        width: 0,
                        height: 0,
                    }),
                }
            &&& forall|id: usize|
                #[trigger] end.converted.contains(id) == (start.converted.contains(id)
                    || slots.contains(Some(id)))
        }),
    decreases slots.len(),
{
    if slots.len() > 0 {
        let front = slots.drop_last();
        law_every_slot_is_told_of_its_texture(textures, front, levels, start);
        let mid = after_slots(textures, front, levels, start);
        let end = after_slots(textures, slots, levels, start);
        assert forall|i: int| 0 <= i < slots.len() implies match #[trigger] slots[i] {
            Some(id) => told_rightly(end.infos[i], &textures[id as int]),
            None => end.infos[i] == (TextureInfo {
                source: TextureSource::Missing,
                len: 0,
                width: 0,
                height: 0,
            }),
        } by {
            if i < slots.len() - 1 {
                assert(front[i] == slots[i]);
                assert(end.infos[i] == mid.infos[i]);
            }
        }
        assert forall|id: usize|
            #[trigger] end.converted.contains(id) == (start.converted.contains(id)
                || slots.contains(Some(id))) by {
            assert(slots.contains(Some(id)) <==> front.contains(Some(id)) || slots.last() == Some(
                id,
            )) by {
                assert(slots =~= front.push(slots.last()));
                if slots.contains(Some(id)) {
                    let k = choose|k: int| 0 <= k < slots.len() && slots[k] == Some(id);
                    if k < front.len() {
                        assert(front[k] == Some(id));
                    }
                }
                if front.contains(Some(id)) {
                    let k = choose|k: int| 0 <= k < front.len() && front[k] == Some(id);
                    assert(slots[k] == Some(id));
                }
                assert(slots[slots.len() - 1] == slots.last());
            }
            match slots.last() {
                Some(last) => {
                    let more = mid.converted.push(last);
                    assert(more.contains(id) <==> mid.converted.contains(id) || id == last) by {
                        if more.contains(id) {
                            let k = choose|k: int| 0 <= k < more.len() && more[k] == id;
                            if k < mid.converted.len() {
                                assert(mid.converted[k] == id);
                            }
                        }
                        if mid.converted.contains(id) {
                            let k = choose|k: int|
                                0 <= k < mid.converted.len() && mid.converted[k] == id;
                            assert(more[k] == id);
                        }
                        assert(more[mid.converted.len() as int] == last);
                    }
                },
                None => {},
            }
        }
    }
}

/// A texture that is used for the first time is converted pixel by pixel: of every word, the
/// third byte gives red, the second green, the first blue and the fourth alpha, in the place
/// of the word.
pub proof fn law_a_texture_is_converted_pixel_by_pixel(
    id: usize,
    texture: &CxTexture,
    cache: &mut TextureConversionCache,
    counters: &mut ConversionCounters,
    levels: &Vec<F32>,
    already: bool,
    info: Option<TextureInfo>,
    data: Seq<u32>,
    p: int,
    other: usize,
)
    requires
        call_ensures(
            headless_texture_info,
            (id, texture, cache, counters, levels, already),
            info,
        ),
        !old(cache)@.contains_key(id),
        match texture.format {
            TextureFormat::Bgra { data: Some(d), .. } => d@ == data,
            TextureFormat::CubeBgra { width, height, data: Some(d), .. } => d@ == data && p < width
                * height * 6,
            _ => false,
        },
        0 <= p < data.len(),
    ensures
        final(cache)@.contains_key(id),
        ({
            let rgba = final(cache)@[id].rgba@;
            &&& p * 4 + 3 < rgba.len()
            &&& rgba[p * 4] == levels@[data[p] as int / 0x1_0000 % 256]
            &&& rgba[p * 4 + 1] == levels@[data[p] as int / 0x100 % 256]
            &&& rgba[p * 4 + 2] == levels@[data[p] as int % 256]
            &&& rgba[p * 4 + 3] == levels@[data[p] as int / 0x100_0000]
        }),
        info matches Some(i) && i.source == TextureSource::Converted,
        other != id ==> final(cache)@.contains_key(other) == old(cache)@.contains_key(other),
        other != id && old(cache)@.contains_key(other) ==> final(cache)@[other].rgba@ == old(
            cache,
        )@[other].rgba@ && final(cache)@[other].signature == old(cache)@[other].signature,
{
    law_pixels_keep_their_places(texture, levels@, data, p);
    let before = kept(old(cache)@);
    let after = kept(final(cache)@);
    assert(!before.contains_key(id));
    assert(after.contains_key(id));
    assert(after[id].1 == final(cache)@[id].rgba@);
    assert(after.contains_key(other) == final(cache)@.contains_key(other));
    assert(before.contains_key(other) == old(cache)@.contains_key(other));
    if other != id && before.contains_key(other) {
        assert(after[other] == before[other]);
    }
}

/// A gray texture that is used for the first time is converted pixel by pixel too: four times
/// the level of the byte, or the single itself.
pub proof fn law_a_gray_texture_is_converted_pixel_by_pixel(
    id: usize,
    texture: &CxTexture,
    cache: &mut TextureConversionCache,
    counters: &mut ConversionCounters,
    levels: &Vec<F32>,
    already: bool,
    info: Option<TextureInfo>,
    values: Seq<F32>,
    p: int,
)
    requires
        call_ensures(
            headless_texture_info,
            (id, texture, cache, counters, levels, already),
            info,
        ),
        !old(cache)@.contains_key(id),
        match texture.format {
            TextureFormat::Gray { width, height, data: Some(d), .. } => {
                &&& values.len() == d@.len()
                &&& p < width * height
                &&& forall|i: int|
                    0 <= i < d@.len() ==> #[trigger] values[i] == levels@[d@[i] as int]
            },
            TextureFormat::GrayF { width, height, data: Some(d), .. } => d@ == values && p < width
                * height,
            _ => false,
        },
        0 <= p < values.len(),
    ensures
        final(cache)@.contains_key(id),
        ({
            let rgba = final(cache)@[id].rgba@;
            &&& p * 4 + 3 < rgba.len()
            &&& rgba[p * 4] == values[p] && rgba[p * 4 + 1] == values[p]
            &&& rgba[p * 4 + 2] == values[p] && rgba[p * 4 + 3] == values[p]
        }),
{
    law_gray_pixels_keep_their_places(texture, levels@, values, p);
    let after = kept(final(cache)@);
    assert(!kept(old(cache)@).contains_key(id));
    assert(after.contains_key(id));
    assert(after[id].1 == final(cache)@[id].rgba@);
}

/// A texture that was converted is not converted again while it stays what it was; one that
/// has changed is, at its first use in a frame.
pub proof fn law_conversions_serve_until_a_texture_changes(
    id: usize,
    texture: &CxTexture,
    cache: &mut TextureConversionCache,
    counters: &mut ConversionCounters,
    levels: &Vec<F32>,
    already: bool,
    info: Option<TextureInfo>,
)
    requires
        call_ensures(
            headless_texture_info,
            (id, texture, cache, counters, levels, already),
            info,
        ),
        old(cache)@.contains_key(id),
        old(cache)@[id].rgba@.len() > 0,
        texture.conversion(levels@) matches Some(c) && old(cache)@[id].signature == c.signature,
    ensures
        final(cache)@.contains_key(id),
        already || !(texture.conversion(levels@)->0).updated ==> final(cache)@[id].rgba@ == old(
            cache,
        )@[id].rgba@ && *final(counters) == *old(counters),
        !already && (texture.conversion(levels@)->0).updated ==> final(cache)@[id].rgba@
            == texture.conversion(levels@)->0.rgba && final(counters).conversions == old(
            counters,
        ).conversions.wrapping_add(1),
{
    let before = kept(old(cache)@);
    let after = kept(final(cache)@);
    assert(before.contains_key(id) && before[id].0 == old(cache)@[id].signature && before[id].1
        == old(cache)@[id].rgba@);
    assert(after.contains_key(id));
    assert(after[id].1 == final(cache)@[id].rgba@);
}

/// Taking the mark of a change away says whether there was one, and leaves none.
pub proof fn law_a_mark_is_taken_away_once(
    first: &mut CxTexture,
    was: bool,
    second: &mut CxTexture,
    again: bool,
    levels: Seq<F32>,
)
    requires
        call_ensures(CxTexture::take_updated, (first,), was),
        *old(second) == *final(first),
        call_ensures(CxTexture::take_updated, (second,), again),
    ensures
        !again,
        old(first).conversion(levels) matches Some(c) ==> was == c.updated,
        final(second).format == final(first).format,
        final(first).data_ptr == old(first).data_ptr,
{
}

/// The call tells a shader of the texture in each of its slots, and marks the textures of the
/// slots as used; of those, and of no others, the mark of a change is then taken away.
pub proof fn law_used_textures_lose_their_marks(
    textures: &Vec<CxTexture>,
    slots: &Vec<Option<usize>>,
    count: usize,
    cache: &mut TextureConversionCache,
    converted: &mut Vec<usize>,
    counters: &mut ConversionCounters,
    levels: &Vec<F32>,
    r: Vec<TextureInfo>,
    pool: &mut Vec<CxTexture>,
    used: &Vec<usize>,
    i: int,
    t: int,
)
    requires
        count <= slots@.len(),
        call_ensures(
            gather_textures,
            (textures, slots, count, cache, converted, counters, levels),
            r,
        ),
        call_ensures(consume_updates, (pool, used), ()),
        0 <= i < count,
        0 <= t < old(pool)@.len(),
    ensures
        r@.len() == count,
        slots@[i] matches Some(id) ==> told_rightly(r@[i], &textures@[id as int])
            && final(converted)@.contains(id),
        slots@[i] is None ==> r@[i].source == TextureSource::Missing && r@[i].len == 0
            && r@[i].width == 0 && r@[i].height == 0,
        final(pool)@.len() == old(pool)@.len(),
        final(pool)@[t].data_ptr == old(pool)@[t].data_ptr,
        !used@.contains(t as usize) ==> final(pool)@[t].format == old(pool)@[t].format,
        used@.contains(t as usize) ==> (final(pool)@[t].conversion(levels@) matches Some(c)
            ==> !c.updated),
{
    let start = TextureUse {
        kept: kept(old(cache)@),
        converted: old(converted)@,
        counters: *old(counters),
        infos: Seq::empty(),
    };
    law_every_slot_is_told_of_its_texture(
        textures@,
        slots@.take(count as int),
        levels@,
        start,
    );
    assert(slots@.take(count as int)[i] == slots@[i]);
    let after = final(pool)@[t];
    match slots@[i] {
        Some(id) => {
            assert(slots@.take(count as int).contains(Some(id)));
            let end = after_slots(textures@, slots@.take(count as int), levels@, start);
            assert(end.converted.contains(id));
        },
        None => {},
    }
}

} // verus!
