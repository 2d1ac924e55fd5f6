use makepad_platform::single::F32;
use makepad_platform::texture::{
    consume_updates, gather_textures, headless_texture_info, ConversionCounters, CxTexture,
    TextureConversionCache, TextureFormat, TextureInfo, TextureSource,
};

fn s(v: f32) -> F32 {
    F32 { bits: v.to_bits() }
}

fn levels() -> Vec<F32> {
    (0..256).map(|i| s(i as f32 / 255.0)).collect()
}

fn none() -> ConversionCounters {
    ConversionCounters { conversions: 0, converted_px: 0 }
}

fn gray(data_ptr: usize, bytes: &[u8], updated: bool) -> CxTexture {
    CxTexture {
        format: TextureFormat::Gray { width: 2, height: 1, data: Some(bytes.to_vec()), updated },
        data_ptr,
    }
}

#[test]
fn words_are_converted_red_first() {
    let tex = CxTexture {
        format: TextureFormat::Bgra { width: 1, height: 1, data: Some(vec![0xff80_4020]), updated: true },
        data_ptr: 77,
    };
    let mut cache = TextureConversionCache::new();
    let mut counters = none();
    let info = headless_texture_info(3, &tex, &mut cache, &mut counters, &levels(), false).unwrap();
    assert_eq!(info, TextureInfo { source: TextureSource::Converted, len: 4, width: 1, height: 1 });
    let want: Vec<F32> = [0x80, 0x40, 0x20, 0xff].iter().map(|b| s(*b as f32 / 255.0)).collect();
    assert_eq!(cache.get(&3).unwrap().rgba, want);
    assert_eq!(cache.get(&3).unwrap().signature.kind, 1);
    assert_eq!(cache.get(&3).unwrap().signature.data_ptr, 77);
    assert_eq!(counters, ConversionCounters { conversions: 1, converted_px: 1 });
}

#[test]
fn gray_is_spread_over_all_components() {
    let mut cache = TextureConversionCache::new();
    let mut counters = none();
    let tex = gray(1, &[255, 51, 9], true);
    let info = headless_texture_info(0, &tex, &mut cache, &mut counters, &levels(), false).unwrap();
    assert_eq!(info.len, 8);
    assert_eq!(
        cache.get(&0).unwrap().rgba,
        vec![s(1.0), s(1.0), s(1.0), s(1.0), s(0.2), s(0.2), s(0.2), s(0.2)]
    );
    let tex = CxTexture {
        format: TextureFormat::GrayF { width: 1, height: 1, data: Some(vec![s(0.25)]), updated: true },
        data_ptr: 2,
    };
    headless_texture_info(1, &tex, &mut cache, &mut counters, &levels(), false).unwrap();
    assert_eq!(cache.get(&1).unwrap().rgba, vec![s(0.25); 4]);
}

#[test]
fn a_cube_is_read_up_to_its_six_sides() {
    let tex = CxTexture {
        format: TextureFormat::CubeBgra { width: 1, height: 1, data: Some(vec![0u32; 9]), updated: true },
        data_ptr: 5,
    };
    let mut cache = TextureConversionCache::new();
    let info = headless_texture_info(0, &tex, &mut cache, &mut none(), &levels(), false).unwrap();
    assert_eq!((info.len, info.width, info.height), (24, 1, 1));
    assert_eq!(cache.get(&0).unwrap().signature.kind, 4);
}

#[test]
fn singles_are_used_as_they_are() {
    let tex = CxTexture {
        format: TextureFormat::Rgba { width: 1, height: 1, data: Some(vec![s(1.0); 4]) },
        data_ptr: 5,
    };
    let mut cache = TextureConversionCache::new();
    let mut counters = none();
    assert_eq!(
        headless_texture_info(0, &tex, &mut cache, &mut counters, &levels(), false),
        Some(TextureInfo { source: TextureSource::Own, len: 4, width: 1, height: 1 })
    );
    assert_eq!(counters, none());
    assert!(cache.is_empty());
    let other = CxTexture { format: TextureFormat::Other, data_ptr: 0 };
    assert_eq!(headless_texture_info(0, &other, &mut cache, &mut counters, &levels(), false), None);
    let empty = CxTexture {
        format: TextureFormat::Gray { width: 1, height: 1, data: None, updated: true },
        data_ptr: 0,
    };
    assert_eq!(headless_texture_info(0, &empty, &mut cache, &mut counters, &levels(), false), None);
}

#[test]
fn a_conversion_is_kept_until_something_changes() {
    let mut cache = TextureConversionCache::new();
    let mut counters = none();
    let convert = |tex: &CxTexture, cache: &mut TextureConversionCache, counters: &mut ConversionCounters, already: bool| {
        headless_texture_info(0, tex, cache, counters, &levels(), already).unwrap();
        counters.conversions
    };
    assert_eq!(convert(&gray(1, &[1, 2], false), &mut cache, &mut counters, false), 1);
    assert_eq!(convert(&gray(1, &[1, 2], false), &mut cache, &mut counters, false), 1);
    assert_eq!(convert(&gray(1, &[3, 4], true), &mut cache, &mut counters, false), 2);
    assert_eq!(convert(&gray(1, &[3, 4], true), &mut cache, &mut counters, true), 2);
    assert_eq!(convert(&gray(9, &[3, 4], false), &mut cache, &mut counters, true), 3);
    assert_eq!(cache.get(&0).unwrap().rgba[4], s(4.0 / 255.0));
    assert_eq!(counters.converted_px, 6);
}

#[test]
fn textures_of_a_frame_are_converted_once() {
    let textures = vec![gray(1, &[10, 20], true), gray(2, &[30, 40], true)];
    let slots = vec![Some(1), None, Some(1), Some(0)];
    let mut cache = TextureConversionCache::new();
    let mut converted = Vec::new();
    let mut counters = none();
    let infos =
        gather_textures(&textures, &slots, 3, &mut cache, &mut converted, &mut counters, &levels());
    assert_eq!(infos.len(), 3);
    assert_eq!(infos[1], TextureInfo { source: TextureSource::Missing, len: 0, width: 0, height: 0 });
    assert_eq!(infos[0], infos[2]);
    assert_eq!(converted, vec![1]);
    assert_eq!(counters.conversions, 1);
}

#[test]
fn what_was_converted_is_no_longer_new() {
    let mut textures = vec![gray(1, &[10, 20], true), gray(2, &[30, 40], true)];
    consume_updates(&mut textures, &vec![1]);
    assert!(textures[0].take_updated());
    assert!(!textures[1].take_updated());
    assert!(!textures[0].take_updated());
}
