use makepad_platform::png::{can_encode, encode_png_rgba};

fn be(b: &[u8]) -> u32 {
    u32::from_be_bytes([b[0], b[1], b[2], b[3]])
}

#[test]
fn an_image_becomes_a_png_file() {
    let rgba: Vec<u8> = (0..4 * 40 * 30).map(|i| (i % 251) as u8).collect();
    let file = encode_png_rgba(40, 30, &rgba).unwrap();
    assert_eq!(&file[0..8], &[0x89, b'P', b'N', b'G', 0x0d, 0x0a, 0x1a, 0x0a]);
    assert_eq!(&file[12..16], b"IHDR");
    assert_eq!(be(&file[16..20]), 40);
    assert_eq!(be(&file[20..24]), 30);
    assert_eq!(file[24], 8);
    assert_eq!(file[25], 6);
    assert_eq!(&file[file.len() - 8..file.len() - 4], b"IEND");
    let mut at = 8;
    let mut data = Vec::new();
    while at < file.len() {
        let len = be(&file[at..at + 4]) as usize;
        if &file[at + 4..at + 8] == b"IDAT" {
            data.extend_from_slice(&file[at + 8..at + 8 + len]);
        }
        at += 12 + len;
    }
    assert_eq!(at, file.len());
    assert!(data.len() > rgba.len());
    assert_eq!(file, encode_png_rgba(40, 30, &rgba).unwrap());
    let mut other = rgba.clone();
    other[100] ^= 1;
    assert_ne!(file, encode_png_rgba(40, 30, &other).unwrap());
}

#[test]
fn pixels_must_make_up_the_image() {
    assert_eq!(
        encode_png_rgba(2, 2, &[0; 15]).unwrap_err(),
        "encode_png_rgba: expected 16 bytes, got 15"
    );
    assert_eq!(
        encode_png_rgba(u32::MAX, u32::MAX, &[]).unwrap_err(),
        "rgba size overflow while encoding png"
    );
    assert!(!can_encode(2, 0));
    assert_eq!(
        encode_png_rgba(2, 0, &[]).unwrap_err(),
        "headless png encode failed: the image does not fit the encoder"
    );
    assert!(can_encode(1920, 1080));
}

#[test]
fn every_size_that_can_be_encoded_is() {
    for (w, h) in [(1u32, 1u32), (1, 500), (500, 1), (64, 64), (129, 17), (0, 3)] {
        let rgba = vec![9u8; (w * h * 4) as usize];
        assert_eq!(can_encode(w, h), encode_png_rgba(w, h, &rgba).is_ok());
    }
}
