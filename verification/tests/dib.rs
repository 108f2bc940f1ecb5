use shot2path::dib::decode_dib;
use shot2path::png::grab_clipboard_bitmap;

fn header(width: i32, height: i32, bit_count: u16, compression: u32) -> Vec<u8> {
    let mut h = Vec::new();
    h.extend_from_slice(&40u32.to_le_bytes());
    h.extend_from_slice(&width.to_le_bytes());
    h.extend_from_slice(&height.to_le_bytes());
    h.extend_from_slice(&1u16.to_le_bytes());
    h.extend_from_slice(&bit_count.to_le_bytes());
    h.extend_from_slice(&compression.to_le_bytes());
    h.extend_from_slice(&[0u8; 20]);
    assert_eq!(h.len(), 40);
    h
}

#[test]
fn decode_24bit_bottom_up_with_row_padding() {
    // 2x2, stride 8 (6 bytes of pixels + 2 padding); bottom row stored first.
    let mut d = header(2, 2, 24, 0);
    d.extend_from_slice(&[1, 2, 3, 4, 5, 6, 0xEE, 0xEE]); // bottom row: (B,G,R) (1,2,3) (4,5,6)
    d.extend_from_slice(&[7, 8, 9, 10, 11, 12, 0xEE, 0xEE]); // top row
    let img = decode_dib(&d).unwrap();
    assert_eq!((img.width, img.height), (2, 2));
    assert_eq!(img.pixels, vec![9, 8, 7, 255, 12, 11, 10, 255, 3, 2, 1, 255, 6, 5, 4, 255]);
}

#[test]
fn decode_32bit_top_down() {
    let mut d = header(1, -2, 32, 0);
    d.extend_from_slice(&[10, 20, 30, 0, 40, 50, 60, 0]);
    let img = decode_dib(&d).unwrap();
    assert_eq!((img.width, img.height), (1, 2));
    assert_eq!(img.pixels, vec![30, 20, 10, 255, 60, 50, 40, 255]);
}

#[test]
fn decode_skips_bitfield_masks() {
    let mut d = header(1, 1, 32, 3);
    d.extend_from_slice(&[0u8; 12]);
    d.extend_from_slice(&[1, 2, 3, 4]);
    assert_eq!(decode_dib(&d).unwrap().pixels, vec![3, 2, 1, 255]);
}

#[test]
fn decode_other_bit_counts_gives_opaque_black() {
    let d = header(2, 1, 8, 0);
    let img = decode_dib(&d).unwrap();
    assert_eq!(img.pixels, vec![0, 0, 0, 255, 0, 0, 0, 255]);
}

#[test]
fn decode_rejects_short_buffers() {
    assert!(decode_dib(&[0u8; 39]).is_none());
    let mut d = header(2, 2, 24, 0);
    d.extend_from_slice(&[0u8; 13]); // the last pixel's red byte would be at offset 40 + 8 + 5
    assert!(decode_dib(&d).is_none());
    d.push(0);
    assert!(decode_dib(&d).is_some());
}

#[test]
fn decode_empty_image() {
    let img = decode_dib(&header(0, 5, 24, 0)).unwrap();
    assert_eq!((img.width, img.height, img.pixels.len()), (0, 5, 0));
}

#[test]
fn grab_clipboard_bitmap_writes_png() {
    let mut d = header(2, 1, 24, 0);
    d.extend_from_slice(&[1, 2, 3, 4, 5, 6, 0, 0]);
    let png = grab_clipboard_bitmap(&d).unwrap();
    assert_eq!(&png[..8], &[137, 80, 78, 71, 13, 10, 26, 10]);
    let back = image::load_from_memory_with_format(&png, image::ImageFormat::Png).unwrap().to_rgba8();
    assert_eq!(back.dimensions(), (2, 1));
    assert_eq!(back.into_raw(), vec![3, 2, 1, 255, 6, 5, 4, 255]);
}

#[test]
fn grab_clipboard_bitmap_rejects_empty_or_broken() {
    assert!(grab_clipboard_bitmap(&header(0, 1, 24, 0)).is_none());
    assert!(grab_clipboard_bitmap(&[1, 2, 3]).is_none());
}
