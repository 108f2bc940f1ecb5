use shot2path::png::{
    bgra_to_rgba_opaque, capture_fullscreen_png, encode_rgba_ico, encode_rgba_png, screen_buffer_len,
};

fn decode(png: &[u8]) -> (u32, u32, Vec<u8>) {
    let img = image::load_from_memory_with_format(png, image::ImageFormat::Png).unwrap().to_rgba8();
    (img.width(), img.height(), img.into_raw())
}

#[test]
fn encode_rgba_png_round_trips() {
    let px = vec![1, 2, 3, 4, 5, 6, 7, 8, 9, 10, 11, 12];
    let png = encode_rgba_png(3, 1, px.clone()).unwrap();
    assert_eq!(decode(&png), (3, 1, px));
}

#[test]
fn encode_rgba_png_uses_leading_bytes_of_longer_buffer() {
    let png = encode_rgba_png(1, 1, vec![9, 8, 7, 6, 5, 4]).unwrap();
    assert_eq!(decode(&png), (1, 1, vec![9, 8, 7, 6]));
}

#[test]
fn encode_rgba_png_rejects_short_buffer_and_empty_image() {
    assert!(encode_rgba_png(2, 2, vec![0; 15]).is_none());
    assert!(encode_rgba_png(0, 3, vec![]).is_none());
    assert!(encode_rgba_png(u32::MAX, u32::MAX, vec![0; 4]).is_none());
}

#[test]
fn bgra_becomes_opaque_rgba() {
    let mut buf = vec![1, 2, 3, 4, 5, 6, 7, 8, 9, 10];
    bgra_to_rgba_opaque(&mut buf);
    assert_eq!(buf, vec![3, 2, 1, 255, 7, 6, 5, 255, 9, 10]);
}

#[test]
fn screen_buffer_len_cases() {
    assert_eq!(screen_buffer_len(1920, 1080), Some(1920 * 1080 * 4));
    assert_eq!(screen_buffer_len(0, 1080), None);
    assert_eq!(screen_buffer_len(1920, -1), None);
}

#[test]
fn capture_fullscreen_png_converts_pixels() {
    let png = capture_fullscreen_png(2, 1, vec![10, 20, 30, 0, 40, 50, 60, 0]).unwrap();
    assert_eq!(decode(&png), (2, 1, vec![30, 20, 10, 255, 60, 50, 40, 255]));
    assert!(capture_fullscreen_png(0, 1, vec![]).is_none());
    assert!(capture_fullscreen_png(-3, 2, vec![0; 24]).is_none());
}

#[test]
fn encode_rgba_ico_sizes() {
    let ico = encode_rgba_ico(256, 1, vec![7; 256 * 4]).unwrap();
    assert_eq!(&ico[6..8], &[0, 1]);
    assert!(encode_rgba_ico(257, 1, vec![0; 257 * 4]).is_none());
    assert!(encode_rgba_ico(0, 1, vec![]).is_none());
    assert!(encode_rgba_ico(2, 2, vec![0; 15]).is_none());
    let img = image::load_from_memory_with_format(&ico, image::ImageFormat::Ico).unwrap().to_rgba8();
    assert_eq!(img.into_raw(), vec![7; 256 * 4]);
}

#[test]
fn encode_rgba_png_writes_every_nonempty_image() {
    for (w, h) in [(1u32, 1u32), (3, 7), (300, 2)] {
        assert!(encode_rgba_png(w, h, vec![0; (w * h * 4) as usize]).is_some());
    }
}
