use shot2path::icon::{
    circle_icon_bits, circle_icon_rgba, desktop_icon_file, COLOR_ORANGE, ICON_SIZE, TRAY_ICON_SIZE,
};

/// The disc test as the icon drawing computes it in floating point.
fn in_disc_f32(size: u32, x: u32, y: u32) -> bool {
    let c = size as f32 / 2.0;
    let r = c - 1.0;
    let dx = x as f32 + 0.5 - c;
    let dy = y as f32 + 0.5 - c;
    dx * dx + dy * dy <= r * r
}

fn mask_bit(mask: &[u8], i: usize) -> u8 {
    (mask[i / 8] >> (7 - i % 8)) & 1
}

#[test]
fn tray_icon_bits_draw_the_disc() {
    let size = TRAY_ICON_SIZE;
    let bits = circle_icon_bits(size, COLOR_ORANGE);
    assert_eq!(bits.and_mask.len(), 32);
    assert_eq!(bits.color.len(), 256);
    let word = u32::from_le_bytes([COLOR_ORANGE[2], COLOR_ORANGE[1], COLOR_ORANGE[0], 0xFF]);
    assert_eq!(word, 0xFFD4570A);
    for y in 0..size {
        for x in 0..size {
            let i = (y * size + x) as usize;
            let inside = in_disc_f32(size, x, y);
            assert_eq!(mask_bit(&bits.and_mask, i), if inside { 0 } else { 1 });
            assert_eq!(bits.color[i], if inside { word } else { 0 });
        }
    }
    assert_eq!(mask_bit(&bits.and_mask, 0), 1);
    assert_eq!(mask_bit(&bits.and_mask, 8 * 16 + 8), 0);
}

#[test]
fn desktop_icon_pixels_draw_the_disc() {
    let size = ICON_SIZE;
    let px = circle_icon_rgba(size, COLOR_ORANGE);
    assert_eq!(px.len(), 48 * 48 * 4);
    for y in 0..size {
        for x in 0..size {
            let i = ((y * size + x) * 4) as usize;
            let expect = if in_disc_f32(size, x, y) { COLOR_ORANGE } else { [0; 4] };
            assert_eq!(&px[i..i + 4], &expect);
        }
    }
}

#[test]
fn tray_and_desktop_icons_agree() {
    for size in [16u32, 48] {
        let bits = circle_icon_bits(size, COLOR_ORANGE);
        let px = circle_icon_rgba(size, COLOR_ORANGE);
        for i in 0..(size * size) as usize {
            let opaque = px[i * 4 + 3] == 0xFF;
            assert_eq!(mask_bit(&bits.and_mask, i) == 0, opaque);
        }
    }
}

#[test]
fn empty_icon() {
    let bits = circle_icon_bits(0, COLOR_ORANGE);
    assert!(bits.and_mask.is_empty() && bits.color.is_empty());
    assert!(circle_icon_rgba(0, COLOR_ORANGE).is_empty());
}

#[test]
fn desktop_icon_file_is_ico_holding_the_disc() {
    use_ico_checks(&desktop_icon_file());
}

fn use_ico_checks(ico: &[u8]) {
    assert_eq!(&ico[..6], &[0, 0, 1, 0, 1, 0]);
    assert_eq!(&ico[6..14], &[48, 48, 0, 0, 0, 0, 32, 0]);
    let png_len = u32::from_le_bytes([ico[14], ico[15], ico[16], ico[17]]) as usize;
    assert_eq!(u32::from_le_bytes([ico[18], ico[19], ico[20], ico[21]]), 22);
    assert_eq!(ico.len(), 22 + png_len);
    assert_eq!(&ico[22..30], &[137, 80, 78, 71, 13, 10, 26, 10]);
    let img = image::load_from_memory_with_format(ico, image::ImageFormat::Ico).unwrap().to_rgba8();
    assert_eq!(img.dimensions(), (48, 48));
    assert_eq!(img.into_raw(), circle_icon_rgba(48, COLOR_ORANGE));
}
