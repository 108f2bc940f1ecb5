use vstd::prelude::*;
use crate::dib::{decode_dib, dib_decodable, dib_rgba, dib_rows, dib_width};

verus! {

/// The PNG file that the `image` crate writes for a `width` x `height` image of 8-bit RGBA
/// pixels, or `None` where it writes none.
pub uninterp spec fn png_rgba8(width: u32, height: u32, pixels: Seq<u8>) -> Option<Seq<u8>>;

/// The eight bytes with which every PNG file begins.
pub open spec fn png_signature() -> Seq<u8> {
    seq![137u8, 80u8, 78u8, 71u8, 13u8, 10u8, 26u8, 10u8]
}

/// The contents of an optional byte buffer.
pub open spec fn bytes_of(r: Option<Vec<u8>>) -> Option<Seq<u8>> {
    match r {
        Some(v) => Some(v@),
        None => None,
    }
}

/// The image file formats the program writes.
#[derive(Clone, Copy, Debug, PartialEq, Eq)]
pub enum ImageFileFormat {
    Png,
    Ico,
}

/// `n` as four little-endian bytes (the low 32 bits of `n`).
pub open spec fn le32(n: int) -> Seq<u8> {
    seq![(n % 256) as u8, ((n / 256) % 256) as u8, ((n / 65536) % 256) as u8, ((n / 16777216) % 256) as u8]
}

/// An ICO file holding one `width` x `height` 32-bit image stored as the PNG file `png`:
/// the ICONDIR (reserved, type 1, one image), one directory entry (width and height, 256 as
/// 0; no palette; 0 planes; 32 bits per pixel; the PNG's size; its offset, 22), then the PNG.
pub open spec fn ico_file(width: u32, height: u32, png: Seq<u8>) -> Seq<u8> {
    seq![0u8, 0u8, 1u8, 0u8, 1u8, 0u8]
        + seq![(width % 256) as u8, (height % 256) as u8, 0u8, 0u8, 0u8, 0u8, 32u8, 0u8]
        + le32(png.len() as int) + le32(22) + png
}

/// Trusted: `image::write_buffer_with_format` with the `Rgba8` colour type and
/// `ImageFormat::Png` or `ImageFormat::Ico`, writing into memory. The buffer must hold exactly
/// the image's bytes, as both encoders assert.
/// - PNG: the result is named by `png_rgba8`. The contract also claims what the `png`
///   encoder's source shows: a zero width or height is an error, any other size is written
///   (the writer is in memory and the encoder settings are fixed), and the file starts with
///   the PNG signature.
/// - ICO: the encoder writes the same PNG (it calls the same PNG encoder with the same
///   arguments) inside a one-entry ICO container, and refuses sizes outside `1..=256`.
#[verifier::external_body]
fn write_rgba8(kind: ImageFileFormat, width: u32, height: u32, pixels: &[u8]) -> (r: Option<Vec<u8>>)
    requires
        pixels@.len() == width * height * 4,
    ensures
        kind == ImageFileFormat::Png ==> bytes_of(r) == png_rgba8(width, height, pixels@),
        kind == ImageFileFormat::Png && width > 0 && height > 0 ==> r is Some,
        kind == ImageFileFormat::Png && (width == 0 || height == 0) ==> r is None,
        kind == ImageFileFormat::Png ==> (r matches Some(v) ==> v@.len() >= 8 && v@.subrange(0, 8) == png_signature()),
        kind == ImageFileFormat::Ico && 1 <= width <= 256 && 1 <= height <= 256 ==> r is Some,
        kind == ImageFileFormat::Ico && !(1 <= width <= 256 && 1 <= height <= 256) ==> r is None,
        kind == ImageFileFormat::Ico ==> (r matches Some(v) ==> png_rgba8(width, height, pixels@) matches Some(p) && v@ == ico_file(width, height, p)),
{
    let mut out: Vec<u8> = Vec::new();
    let image_format = match kind {
        ImageFileFormat::Png => image::ImageFormat::Png,
        ImageFileFormat::Ico => image::ImageFormat::Ico,
    };
    let mut cursor = std::io::Cursor::new(&mut out);
    let color = image::ExtendedColorType::Rgba8;
    match image::write_buffer_with_format(&mut cursor, pixels, width, height, color, image_format) {
        Ok(()) => Some(out),
        Err(_) => None,
    }
}

/// The first `width * height * 4` bytes of `rgba`, when the buffer holds that many and the
/// count fits in memory; otherwise `None`. This is the check by which the `image` crate takes
/// a raw buffer as an image.
pub open spec fn image_bytes(width: u32, height: u32, rgba: Seq<u8>) -> Option<Seq<u8>> {
    let needed = width * height * 4;
    if needed <= usize::MAX && rgba.len() >= needed {
        Some(rgba.take(needed))
    } else {
        None
    }
}

/// Takes the image's bytes out of `rgba` (see `image_bytes`).
fn take_image_bytes(width: u32, height: u32, rgba: Vec<u8>) -> (r: Option<Vec<u8>>)
    ensures
        bytes_of(r) == image_bytes(width, height, rgba@),
{
    proof {
        assert((width as int) * (height as int) <= 0xFFFF_FFFF * 0xFFFF_FFFF) by (nonlinear_arith)
            requires
                width <= 0xFFFF_FFFF,
                height <= 0xFFFF_FFFF,
        ;
    }
    let needed: u128 = (width as u128) * (height as u128) * 4;
    if needed > usize::MAX as u128 {
        return None;
    }
    let needed = needed as usize;
    if rgba.len() < needed {
        return None;
    }
    let mut pixels = rgba;
    pixels.truncate(needed);
    proof {
        assert(pixels@ == rgba@.take(needed as int));
    }
    Some(pixels)
}

/// What encoding an RGBA buffer as PNG gives: the buffer must hold at least the image's
/// `width * height * 4` bytes (a count that must fit in memory), of which the first that many
/// are the pixels.
pub open spec fn rgba_png(width: u32, height: u32, rgba: Seq<u8>) -> Option<Seq<u8>> {
    match image_bytes(width, height, rgba) {
        Some(px) => png_rgba8(width, height, px),
        None => None,
    }
}

/// Encodes a `width` x `height` RGBA buffer as a PNG file. It is written exactly when the
/// buffer holds the image and the image is not empty.
pub fn encode_rgba_png(width: u32, height: u32, rgba: Vec<u8>) -> (r: Option<Vec<u8>>)
    ensures
        bytes_of(r) == rgba_png(width, height, rgba@),
        r is Some <==> (image_bytes(width, height, rgba@) is Some && width > 0 && height > 0),
        r matches Some(v) ==> v@.len() >= 8 && v@.subrange(0, 8) == png_signature(),
{
    match take_image_bytes(width, height, rgba) {
        Some(pixels) => write_rgba8(ImageFileFormat::Png, width, height, pixels.as_slice()),
        None => None,
    }
}

/// What encoding an RGBA buffer as an ICO file gives: the PNG of the image's bytes in a
/// one-entry ICO container, for images from 1 to 256 pixels on a side.
pub open spec fn rgba_ico(width: u32, height: u32, rgba: Seq<u8>) -> Option<Seq<u8>> {
    match image_bytes(width, height, rgba) {
        Some(px) => if 1 <= width <= 256 && 1 <= height <= 256 {
            match png_rgba8(width, height, px) {
                Some(p) => Some(ico_file(width, height, p)),
                None => None,
            }
        } else {
            None
        },
        None => None,
    }
}

/// Encodes a `width` x `height` RGBA buffer as an ICO file.
pub fn encode_rgba_ico(width: u32, height: u32, rgba: Vec<u8>) -> (r: Option<Vec<u8>>)
    ensures
        bytes_of(r) == rgba_ico(width, height, rgba@),
        r is Some <==> (image_bytes(width, height, rgba@) is Some && 1 <= width <= 256 && 1
            <= height <= 256),
{
    match take_image_bytes(width, height, rgba) {
        Some(pixels) => {
            let r = write_rgba8(ImageFileFormat::Ico, width, height, pixels.as_slice());
            proof {
                if 1 <= width <= 256 && 1 <= height <= 256 {
                    // the PNG inside is written for every non-empty image
                    assert(png_rgba8(width, height, pixels@) is Some);
                }
            }
            r
        },
        None => None,
    }
}

/// The PNG file that a clipboard DIB is saved as.
pub open spec fn dib_png(dib: Seq<u8>) -> Option<Seq<u8>> {
    if dib_decodable(dib) {
        png_rgba8(dib_width(dib) as u32, dib_rows(dib) as u32, dib_rgba(dib))
    } else {
        None
    }
}

/// Turns the device-independent bitmap that the clipboard holds into a PNG file.
pub fn grab_clipboard_bitmap(dib: &[u8]) -> (r: Option<Vec<u8>>)
    ensures
        bytes_of(r) == dib_png(dib@),
        r is Some <==> (dib_decodable(dib@) && dib_width(dib@) > 0 && dib_rows(dib@) > 0),
{
    match decode_dib(dib) {
        Some(img) => {
            let r = encode_rgba_png(img.width, img.height, img.pixels);
            proof {
                assert(dib_rgba(dib@).take(dib_rgba(dib@).len() as int) =~= dib_rgba(dib@));
            }
            r
        },
        None => None,
    }
}


/// A screen capture's blue-green-red-x pixels turned into opaque red-green-blue-alpha:
/// in each whole 4-byte pixel the first and third bytes trade places and the fourth becomes
/// 255; bytes after the last whole pixel stay as they are.
pub open spec fn opaque_rgba_of_bgra(s: Seq<u8>) -> Seq<u8> {
    let whole = (s.len() / 4) * 4;
    Seq::new(
        s.len(),
        |i: int|
            if i < whole {
                if i % 4 == 0 {
                    s[i + 2]
                } else if i % 4 == 2 {
                    s[i - 2]
                } else if i % 4 == 3 {
                    255u8
                } else {
                    s[i]
                }
            } else {
                s[i]
            },
    )
}

/// Converts captured BGRX pixels to opaque RGBA in place.
pub fn bgra_to_rgba_opaque(buf: &mut Vec<u8>)
    ensures
        final(buf)@ == opaque_rgba_of_bgra(old(buf)@),
{
    let ghost orig = buf@;
    let n = buf.len();
    let whole = n / 4 * 4;
    let mut i: usize = 0;
    while i < whole
        invariant
            orig == old(buf)@,
            n == orig.len(),
            whole == (orig.len() / 4) * 4,
            buf@.len() == n,
            i <= whole,
            i % 4 == 0,
            forall|j: int| 0 <= j < i ==> #[trigger] buf@[j] == opaque_rgba_of_bgra(orig)[j],
            forall|j: int| i <= j < n ==> #[trigger] buf@[j] == orig[j],
        decreases whole - i,
    {
        let blue = buf[i];
        let red = buf[i + 2];
        buf.set(i, red);
        buf.set(i + 2, blue);
        buf.set(i + 3, 255);
        i = i + 4;
    }
    proof {
        assert(buf@ =~= opaque_rgba_of_bgra(orig));
    }
}

/// The PNG file that a capture of the whole `width` x `height` virtual screen is saved as.
pub open spec fn screen_png(width: i32, height: i32, bgra: Seq<u8>) -> Option<Seq<u8>> {
    if width <= 0 || height <= 0 {
        None
    } else {
        rgba_png(width as u32, height as u32, opaque_rgba_of_bgra(bgra))
    }
}

/// The length of the BGRX buffer that holds a capture of a `width` x `height` screen, or
/// `None` for an empty screen or one whose pixels would not fit in memory.
pub fn screen_buffer_len(width: i32, height: i32) -> (r: Option<usize>)
    ensures
        r is Some <==> (width > 0 && height > 0 && width * height * 4 <= usize::MAX),
        r matches Some(n) ==> n == width * height * 4,
{
    if width <= 0 || height <= 0 {
        return None;
    }
    proof {
        assert((width as int) * (height as int) <= 0x7FFF_FFFF * 0x7FFF_FFFF) by (nonlinear_arith)
            requires
                0 < width <= 0x7FFF_FFFF,
                0 < height <= 0x7FFF_FFFF,
        ;
    }
    let n: u128 = (width as u128) * (height as u128) * 4;
    if n > usize::MAX as u128 {
        None
    } else {
        Some(n as usize)
    }
}

/// Turns a capture of the whole virtual screen, read back as BGRX rows top to bottom, into a
/// PNG file; an empty screen gives none.
pub fn capture_fullscreen_png(width: i32, height: i32, bgra: Vec<u8>) -> (r: Option<Vec<u8>>)
    ensures
        bytes_of(r) == screen_png(width, height, bgra@),
        r is Some <==> (width > 0 && height > 0 && width * height * 4 <= usize::MAX && bgra@.len()
            >= width * height * 4),
{
    if width <= 0 || height <= 0 {
        return None;
    }
    let mut buf = bgra;
    bgra_to_rgba_opaque(&mut buf);
    encode_rgba_png(width as u32, height as u32, buf)
}

} // verus!
