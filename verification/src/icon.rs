use vstd::prelude::*;
use crate::png::{encode_rgba_ico, ico_file, png_rgba8};

verus! {

/// The orange of the tray and desktop icons, as red, green, blue, alpha.
pub const COLOR_ORANGE: [u8; 4] = [0xD4, 0x57, 0x0A, 0xFF];

/// Side of the tray icon, in pixels.
pub const TRAY_ICON_SIZE: u32 = 16;

/// Side of the icon written for the desktop shortcut, in pixels.
pub const ICON_SIZE: u32 = 48;

/// Pixel (`x`, `y`) of a `size` x `size` icon lies in the drawn disc: its centre is within
/// `size / 2 - 1` of the icon's centre. Doubled so that every quantity is an integer, this is
/// `(x + 0.5 - size/2)^2 + (y + 0.5 - size/2)^2 <= (size/2 - 1)^2`.
pub open spec fn in_circle(size: int, x: int, y: int) -> bool {
    (2 * x + 1 - size) * (2 * x + 1 - size) + (2 * y + 1 - size) * (2 * y + 1 - size) <= (size
        - 2) * (size - 2)
}

/// Whether the `i`-th pixel, counting row by row, of a `size` x `size` icon is in the disc.
pub open spec fn circle_pixel(size: int, i: int) -> bool {
    in_circle(size, i % size, i / size)
}

/// Bit `i` of a packed monochrome mask: most significant bit first within each byte.
pub open spec fn mask_bit(mask: Seq<u8>, i: int) -> u8 {
    (mask[i / 8] >> ((7 - i % 8) as u8)) & 1u8
}

/// The 32-bit colour word of an icon pixel: blue, green, red, then an opaque alpha byte,
/// read little-endian.
pub open spec fn bgra_word(c: Seq<u8>) -> u32 {
    (c[2] + 256 * c[1] + 65536 * c[0] + 0xFF00_0000) as u32
}

/// The two bitmaps that make up a Windows icon.
pub struct IconBits {
    /// One bit per pixel, row by row; a clear bit shows the colour word, a set bit lets the
    /// background through.
    pub and_mask: Vec<u8>,
    /// One 32-bit colour word per pixel, row by row.
    pub color: Vec<u32>,
}

fn in_circle_exec(size: u32, x: u32, y: u32) -> (r: bool)
    ensures
        r == in_circle(size as int, x as int, y as int),
{
    let dx: i128 = 2 * (x as i128) + 1 - (size as i128);
    let dy: i128 = 2 * (y as i128) + 1 - (size as i128);
    let rr: i128 = (size as i128) - 2;
    proof {
        assert(-2 <= rr <= 0x2_0000_0000);
        assert(-0x2_0000_0000 <= dx <= 0x2_0000_0000);
        assert(-0x2_0000_0000 <= dy <= 0x2_0000_0000);
        assert(dx * dx <= 0x4_0000_0000_0000_0000) by (nonlinear_arith)
            requires
                -0x2_0000_0000 <= dx <= 0x2_0000_0000,
        ;
        assert(dy * dy <= 0x4_0000_0000_0000_0000) by (nonlinear_arith)
            requires
                -0x2_0000_0000 <= dy <= 0x2_0000_0000,
        ;
        assert(rr * rr <= 0x4_0000_0000_0000_0000) by (nonlinear_arith)
            requires
                -0x2_0000_0000 <= rr <= 0x2_0000_0000,
        ;
        assert(dx * dx >= 0) by (nonlinear_arith);
        assert(rr * rr >= 0) by (nonlinear_arith);
        assert(dy * dy >= 0) by (nonlinear_arith);
    }
    dx * dx + dy * dy <= rr * rr
}

proof fn lemma_clear_bit(b: u8, bit: u8, k: u8)
    by (bit_vector)
    requires
        bit < 8,
        k < 8,
    ensures
        ((b & !(1u8 << bit)) >> k) & 1u8 == if k == bit {
            0u8
        } else {
            (b >> k) & 1u8
        },
{
}

proof fn lemma_all_ones(k: u8)
    by (bit_vector)
    requires
        k < 8,
    ensures
        (0xFFu8 >> k) & 1u8 == 1u8,
{
}

/// The AND mask and colour words of the tray icon: a disc of `rgba` on a transparent
/// background, `size` pixels square.
pub fn circle_icon_bits(size: u32, rgba: [u8; 4]) -> (r: IconBits)
    requires
        size % 4 == 0,
        size * size <= usize::MAX,
    ensures
        r.and_mask@.len() == size * size / 8,
        r.color@.len() == size * size,
        forall|i: int|
            0 <= i < size * size ==> #[trigger] mask_bit(r.and_mask@, i) == if circle_pixel(
                size as int,
                i,
            ) {
                0u8
            } else {
                1u8
            },
        forall|i: int|
            0 <= i < size * size ==> #[trigger] r.color@[i] == if circle_pixel(size as int, i) {
                bgra_word(rgba@)
            } else {
                0u32
            },
{
    let n: usize = (size as usize) * (size as usize);
    proof {
        let k = size / 4;
        assert((size as int) * (size as int) == 16 * (k * k)) by (nonlinear_arith)
            requires
                size == 4 * k,
        ;
        assert(n % 8 == 0);
    }
    let mut and_mask: Vec<u8> = vec![0xFFu8; n / 8];
    let mut color: Vec<u32> = vec![0u32; n];
    let word: u32 = (rgba[2] as u32) + 256 * (rgba[1] as u32) + 65536 * (rgba[0] as u32)
        + 0xFF00_0000;
    assert(word == bgra_word(rgba@));
    proof {
        assert forall|i: int| 0 <= i < n implies #[trigger] mask_bit(and_mask@, i) == 1u8 by {
            lemma_all_ones((7 - i % 8) as u8);
        }
    }
    let sz = size as usize;
    for idx in 0..n
        invariant
            n == size * size,
            n % 8 == 0,
            sz == size,
            n == 0 || size > 0,
            word == bgra_word(rgba@),
            and_mask@.len() == n / 8,
            color@.len() == n,
            forall|i: int|
                0 <= i < n ==> #[trigger] mask_bit(and_mask@, i) == if i < idx && circle_pixel(
                    size as int,
                    i,
                ) {
                    0u8
                } else {
                    1u8
                },
            forall|i: int|
                0 <= i < n ==> #[trigger] color@[i] == if i < idx && circle_pixel(size as int, i) {
                    word
                } else {
                    0u32
                },
    {
        proof {
            assert(idx / sz < sz) by (nonlinear_arith)
                requires
                    0 <= idx < sz * sz,
                    sz > 0,
            ;
        }
        let x = (idx % sz) as u32;
        let y = (idx / sz) as u32;
        assert(circle_pixel(size as int, idx as int) == in_circle(size as int, x as int, y as int));
        if in_circle_exec(size, x, y) {
            let byte = idx / 8;
            let bit = (7 - idx % 8) as u8;
            let ghost old_mask = and_mask@;
            let old_byte = and_mask[byte];
            and_mask.set(byte, old_byte & !(1u8 << bit));
            color.set(idx, word);
            proof {
                assert forall|i: int| 0 <= i < n implies #[trigger] mask_bit(and_mask@, i) == if i
                    < idx + 1 && circle_pixel(size as int, i) {
                    0u8
                } else {
                    1u8
                } by {
                    let k = (7 - i % 8) as u8;
                    if i / 8 == byte {
                        assert(i % 8 == idx % 8 ==> i == idx);
                        assert((k == bit) == (i == idx));
                        lemma_clear_bit(old_byte, bit, k);
                        assert(old_mask[i / 8] == old_byte);
                        assert(mask_bit(old_mask, i) == (old_byte >> k) & 1u8);
                        assert(and_mask@[i / 8] == old_byte & !(1u8 << bit));
                        assert(mask_bit(and_mask@, i) == ((old_byte & !(1u8 << bit)) >> k) & 1u8);
                    } else {
                        assert(and_mask@[i / 8] == old_mask[i / 8]);
                        assert(mask_bit(and_mask@, i) == mask_bit(old_mask, i));
                    }
                }
            }
        }
    }
    IconBits { and_mask, color }
}


/// The RGBA pixels of a `size` x `size` disc of colour `rgba` on a transparent background.
pub open spec fn circle_rgba(size: int, rgba: Seq<u8>) -> Seq<u8> {
    Seq::new((size * size * 4) as nat, |k: int| if circle_pixel(size, k / 4) { rgba[k % 4] } else { 0u8 })
}

/// The pixels of the desktop-shortcut icon: `rgba` inside the disc, fully transparent black
/// outside, as RGBA rows top to bottom.
pub fn circle_icon_rgba(size: u32, rgba: [u8; 4]) -> (r: Vec<u8>)
    requires
        size * size * 4 <= usize::MAX,
    ensures
        r@.len() == size * size * 4,
        r@ == circle_rgba(size as int, rgba@),
        forall|i: int, ch: int|
            0 <= i < size * size && 0 <= ch < 4 ==> #[trigger] r@[i * 4 + ch] == if circle_pixel(
                size as int,
                i,
            ) {
                rgba@[ch]
            } else {
                0u8
            },
{
    let sz = size as usize;
    let n: usize = sz * sz;
    let mut px: Vec<u8> = Vec::new();
    for idx in 0..n
        invariant
            sz == size,
            n == size * size,
            n * 4 <= usize::MAX,
            n == 0 || size > 0,
            px@.len() == idx * 4,
            forall|i: int, ch: int|
                0 <= i < idx && 0 <= ch < 4 ==> #[trigger] px@[i * 4 + ch] == if circle_pixel(
                    size as int,
                    i,
                ) {
                    rgba@[ch]
                } else {
                    0u8
                },
    {
        proof {
            assert(idx / sz < sz) by (nonlinear_arith)
                requires
                    0 <= idx < sz * sz,
                    sz > 0,
            ;
        }
        let x = (idx % sz) as u32;
        let y = (idx / sz) as u32;
        assert(circle_pixel(size as int, idx as int) == in_circle(size as int, x as int, y as int));
        let ghost before = px@;
        if in_circle_exec(size, x, y) {
            px.push(rgba[0]);
            px.push(rgba[1]);
            px.push(rgba[2]);
            px.push(rgba[3]);
        } else {
            px.push(0);
            px.push(0);
            px.push(0);
            px.push(0);
        }
        proof {
            assert forall|i: int, ch: int| 0 <= i < idx + 1 && 0 <= ch < 4 implies #[trigger] px@[i
                * 4 + ch] == if circle_pixel(size as int, i) {
                rgba@[ch]
            } else {
                0u8
            } by {
                if i < idx {
                    assert(px@[i * 4 + ch] == before[i * 4 + ch]);
                }
            }
        }
    }
    proof {
        assert forall|k: int| 0 <= k < px@.len() implies #[trigger] px@[k] == circle_rgba(size as int, rgba@)[k] by {
            assert(k == (k / 4) * 4 + k % 4);
            assert(px@[(k / 4) * 4 + k % 4] == if circle_pixel(size as int, k / 4) { rgba@[k % 4] } else { 0u8 });
        }
        assert(px@ =~= circle_rgba(size as int, rgba@));
    }
    px
}

/// The `.ico` file written for the desktop shortcut: the orange disc, `ICON_SIZE` pixels
/// square, as a PNG inside a one-entry ICO container.
pub fn desktop_icon_file() -> (r: Vec<u8>)
    ensures
        png_rgba8(ICON_SIZE, ICON_SIZE, circle_rgba(ICON_SIZE as int, COLOR_ORANGE@)) matches Some(p)
            && r@ == ico_file(ICON_SIZE, ICON_SIZE, p),
{
    let px = circle_icon_rgba(ICON_SIZE, COLOR_ORANGE);
    let ghost pv = px@;
    let file = encode_rgba_ico(ICON_SIZE, ICON_SIZE, px);
    proof {
        assert(pv.take(pv.len() as int) =~= pv);
    }
    match file {
        Some(v) => v,
        None => {
            proof {
                assert(false);
            }
            Vec::new()
        },
    }
}

/// The desktop-shortcut icon renders the same disc as the tray icon: at equal size and
/// colour, a pixel shows the colour in the desktop icon exactly where the tray icon's AND
/// mask lets its colour word through, and is transparent exactly where the mask is set.
pub proof fn lemma_icons_draw_same_circle(size: u32, rgba: [u8; 4], bits: IconBits, px: Seq<u8>, i: int)
    requires
        0 <= i < size * size,
        px.len() == size * size * 4,
        forall|j: int|
            0 <= j < size * size ==> #[trigger] mask_bit(bits.and_mask@, j) == if circle_pixel(
                size as int,
                j,
            ) {
                0u8
            } else {
                1u8
            },
        forall|j: int|
            0 <= j < size * size ==> #[trigger] bits.color@[j] == if circle_pixel(size as int, j) {
                bgra_word(rgba@)
            } else {
                0u32
            },
        forall|j: int, ch: int|
            0 <= j < size * size && 0 <= ch < 4 ==> #[trigger] px[j * 4 + ch] == if circle_pixel(
                size as int,
                j,
            ) {
                rgba@[ch]
            } else {
                0u8
            },
    ensures
        mask_bit(bits.and_mask@, i) == 0 ==> px.subrange(i * 4, i * 4 + 4) == rgba@ && bits.color@[i]
            == bgra_word(rgba@),
        mask_bit(bits.and_mask@, i) == 1 ==> px.subrange(i * 4, i * 4 + 4) == seq![0u8, 0u8, 0u8, 0u8]
            && bits.color@[i] == 0,
{
    assert(mask_bit(bits.and_mask@, i) == 0 || mask_bit(bits.and_mask@, i) == 1);
    assert(px[i * 4 + 0] == px.subrange(i * 4, i * 4 + 4)[0]);
    assert(px[i * 4 + 1] == px.subrange(i * 4, i * 4 + 4)[1]);
    assert(px[i * 4 + 2] == px.subrange(i * 4, i * 4 + 4)[2]);
    assert(px[i * 4 + 3] == px.subrange(i * 4, i * 4 + 4)[3]);
    if circle_pixel(size as int, i) {
        assert(px.subrange(i * 4, i * 4 + 4) =~= rgba@);
    } else {
        assert(px.subrange(i * 4, i * 4 + 4) =~= seq![0u8, 0u8, 0u8, 0u8]);
    }
}

} // verus!
