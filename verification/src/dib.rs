use vstd::prelude::*;

verus! {

/// A little-endian 16-bit field at byte `i`.
pub open spec fn u16_at(b: Seq<u8>, i: int) -> int {
    b[i] + 256 * b[i + 1]
}

/// A little-endian 32-bit field at byte `i`.
pub open spec fn u32_at(b: Seq<u8>, i: int) -> int {
    b[i] + 256 * b[i + 1] + 65536 * b[i + 2] + 16777216 * b[i + 3]
}

/// A little-endian two's-complement 32-bit field at byte `i`.
pub open spec fn i32_at(b: Seq<u8>, i: int) -> int {
    let u = u32_at(b, i);
    if u >= 0x8000_0000 {
        u - 0x1_0000_0000
    } else {
        u
    }
}

/// Size in bytes of a `BITMAPINFOHEADER`, with which every clipboard DIB begins.
pub const BITMAPINFOHEADER_SIZE: usize = 40;

/// `BI_BITFIELDS`: the header is followed by three 32-bit colour masks.
pub const BI_BITFIELDS: u32 = 3;

// Fields of the BITMAPINFOHEADER at the start of a DIB.

/// `biSize`: the length of the header, after which the colour table or masks follow.
pub open spec fn dib_header_size(b: Seq<u8>) -> int {
    u32_at(b, 0)
}

/// `biWidth`, taken as an unsigned number of columns.
pub open spec fn dib_width(b: Seq<u8>) -> int {
    u32_at(b, 4)
}

/// `biHeight`: negative for rows stored top-down, otherwise rows are stored bottom-up.
pub open spec fn dib_height(b: Seq<u8>) -> int {
    i32_at(b, 8)
}

/// The number of rows: the magnitude of `biHeight`.
pub open spec fn dib_rows(b: Seq<u8>) -> int {
    let h = dib_height(b);
    if h < 0 {
        -h
    } else {
        h
    }
}

/// `biBitCount`: bits per pixel.
pub open spec fn dib_bit_count(b: Seq<u8>) -> int {
    u16_at(b, 14)
}

/// `biCompression`.
pub open spec fn dib_compression(b: Seq<u8>) -> int {
    u32_at(b, 16)
}

/// The DIB stores 24- or 32-bit blue-green-red pixels, the formats whose pixels are read;
/// any other bit count gives black pixels.
pub open spec fn dib_is_direct_color(b: Seq<u8>) -> bool {
    dib_bit_count(b) == 24 || dib_bit_count(b) == 32
}

/// Where the pixel rows of a 24- or 32-bit DIB begin: after the header and, for a
/// 40-byte header with `BI_BITFIELDS`, after the three colour masks. Such DIBs have no
/// colour table.
pub open spec fn dib_pixel_offset(b: Seq<u8>) -> int {
    dib_header_size(b) + if dib_compression(b) == BI_BITFIELDS && dib_header_size(b) == 40 {
        12int
    } else {
        0int
    }
}

/// Bytes per stored row: the row's bits rounded up to a whole number of 32-bit words.
pub open spec fn dib_stride(b: Seq<u8>) -> int {
    ((dib_width(b) * dib_bit_count(b) + 31) / 32) * 4
}

/// Bytes per pixel of a 24- or 32-bit DIB.
pub open spec fn dib_pixel_bytes(b: Seq<u8>) -> int {
    dib_bit_count(b) / 8
}

/// The stored row that holds output row `row` (output rows run top to bottom).
pub open spec fn dib_source_row(b: Seq<u8>, row: int) -> int {
    if dib_height(b) < 0 {
        row
    } else {
        dib_rows(b) - 1 - row
    }
}

/// The byte at which the stored pixel shown at (`row`, `col`) begins.
pub open spec fn dib_pixel_start(b: Seq<u8>, row: int, col: int) -> int {
    dib_pixel_offset(b) + dib_source_row(b, row) * dib_stride(b) + col * dib_pixel_bytes(b)
}

/// Every byte that decoding reads lies inside the DIB: the blue, green and red bytes of
/// each stored pixel of a 24- or 32-bit DIB.
pub open spec fn dib_reads_in_bounds(b: Seq<u8>) -> bool {
    dib_is_direct_color(b) && dib_width(b) > 0 && dib_rows(b) > 0 ==> dib_pixel_offset(b) + (
    dib_rows(b) - 1) * dib_stride(b) + (dib_width(b) - 1) * dib_pixel_bytes(b) + 2 < b.len()
}

/// A DIB that decoding accepts: a whole header, pixel data inside the buffer, and an
/// RGBA result whose length fits in memory.
pub open spec fn dib_decodable(b: Seq<u8>) -> bool {
    &&& b.len() >= BITMAPINFOHEADER_SIZE
    &&& dib_width(b) * dib_rows(b) * 4 <= usize::MAX
    &&& dib_reads_in_bounds(b)
}

/// Channel `ch` (0 red, 1 green, 2 blue, 3 alpha) of the output pixel at (`row`, `col`):
/// stored pixels are blue, green, red; alpha is always opaque; a DIB of another bit count
/// gives black.
pub open spec fn dib_channel(b: Seq<u8>, row: int, col: int, ch: int) -> int {
    if ch == 3 {
        255
    } else if dib_is_direct_color(b) {
        b[dib_pixel_start(b, row, col) + 2 - ch] as int
    } else {
        0
    }
}

/// Position of channel `ch` of pixel (`row`, `col`) in a row-major RGBA buffer `w` pixels wide.
pub open spec fn rgba_index(w: int, row: int, col: int, ch: int) -> int {
    (row * w + col) * 4 + ch
}

/// The RGBA bytes that a DIB decodes to, row-major, top row first.
pub open spec fn dib_rgba(b: Seq<u8>) -> Seq<u8> {
    let w = dib_width(b);
    Seq::new((w * dib_rows(b) * 4) as nat, |k: int| dib_channel(b, (k / 4) / w, (k / 4) % w, k % 4) as u8)
}

/// Every position of a row-major RGBA buffer `w` pixels wide and `h` high is the position of
/// exactly one channel of one pixel.
pub proof fn lemma_rgba_decompose(w: int, h: int, k: int)
    requires
        w > 0,
        0 <= k < w * h * 4,
    ensures
        0 <= (k / 4) / w < h,
        0 <= (k / 4) % w < w,
        0 <= k % 4 < 4,
        rgba_index(w, (k / 4) / w, (k / 4) % w, k % 4) == k,
{
    let q = k / 4;
    let row = q / w;
    let col = q % w;
    vstd::arithmetic::div_mod::lemma_fundamental_div_mod(k, 4);
    vstd::arithmetic::div_mod::lemma_fundamental_div_mod(q, w);
    assert(q < w * h);
    assert(0 <= col < w) by {
        vstd::arithmetic::div_mod::lemma_mod_pos_bound(q, w);
    }
    assert(0 <= row < h) by (nonlinear_arith)
        requires
            q == w * row + col,
            0 <= col < w,
            0 <= q < w * h,
            w > 0,
    ;
    assert((row * w + col) * 4 + k % 4 == k) by (nonlinear_arith)
        requires
            q == w * row + col,
            k == 4 * q + k % 4,
    ;
}

/// Position `(row * w + col) * 4 + ch` of the decoded bytes holds channel `ch` of pixel
/// (`row`, `col`).
proof fn lemma_rgba_at(b: Seq<u8>, row: int, col: int, ch: int)
    requires
        dib_width(b) > 0,
        0 <= row < dib_rows(b),
        0 <= col < dib_width(b),
        0 <= ch < 4,
    ensures
        0 <= (row * dib_width(b) + col) * 4 + ch < dib_rgba(b).len(),
        dib_rgba(b)[(row * dib_width(b) + col) * 4 + ch] == dib_channel(b, row, col, ch) as u8,
{
    let w = dib_width(b);
    let h = dib_rows(b);
    let q = row * w + col;
    let k = q * 4 + ch;
    assert(0 <= q < w * h) by (nonlinear_arith)
        requires
            0 <= row < h,
            0 <= col < w,
            q == row * w + col,
    ;
    vstd::arithmetic::div_mod::lemma_fundamental_div_mod_converse(k, 4, q, ch);
    vstd::arithmetic::div_mod::lemma_fundamental_div_mod_converse(q, w, row, col);
}

/// A bottom-up DIB shows its rows in the reverse of the order of the same DIB marked
/// top-down: negating `biHeight` (and changing nothing else) turns the picture upside down,
/// whatever the bit count.
pub proof fn lemma_height_sign_flips_rows(b: Seq<u8>, t: Seq<u8>, row: int, col: int, ch: int)
    requires
        dib_decodable(b),
        dib_header_size(b) >= BITMAPINFOHEADER_SIZE,
        t.len() == b.len(),
        forall|i: int| 0 <= i < b.len() && !(8 <= i < 12) ==> t[i] == b[i],
        0 < u32_at(b, 8) < 0x8000_0000,
        u32_at(t, 8) == 0x1_0000_0000 - u32_at(b, 8),
        0 <= row < dib_rows(b),
        0 <= col < dib_width(b),
        0 <= ch < 4,
    ensures
        dib_decodable(t),
        dib_rows(t) == dib_rows(b),
        dib_width(t) == dib_width(b),
        dib_rgba(t)[(row * dib_width(t) + col) * 4 + ch] == dib_rgba(b)[((dib_rows(b) - 1 - row)
            * dib_width(b) + col) * 4 + ch],
{
    assert(t[0] == b[0] && t[1] == b[1] && t[2] == b[2] && t[3] == b[3]);
    assert(t[4] == b[4] && t[5] == b[5] && t[6] == b[6] && t[7] == b[7]);
    assert(t[14] == b[14] && t[15] == b[15]);
    assert(t[16] == b[16] && t[17] == b[17] && t[18] == b[18] && t[19] == b[19]);
    assert(dib_width(t) == dib_width(b));
    assert(dib_rows(t) == dib_rows(b));
    assert(dib_bit_count(t) == dib_bit_count(b));
    assert(dib_pixel_offset(t) == dib_pixel_offset(b));
    assert(dib_stride(t) == dib_stride(b));
    lemma_rgba_at(t, row, col, ch);
    lemma_rgba_at(b, dib_rows(b) - 1 - row, col, ch);
    assert(dib_height(t) < 0 && dib_height(b) > 0);
    if dib_is_direct_color(b) {
        let p = dib_pixel_start(b, dib_rows(b) - 1 - row, col);
        assert(dib_pixel_start(t, row, col) == p);
        lemma_mul_le(0, dib_source_row(b, dib_rows(b) - 1 - row), dib_stride(b));
        lemma_mul_le(0, col, dib_pixel_bytes(b));
        assert(p >= 40);
        if ch < 3 {
            lemma_mul_le(dib_source_row(b, dib_rows(b) - 1 - row), dib_rows(b) - 1, dib_stride(b));
            lemma_mul_le(col, dib_width(b) - 1, dib_pixel_bytes(b));
            assert(p + 2 < b.len());
            assert(t[p + 2 - ch] == b[p + 2 - ch]);
        }
    }
}

/// An image of 8-bit red, green, blue, alpha pixels, rows top to bottom.
pub struct RgbaImage {
    pub width: u32,
    pub height: u32,
    pub pixels: Vec<u8>,
}

fn read_u16(b: &[u8], i: usize) -> (r: u32)
    requires
        i + 2 <= b@.len(),
    ensures
        r == u16_at(b@, i as int),
{
    (b[i] as u32) + (b[i + 1] as u32) * 256
}

fn read_u32(b: &[u8], i: usize) -> (r: u32)
    requires
        i + 4 <= b@.len(),
    ensures
        r == u32_at(b@, i as int),
{
    (b[i] as u32) + (b[i + 1] as u32) * 256 + (b[i + 2] as u32) * 65536 + (b[i + 3] as u32)
        * 16777216
}

proof fn lemma_row_before(w: int, r: int, row: int, c: int)
    by (nonlinear_arith)
    requires
        0 <= r < row,
        0 <= c < w,
    ensures
        r * w + c < row * w,
{
}

proof fn lemma_mul_bound(a: int, b: int, x: int, y: int)
    by (nonlinear_arith)
    requires
        0 <= a <= x,
        0 <= b <= y,
    ensures
        a * b <= x * y,
{
}

proof fn lemma_next_row(w: int, row: int)
    by (nonlinear_arith)
    ensures
        (row + 1) * w == row * w + w,
{
}

proof fn lemma_mul_le(a: int, b: int, k: int)
    by (nonlinear_arith)
    requires
        0 <= a <= b,
        0 <= k,
    ensures
        a * k <= b * k,
{
}


/// Decodes a device-independent bitmap (a `BITMAPINFOHEADER` followed by optional masks
/// and the pixel rows) into RGBA rows running top to bottom.
///
/// Returns `None` when the buffer is shorter than the header, when the RGBA result would
/// not fit in memory, or when the pixel rows would lie beyond the end of the buffer.
pub fn decode_dib(dib: &[u8]) -> (r: Option<RgbaImage>)
    ensures
        r is Some <==> dib_decodable(dib@),
        r matches Some(img) ==> {
            &&& img.width == dib_width(dib@)
            &&& img.height == dib_rows(dib@)
            &&& img.pixels@.len() == img.width * img.height * 4
            &&& img.pixels@ == dib_rgba(dib@)
            &&& forall|row: int, col: int, ch: int|
                0 <= row < img.height && 0 <= col < img.width && 0 <= ch < 4
                    ==> img.pixels@[rgba_index(img.width as int, row, col, ch)]
                    == #[trigger] dib_channel(dib@, row, col, ch)
        },
        // The same result, read straight off the header fields: `biWidth` columns, |`biHeight`|
        // rows; rows are stored bottom-up unless `biHeight` is negative; each stored row of a
        // 24- or 32-bit DIB is padded to whole 32-bit words and starts after the header and,
        // for `BI_BITFIELDS` with a 40-byte header, the three masks; a pixel's stored bytes are
        // blue, green, red; alpha is opaque; other bit counts give black.
        r matches Some(img) ==> img.width == u32_at(dib@, 4),
        r matches Some(img) ==> img.height == if u32_at(dib@, 8) >= 0x8000_0000 {
            0x1_0000_0000 - u32_at(dib@, 8)
        } else {
            u32_at(dib@, 8)
        },
        r matches Some(img) ==> forall|k: int|
            0 <= k < img.pixels@.len() ==> {
                let w = img.width as int;
                let h = img.height as int;
                let (row, col, ch) = ((k / 4) / w, (k / 4) % w, k % 4);
                let bpp = u16_at(dib@, 14);
                let stored_row = if u32_at(dib@, 8) >= 0x8000_0000 { row } else { h - 1 - row };
                let masks = if u32_at(dib@, 16) == 3 && u32_at(dib@, 0) == 40 { 12int } else { 0int };
                let start = u32_at(dib@, 0) + masks + stored_row * (((w * bpp + 31) / 32) * 4) + col * (bpp / 8);
                #[trigger] img.pixels@[k] == if ch == 3 {
                    255u8
                } else if bpp == 24 || bpp == 32 {
                    dib@[start + 2 - ch]
                } else {
                    0u8
                }
            },
{
    if dib.len() < BITMAPINFOHEADER_SIZE {
        return None;
    }
    let header_size = read_u32(dib, 0);
    let width = read_u32(dib, 4);
    let height_bits = read_u32(dib, 8);
    let bit_count = read_u16(dib, 14);
    let compression = read_u32(dib, 16);
    let top_down = height_bits >= 0x8000_0000;
    let rows: u32 = if top_down {
        (0x1_0000_0000u64 - height_bits as u64) as u32
    } else {
        height_bits
    };
    proof {
        lemma_mul_bound(width as int, rows as int, 0xFFFF_FFFF, 0xFFFF_FFFF);
    }
    let total: u128 = (width as u128) * (rows as u128) * 4;
    if total > usize::MAX as u128 {
        return None;
    }
    let direct = bit_count == 24 || bit_count == 32;
    let mask_size: u128 = if compression == BI_BITFIELDS && header_size == 40 {
        12
    } else {
        0
    };
    let offset: u128 = header_size as u128 + mask_size;
    proof {
        lemma_mul_bound(width as int, bit_count as int, 0xFFFF_FFFF, 0xFFFF);
    }
    let stride: u128 = ((width as u128 * bit_count as u128 + 31) / 32) * 4;
    let pixel_bytes: u128 = (bit_count / 8) as u128;
    assert(stride <= 0x4_0000_0000_0000);
    if direct && width > 0 && rows > 0 {
        proof {
            lemma_mul_bound(rows as int - 1, stride as int, 0xFFFF_FFFF, 0x4_0000_0000_0000);
            lemma_mul_bound(width as int - 1, pixel_bytes as int, 0xFFFF_FFFF, 0xFFFF);
        }
        let last = offset + (rows as u128 - 1) * stride + (width as u128 - 1) * pixel_bytes + 2;
        if last >= dib.len() as u128 {
            return None;
        }
    }
    let ghost b = dib@;
    let dib_len = dib.len();
    let mut pixels: Vec<u8> = Vec::new();
    let mut row: u32 = 0;
    while row < rows
        invariant
            b == dib@,
            dib_len == dib@.len(),
            width == dib_width(b),
            rows == dib_rows(b),
            direct == dib_is_direct_color(b),
            offset == dib_pixel_offset(b),
            stride == dib_stride(b),
            pixel_bytes == dib_pixel_bytes(b),
            top_down == (dib_height(b) < 0),
            dib_reads_in_bounds(b),
            total == width * rows * 4,
            total <= usize::MAX,
            row <= rows,
            pixels@.len() == row * width * 4,
            forall|r: int, c: int, ch: int|
                0 <= r < row && 0 <= c < width && 0 <= ch < 4
                    ==> pixels@[rgba_index(width as int, r, c, ch)]
                    == #[trigger] dib_channel(b, r, c, ch),
        decreases rows - row,
    {
        let src_row: u128 = if top_down {
            row as u128
        } else {
            (rows - 1 - row) as u128
        };
        assert(src_row == dib_source_row(b, row as int));
        let mut col: u32 = 0;
        while col < width
            invariant
                b == dib@,
                dib_len == dib@.len(),
                width == dib_width(b),
                rows == dib_rows(b),
                direct == dib_is_direct_color(b),
                offset == dib_pixel_offset(b),
                stride == dib_stride(b),
                pixel_bytes == dib_pixel_bytes(b),
                dib_reads_in_bounds(b),
                total == width * rows * 4,
                total <= usize::MAX,
                row < rows,
                src_row == dib_source_row(b, row as int),
                src_row <= rows - 1,
                col <= width,
                pixels@.len() == (row * width + col) * 4,
                forall|r: int, c: int, ch: int|
                    0 <= c < width && 0 <= ch < 4 && (0 <= r < row || (r == row && 0 <= c < col))
                        ==> pixels@[rgba_index(width as int, r, c, ch)]
                        == #[trigger] dib_channel(b, r, c, ch),
            decreases width - col,
        {
            let ghost old_pixels = pixels@;
            proof {
                lemma_row_before(width as int, row as int, rows as int, col as int);
                lemma_mul_le(row as int * width as int + col as int + 1, rows as int * width as int, 4);
            }
            if direct {
                proof {
                    lemma_mul_le(src_row as int, rows - 1, stride as int);
                    lemma_mul_le(col as int, width - 1, pixel_bytes as int);
                }
                let p128 = offset + src_row * stride + col as u128 * pixel_bytes;
                assert(p128 == dib_pixel_start(b, row as int, col as int));
                let p = p128 as usize;
                pixels.push(dib[p + 2]);
                pixels.push(dib[p + 1]);
                pixels.push(dib[p]);
            } else {
                pixels.push(0);
                pixels.push(0);
                pixels.push(0);
            }
            pixels.push(255);
            proof {
                let base = old_pixels.len() as int;
                assert forall|r: int, c: int, ch: int|
                    0 <= c < width && 0 <= ch < 4 && (0 <= r < row || (r == row && 0 <= c < col + 1))
                        implies pixels@[rgba_index(width as int, r, c, ch)]
                        == #[trigger] dib_channel(b, r, c, ch) by {
                    if r == row && c == col {
                        assert(rgba_index(width as int, r, c, ch) == base + ch);
                    } else {
                        if r < row {
                            lemma_row_before(width as int, r, row as int, c);
                        }
                        assert(rgba_index(width as int, r, c, ch) < base);
                        assert(pixels@[rgba_index(width as int, r, c, ch)]
                            == old_pixels[rgba_index(width as int, r, c, ch)]);
                    }
                }
            }
            col = col + 1;
        }
        proof {
            lemma_next_row(width as int, row as int);
        }
        row = row + 1;
    }
    proof {
        vstd::arithmetic::mul::lemma_mul_is_commutative(width as int, rows as int);
        if width > 0 {
            assert forall|k: int| 0 <= k < pixels@.len() implies pixels@[k] == #[trigger] dib_rgba(b)[k] by {
                lemma_rgba_decompose(width as int, rows as int, k);
                assert(dib_channel(b, (k / 4) / width as int, (k / 4) % width as int, k % 4) == pixels@[rgba_index(width as int, (k / 4) / width as int, (k / 4) % width as int, k % 4)]);
            }
        }
        assert(pixels@ =~= dib_rgba(b));
    }
    proof {
        assert forall|k: int| 0 <= k < pixels@.len() implies #[trigger] pixels@[k] == dib_rgba(b)[k] by {
        }
    }
    Some(RgbaImage { width, height: rows, pixels })
}

} // verus!
