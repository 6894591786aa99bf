//! Conversion of an 8-bit coverage raster into the packed 1-bit form:
//! rows of `ceil(width / 8)` bytes, most significant bit first, a pixel set
//! when its coverage is at least 128.
use vstd::prelude::*;

verus! {

/// Coverage at or above this value turns a pixel on.
pub const PACK_THRESHOLD: u8 = 128;

/// Bytes per packed row of a glyph `w` pixels wide.
pub open spec fn stride_of(w: nat) -> nat {
    (w + 7) / 8
}

/// Whether pixel `(x, y)` of a row-major `w`-wide coverage raster is on;
/// columns at or past `w` (row padding) are always off.
pub open spec fn coverage_bit(gray: Seq<u8>, w: nat, y: nat, x: nat) -> bool {
    x < w && gray[(y * w + x) as int] >= PACK_THRESHOLD
}

/// `weight` when `on`, else zero.
pub open spec fn bit_value(on: bool, weight: u8) -> u8 {
    if on { weight } else { 0 }
}

/// The packed byte `bx` of row `y`: columns `8 * bx .. 8 * bx + 8`, the
/// leftmost in the most significant bit.
pub open spec fn packed_byte(gray: Seq<u8>, w: nat, y: nat, bx: nat) -> u8 {
    bit_value(coverage_bit(gray, w, y, bx * 8), 0x80)
        | bit_value(coverage_bit(gray, w, y, bx * 8 + 1), 0x40)
        | bit_value(coverage_bit(gray, w, y, bx * 8 + 2), 0x20)
        | bit_value(coverage_bit(gray, w, y, bx * 8 + 3), 0x10)
        | bit_value(coverage_bit(gray, w, y, bx * 8 + 4), 0x08)
        | bit_value(coverage_bit(gray, w, y, bx * 8 + 5), 0x04)
        | bit_value(coverage_bit(gray, w, y, bx * 8 + 6), 0x02)
        | bit_value(coverage_bit(gray, w, y, bx * 8 + 7), 0x01)
}

/// The packed form of a `w` by `h` raster: `stride_of(w) * h` bytes, row
/// by row, byte `y * stride + bx` being `packed_byte(gray, w, y, bx)`. A
/// raster with no pixels packs to nothing.
pub open spec fn packed_bits(gray: Seq<u8>, w: nat, h: nat) -> Seq<u8> {
    Seq::new(
        stride_of(w) * h,
        |k: int| packed_byte(gray, w, (k / stride_of(w) as int) as nat, (k % stride_of(w) as int) as nat),
    )
}

/// Byte `bx` of row `y` sits at `y * stride + bx` of the packed form.
pub proof fn lemma_packed_index(gray: Seq<u8>, w: nat, h: nat, y: nat, bx: nat)
    requires
        y < h,
        bx < stride_of(w),
    ensures
        y * stride_of(w) + bx < packed_bits(gray, w, h).len(),
        packed_bits(gray, w, h)[(y * stride_of(w) + bx) as int] == packed_byte(gray, w, y, bx),
{
    let s = stride_of(w);
    lemma_row_index(y, bx, s, h);
    assert(h * s == s * h) by (nonlinear_arith);
    vstd::arithmetic::div_mod::lemma_fundamental_div_mod_converse(
        (y * s + bx) as int,
        s as int,
        y as int,
        bx as int,
    );
}

proof fn lemma_mask_selects(b0: bool, b1: bool, b2: bool, b3: bool, b4: bool, b5: bool, b6: bool, b7: bool, j: u8)
    requires
        j < 8,
    ensures
        ((bit_value(b0, 0x80) | bit_value(b1, 0x40) | bit_value(b2, 0x20) | bit_value(b3, 0x10)
            | bit_value(b4, 0x08) | bit_value(b5, 0x04) | bit_value(b6, 0x02) | bit_value(b7, 0x01))
            & (0x80u8 >> j) != 0) == (if j == 0 {
            b0
        } else if j == 1 {
            b1
        } else if j == 2 {
            b2
        } else if j == 3 {
            b3
        } else if j == 4 {
            b4
        } else if j == 5 {
            b5
        } else if j == 6 {
            b6
        } else {
            b7
        }),
{
    let v0 = bit_value(b0, 0x80);
    let v1 = bit_value(b1, 0x40);
    let v2 = bit_value(b2, 0x20);
    let v3 = bit_value(b3, 0x10);
    let v4 = bit_value(b4, 0x08);
    let v5 = bit_value(b5, 0x04);
    let v6 = bit_value(b6, 0x02);
    let v7 = bit_value(b7, 0x01);
    assert(((v0 | v1 | v2 | v3 | v4 | v5 | v6 | v7) & (0x80u8 >> j) != 0) == (if j == 0 {
        v0 != 0
    } else if j == 1 {
        v1 != 0
    } else if j == 2 {
        v2 != 0
    } else if j == 3 {
        v3 != 0
    } else if j == 4 {
        v4 != 0
    } else if j == 5 {
        v5 != 0
    } else if j == 6 {
        v6 != 0
    } else {
        v7 != 0
    })) by (bit_vector)
        requires
            j < 8,
            v0 == 0 || v0 == 0x80,
            v1 == 0 || v1 == 0x40,
            v2 == 0 || v2 == 0x20,
            v3 == 0 || v3 == 0x10,
            v4 == 0 || v4 == 0x08,
            v5 == 0 || v5 == 0x04,
            v6 == 0 || v6 == 0x02,
            v7 == 0 || v7 == 0x01,
    ;
}

/// Pixel `(x, y)` of a packed raster lives in byte `y * stride + (x >> 3)`
/// under mask `0x80 >> (x & 7)`, and that bit is set exactly when the pixel
/// lies inside the glyph and its coverage is at least 128.
pub proof fn lemma_pixel_addressing(r: Seq<u8>, gray: Seq<u8>, w: nat, h: nat, x: nat, y: nat)
    requires
        r == packed_bits(gray, w, h),
        y < h,
        x < stride_of(w) * 8,
    ensures
        y * stride_of(w) + x / 8 < r.len(),
        (r[(y * stride_of(w) + x / 8) as int] & (0x80u8 >> ((x % 8) as u8)) != 0) == coverage_bit(
            gray,
            w,
            y,
            x,
        ),
{
    let bx = x / 8;
    let j = x % 8;
    assert(x == bx * 8 + j);
    assert(bx < stride_of(w));
    lemma_packed_index(gray, w, h, y, bx);
    lemma_mask_selects(
        coverage_bit(gray, w, y, bx * 8),
        coverage_bit(gray, w, y, bx * 8 + 1),
        coverage_bit(gray, w, y, bx * 8 + 2),
        coverage_bit(gray, w, y, bx * 8 + 3),
        coverage_bit(gray, w, y, bx * 8 + 4),
        coverage_bit(gray, w, y, bx * 8 + 5),
        coverage_bit(gray, w, y, bx * 8 + 6),
        coverage_bit(gray, w, y, bx * 8 + 7),
        j as u8,
    );
}

proof fn lemma_row_index(y: nat, bx: nat, stride: nat, h: nat)
    requires
        y < h,
        bx < stride,
    ensures
        y * stride + bx < h * stride,
        y * stride + bx < (y + 1) * stride,
        (y + 1) * stride <= h * stride,
{
    assert(y * stride + bx < (y + 1) * stride) by (nonlinear_arith)
        requires bx < stride;
    assert((y + 1) * stride <= h * stride) by (nonlinear_arith)
        requires y < h;
}

proof fn lemma_pixel_index(y: nat, x: nat, w: nat, h: nat)
    requires
        y < h,
        x < w,
    ensures
        y * w + x < h * w,
        y * w + x < w * h,
{
    lemma_row_index(y, x, w, h);
    assert(h * w == w * h) by (nonlinear_arith);
}

fn pixel_on(gray: &[u8], w: u32, h: u32, y: u32, x: u64) -> (on: bool)
    requires
        y < h,
        gray@.len() >= (w as nat) * (h as nat),
    ensures
        on == coverage_bit(gray@, w as nat, y as nat, x as nat),
{
    if x < w as u64 {
        let n = gray.len();
        proof {
            lemma_pixel_index(y as nat, x as nat, w as nat, h as nat);
            assert((y as nat) * (w as nat) + (x as nat) < n as nat);
        }
        let yw: usize = (y as usize) * (w as usize);
        let i: usize = yw + (x as usize);
        gray[i] >= PACK_THRESHOLD
    } else {
        false
    }
}

fn pack_byte(gray: &[u8], w: u32, h: u32, y: u32, bx: u64) -> (b: u8)
    requires
        y < h,
        bx < 0x2000_0000,
        gray@.len() >= (w as nat) * (h as nat),
    ensures
        b == packed_byte(gray@, w as nat, y as nat, bx as nat),
{
    let x = bx * 8;
    let b0: u8 = if pixel_on(gray, w, h, y, x) { 0x80 } else { 0 };
    let b1: u8 = if pixel_on(gray, w, h, y, x + 1) { 0x40 } else { 0 };
    let b2: u8 = if pixel_on(gray, w, h, y, x + 2) { 0x20 } else { 0 };
    let b3: u8 = if pixel_on(gray, w, h, y, x + 3) { 0x10 } else { 0 };
    let b4: u8 = if pixel_on(gray, w, h, y, x + 4) { 0x08 } else { 0 };
    let b5: u8 = if pixel_on(gray, w, h, y, x + 5) { 0x04 } else { 0 };
    let b6: u8 = if pixel_on(gray, w, h, y, x + 6) { 0x02 } else { 0 };
    let b7: u8 = if pixel_on(gray, w, h, y, x + 7) { 0x01 } else { 0 };
    b0 | b1 | b2 | b3 | b4 | b5 | b6 | b7
}

/// Packs a row-major `w` by `h` coverage raster into 1-bit rows of
/// `ceil(w / 8)` bytes; returns the bytes and the stride. An empty raster
/// (zero width or height) packs to no bytes.
pub fn pack_bitmap_1b(gray: &[u8], w: u32, h: u32) -> (r: (Vec<u8>, usize))
    requires
        gray@.len() >= (w as nat) * (h as nat),
    ensures
        r.1 == stride_of(w as nat),
        r.0@ == packed_bits(gray@, w as nat, h as nat),
{
    let stride: usize = ((w as u64 + 7) / 8) as usize;
    let mut packed: Vec<u8> = Vec::new();
    let ghost full = packed_bits(gray@, w as nat, h as nat);
    if w == 0 || h == 0 {
        assert(stride_of(w as nat) * (h as nat) == 0) by (nonlinear_arith)
            requires w == 0 || h == 0, stride_of(w as nat) == (w as nat + 7) / 8;
        assert(packed@ =~= full);
        return (packed, stride);
    }
    assert(stride * (h as nat) <= (w as nat) * (h as nat)) by (nonlinear_arith)
        requires stride == (w as nat + 7) / 8, w >= 1;
    let mut y: u32 = 0;
    while y < h
        invariant
            0 < w,
            0 < h,
            y <= h,
            stride == stride_of(w as nat),
            full == packed_bits(gray@, w as nat, h as nat),
            gray@.len() >= (w as nat) * (h as nat),
            y * stride <= full.len(),
            packed@ == full.take(y * stride),
        decreases h - y,
    {
        let mut bx: usize = 0;
        while bx < stride
            invariant
                0 < w,
                y < h,
                bx <= stride,
                stride == stride_of(w as nat),
                full == packed_bits(gray@, w as nat, h as nat),
                gray@.len() >= (w as nat) * (h as nat),
                packed@ == full.take(y * stride + bx),
            decreases stride - bx,
        {
            proof {
                lemma_packed_index(gray@, w as nat, h as nat, y as nat, bx as nat);
            }
            let b = pack_byte(gray, w, h, y, bx as u64);
            packed.push(b);
            bx = bx + 1;
            assert(packed@ =~= full.take(y * stride + bx));
        }
        proof {
            assert((y + 1) * stride == y * stride + stride) by (nonlinear_arith);
            lemma_row_index(y as nat, 0, stride as nat, h as nat);
            assert(h * stride == stride * h) by (nonlinear_arith);
        }
        y = y + 1;
    }
    assert(full.len() == (h as nat) * stride) by (nonlinear_arith)
        requires full.len() == stride_of(w as nat) * (h as nat), stride == stride_of(w as nat);
    assert(packed@ =~= full);
    (packed, stride)
}

} // verus!
