//! Device-independent bitmaps, as the Windows clipboard hands them out.

use vstd::arithmetic::div_mod::*;
use vstd::arithmetic::mul::*;
use vstd::prelude::*;

verus! {

/// The bitmap's pixels are not compressed and hold their colours byte by byte.
pub const BI_RGB: u32 = 0;

/// The bitmap's pixels are not compressed and hold their colours under masks.
pub const BI_BITFIELDS: u32 = 3;

// ---------- colours under a mask ----------

/// `b`, moved down until the lowest bit of the mask `m` is at the bottom.
pub open spec fn lowered(b: nat, m: nat) -> nat
    decreases m,
{
    if m == 0 || m % 2 == 1 {
        b
    } else {
        lowered(b / 2, m / 2)
    }
}

/// The number whose binary form has as many ones as `m`, and no zeros.
pub open spec fn full_scale(m: nat) -> nat
    decreases m,
{
    if m == 0 {
        0
    } else if m % 2 == 1 {
        2 * full_scale(m / 2) + 1
    } else {
        full_scale(m / 2)
    }
}

/// The part of `v` under `mask`, scaled to eight bits and rounded.
pub open spec fn masked(v: u32, mask: u32) -> u8 {
    if mask == 0 {
        0
    } else {
        let raw = lowered((v & mask) as nat, mask as nat);
        let max = full_scale(mask as nat);
        ((raw * 255 + max / 2) / max % 256) as u8
    }
}

proof fn lemma_full_scale(m: nat)
    ensures
        full_scale(m) <= m,
        m > 0 ==> full_scale(m) >= 1,
    decreases m,
{
    if m > 0 {
        lemma_full_scale(m / 2);
    }
}

fn full_scale_of(m: u32) -> (r: u32)
    ensures
        r == full_scale(m as nat),
    decreases m,
{
    proof {
        lemma_full_scale(m as nat);
    }
    if m == 0 {
        0
    } else if m % 2 == 1 {
        let h = full_scale_of(m / 2);
        2 * h + 1
    } else {
        full_scale_of(m / 2)
    }
}

/// The colour component of `v` under `mask`, scaled to eight bits. The scaling
/// is done in 64 bits: it cannot overflow, however wide the mask.
pub fn extract_masked(v: u32, mask: u32) -> (r: u8)
    ensures
        r == masked(v, mask),
{
    if mask == 0 {
        return 0;
    }
    let mut raw: u32 = v & mask;
    let mut m: u32 = mask;
    while m % 2 == 0
        invariant
            m > 0,
            lowered((v & mask) as nat, mask as nat) == lowered(raw as nat, m as nat),
        decreases m,
    {
        raw = raw / 2;
        m = m / 2;
    }
    let max: u64 = full_scale_of(mask) as u64;
    proof {
        lemma_full_scale(mask as nat);
    }
    ((raw as u64 * 255 + max / 2) / max % 256) as u8
}

/// A component whose bits are all clear is 0.
pub proof fn masked_zero(v: u32, mask: u32)
    requires
        v & mask == 0,
    ensures
        masked(v, mask) == 0,
{
    if mask != 0 {
        lemma_lowered_zero(mask as nat);
        lemma_full_scale(mask as nat);
        let max = full_scale(mask as nat) as int;
        lemma_fundamental_div_mod_converse(max / 2, max, 0, max / 2);
        assert((0 * 255 + max / 2) / max == 0);
    }
}

proof fn lemma_lowered_zero(m: nat)
    ensures
        lowered(0, m) == 0,
    decreases m,
{
    if m > 0 && m % 2 == 0 {
        lemma_lowered_zero(m / 2);
    }
}

/// Whether the ones of `m` stand side by side.
pub open spec fn contiguous(m: nat) -> bool {
    lowered(m, m) == full_scale(m)
}

/// A component whose bits are all set, under a mask without gaps, is 255.
pub proof fn masked_full(v: u32, mask: u32)
    requires
        mask != 0,
        contiguous(mask as nat),
        v & mask == mask,
    ensures
        masked(v, mask) == 255,
{
    lemma_full_scale(mask as nat);
    let max = full_scale(mask as nat) as int;
    lemma_fundamental_div_mod_converse(max * 255 + max / 2, max, 255, max / 2);
}

// ---------- the header ----------

/// The 16-bit number at `o`, low byte first.
pub open spec fn le16(d: Seq<u8>, o: int) -> int {
    d[o] + 256 * d[o + 1]
}

/// The 32-bit number at `o`, low byte first.
pub open spec fn le32(d: Seq<u8>, o: int) -> int {
    d[o] + 256 * d[o + 1] + 65536 * d[o + 2] + 16777216 * d[o + 3]
}

/// The size of the header.
pub open spec fn header_size(d: Seq<u8>) -> int {
    le32(d, 0)
}

/// The width in pixels.
pub open spec fn width(d: Seq<u8>) -> int {
    le32(d, 4)
}

/// Whether the rows are stored from the top down: the height is negative then.
pub open spec fn top_down(d: Seq<u8>) -> bool {
    le32(d, 8) >= 0x8000_0000
}

/// The height in pixels.
pub open spec fn height(d: Seq<u8>) -> int {
    if top_down(d) {
        0x1_0000_0000 - le32(d, 8)
    } else {
        le32(d, 8)
    }
}

/// The bits of one pixel.
pub open spec fn bit_count(d: Seq<u8>) -> int {
    le16(d, 14)
}

/// The way in which pixels are stored.
pub open spec fn compression(d: Seq<u8>) -> int {
    le32(d, 16)
}

/// The bytes of one pixel.
pub open spec fn pixel_bytes(d: Seq<u8>) -> int {
    bit_count(d) / 8
}

/// The bytes of one stored row, which ends on a multiple of four.
pub open spec fn stride(d: Seq<u8>) -> int {
    (width(d) * pixel_bytes(d) + 3) / 4 * 4
}

/// Where the colour masks stand: inside a long header, behind a short one.
pub open spec fn masks_at(d: Seq<u8>) -> int {
    if header_size(d) >= 52 {
        40
    } else {
        header_size(d)
    }
}

/// Where the pixels start.
pub open spec fn pixels_at(d: Seq<u8>) -> int {
    if compression(d) == BI_BITFIELDS && header_size(d) < 52 {
        header_size(d) + 12
    } else {
        header_size(d)
    }
}

/// The bitmaps that can be read: a header of 40 bytes or more, a positive
/// width, a height other than 0, 16, 24 or 32 bits for a pixel, no
/// compression, and every row present.
pub open spec fn readable(d: Seq<u8>) -> bool {
    &&& d.len() >= 40
    &&& 40 <= header_size(d) <= d.len()
    &&& 0 < width(d) < 0x8000_0000
    &&& height(d) != 0
    &&& compression(d) == BI_RGB || compression(d) == BI_BITFIELDS
    &&& bit_count(d) == 16 || bit_count(d) == 24 || bit_count(d) == 32
    &&& pixels_at(d) + (height(d) - 1) * stride(d) + width(d) * pixel_bytes(d) <= d.len()
}

// ---------- the pixels ----------

/// Where the pixel of column `x` and row `y`, counted from the top, is stored.
pub open spec fn pixel_at(d: Seq<u8>, x: int, y: int) -> int {
    let row = if top_down(d) {
        y
    } else {
        height(d) - 1 - y
    };
    pixels_at(d) + row * stride(d) + x * pixel_bytes(d)
}

/// The stored colour at `o`: red, green, blue and opacity.
pub open spec fn colour_at(d: Seq<u8>, o: int) -> (u8, u8, u8, u8) {
    let bits = compression(d) == BI_BITFIELDS;
    let rm = le32(d, masks_at(d)) as u32;
    let gm = le32(d, masks_at(d) + 4) as u32;
    let bm = le32(d, masks_at(d) + 8) as u32;
    if bit_count(d) == 32 {
        if bits {
            let v = le32(d, o) as u32;
            (masked(v, rm), masked(v, gm), masked(v, bm), 255)
        } else {
            (d[o + 2], d[o + 1], d[o], d[o + 3])
        }
    } else if bit_count(d) == 24 {
        (d[o + 2], d[o + 1], d[o], 255)
    } else {
        let v = le16(d, o) as u32;
        if bits {
            (masked(v, rm), masked(v, gm), masked(v, bm), 255)
        } else {
            (masked(v, 0x7C00), masked(v, 0x03E0), masked(v, 0x001F), 255)
        }
    }
}

/// The colour of the pixel number `i`, counted row by row from the top left.
pub open spec fn colour(d: Seq<u8>, i: int) -> (u8, u8, u8, u8) {
    colour_at(d, pixel_at(d, i % width(d), i / width(d)))
}

/// Whether every pixel is stored as fully transparent: the opacity is then
/// taken as not given.
pub open spec fn no_opacity(d: Seq<u8>) -> bool {
    forall|i: int| 0 <= i < width(d) * height(d) ==> (#[trigger] colour(d, i)).3 == 0
}

/// Whether `px` holds `c` as the pixel number `i`.
pub open spec fn holds_pixel(px: Seq<u8>, i: int, c: (u8, u8, u8, u8)) -> bool {
    px[4 * i] == c.0 && px[4 * i + 1] == c.1 && px[4 * i + 2] == c.2 && px[4 * i + 3] == c.3
}

/// The colour of pixel `i` as it is handed out: opaque where no pixel has an opacity.
pub open spec fn shown(d: Seq<u8>, i: int) -> (u8, u8, u8, u8) {
    let c = colour(d, i);
    (c.0, c.1, c.2, if no_opacity(d) {
        255
    } else {
        c.3
    })
}

/// Whether `px` is the picture of the bitmap `d`: four bytes for each pixel,
/// row by row from the top left.
pub open spec fn is_picture(px: Seq<u8>, d: Seq<u8>) -> bool {
    &&& px.len() == width(d) * height(d) * 4
    &&& forall|i: int|
        0 <= i < width(d) * height(d) ==> holds_pixel(px, i, #[trigger] shown(d, i))
}

fn read16(d: &[u8], o: usize) -> (r: u32)
    requires
        o + 2 <= d@.len(),
    ensures
        r == le16(d@, o as int),
        r < 65536,
{
    d[o] as u32 + 256 * d[o + 1] as u32
}

fn read32(d: &[u8], o: usize) -> (r: u32)
    requires
        o + 4 <= d@.len(),
    ensures
        r == le32(d@, o as int),
{
    d[o] as u32 + 256 * d[o + 1] as u32 + 65536 * d[o + 2] as u32 + 16777216 * d[o + 3] as u32
}

/// A stored pixel lies inside the bitmap.
proof fn lemma_pixel_inside(d: Seq<u8>, x: int, y: int)
    requires
        readable(d),
        0 <= x < width(d),
        0 <= y < height(d),
    ensures
        pixels_at(d) <= pixel_at(d, x, y),
        pixel_at(d, x, y) + pixel_bytes(d) <= d.len(),
        0 <= stride(d),
{
    let row = if top_down(d) {
        y
    } else {
        height(d) - 1 - y
    };
    let w = width(d);
    let b = pixel_bytes(d);
    let s = stride(d);
    lemma_mul_nonnegative(w, b);
    lemma_mul_inequality(row, height(d) - 1, s);
    lemma_mul_nonnegative(row, s);
    lemma_mul_nonnegative(x, b);
    lemma_mul_inequality(x + 1, w, b);
    lemma_mul_is_distributive_add_other_way(b, x, 1);
}

/// Reads the colour that is stored at `o`.
fn read_colour(d: &[u8], o: usize, bits: u32, fields: bool, rm: u32, gm: u32, bm: u32) -> (r: (
    u8,
    u8,
    u8,
    u8,
))
    requires
        readable(d@),
        o + pixel_bytes(d@) <= d@.len(),
        bits == bit_count(d@),
        fields == (compression(d@) == BI_BITFIELDS),
        fields ==> rm == le32(d@, masks_at(d@)) && gm == le32(d@, masks_at(d@) + 4) && bm == le32(
            d@,
            masks_at(d@) + 8,
        ),
        !fields ==> rm == 0x7C00 && gm == 0x03E0 && bm == 0x001F,
    ensures
        r == colour_at(d@, o as int),
{
    let _n: usize = d.len();
    if bits == 32 {
        if fields {
            let v = read32(d, o);
            (extract_masked(v, rm), extract_masked(v, gm), extract_masked(v, bm), 255)
        } else {
            (d[o + 2], d[o + 1], d[o], d[o + 3])
        }
    } else if bits == 24 {
        (d[o + 2], d[o + 1], d[o], 255)
    } else {
        let v = read16(d, o);
        (extract_masked(v, rm), extract_masked(v, gm), extract_masked(v, bm), 255)
    }
}

/// Turns a bitmap into its pixels, four bytes each, with its width and height.
pub fn rgba_from_dib(dib: &[u8]) -> (r: Option<(Vec<u8>, u32, u32)>)
    requires
        dib@.len() <= isize::MAX,
    ensures
        match r {
            Some((px, w, h)) => readable(dib@) && w == width(dib@) && h == height(dib@)
                && is_picture(px@, dib@),
            None => !readable(dib@),
        },
{
    let n: usize = dib.len();
    if n < 40 {
        return None;
    }
    let head: u32 = read32(dib, 0);
    if head < 40 || (head as u64) > (n as u64) {
        return None;
    }
    let w: u32 = read32(dib, 4);
    let raw_height: u32 = read32(dib, 8);
    let bits: u32 = read16(dib, 14);
    let comp: u32 = read32(dib, 16);
    if w == 0 || w >= 0x8000_0000 || raw_height == 0 {
        return None;
    }
    let down: bool = raw_height >= 0x8000_0000;
    let h: u32 = if down {
        (0x1_0000_0000u64 - raw_height as u64) as u32
    } else {
        raw_height
    };
    let fields: bool = comp == BI_BITFIELDS;
    let mut off: u64 = head as u64;
    let mut rm: u32 = 0x7C00;
    let mut gm: u32 = 0x03E0;
    let mut bm: u32 = 0x001F;
    if fields {
        let at: u64 = if head >= 52 {
            40
        } else {
            head as u64
        };
        if head < 52 {
            off = off + 12;
            if off > n as u64 {
                assert(!readable(dib@)) by {
                    let d = dib@;
                    if readable(d) {
                        lemma_pixel_inside(d, 0, 0);
                    }
                }
                return None;
            }
        }
        rm = read32(dib, at as usize);
        gm = read32(dib, at as usize + 4);
        bm = read32(dib, at as usize + 8);
    } else if comp != BI_RGB {
        return None;
    }
    if bits != 16 && bits != 24 && bits != 32 {
        return None;
    }
    let bpp: u64 = (bits / 8) as u64;
    proof {
        assert(0 <= w * bpp <= 0xffff_ffff * 4) by (nonlinear_arith)
            requires
                0 <= w <= 0xffff_ffff,
                0 <= bpp <= 4,
        ;
    }
    let line: u64 = w as u64 * bpp;
    let step: u64 = (line + 3) / 4 * 4;
    let ghost d = dib@;
    proof {
        assert(bpp == pixel_bytes(d));
        assert(line == width(d) * pixel_bytes(d));
        assert(step == stride(d));
        assert((h - 1) * step <= 0xffff_ffff * 0x4_0000_0000u64) by (nonlinear_arith)
            requires
                0 <= h - 1 <= 0xffff_ffff,
                0 <= step <= 0x4_0000_0000,
        ;
        assert(0 <= (h - 1) * step) by (nonlinear_arith)
            requires
                0 <= h - 1,
                0 <= step,
        ;
    }
    let needed: u128 = off as u128 + (h - 1) as u128 * step as u128 + line as u128;
    if needed > n as u128 {
        return None;
    }
    assert(readable(d));
    let mut px: Vec<u8> = Vec::new();
    let mut any_alpha: bool = false;
    let mut y: u32 = 0;
    let mut count: u64 = 0;
    proof {
        lemma_mul_is_commutative(w as int, 0);
        // the picture takes at most twice the room of the bitmap
        lemma_picture_size(d);
    }
    while y < h
        invariant
            d == dib@,
            readable(d),
            n == d.len(),
            w == width(d),
            h == height(d),
            down == top_down(d),
            bits == bit_count(d),
            bpp == pixel_bytes(d),
            step == stride(d),
            off == pixels_at(d),
            fields == (compression(d) == BI_BITFIELDS),
            fields ==> rm == le32(d, masks_at(d)) && gm == le32(d, masks_at(d) + 4) && bm == le32(
                d,
                masks_at(d) + 8,
            ),
            !fields ==> rm == 0x7C00 && gm == 0x03E0 && bm == 0x001F,
            y <= h,
            count == y * w,
            px@.len() == 4 * count,
            width(d) * height(d) * 4 <= usize::MAX,
            forall|i: int| 0 <= i < count ==> holds_pixel(px@, i, #[trigger] colour(d, i)),
            any_alpha == exists|i: int| 0 <= i < count && (#[trigger] colour(d, i)).3 != 0,
        decreases h - y,
    {
        let row: u32 = if down {
            y
        } else {
            h - 1 - y
        };
        proof {
            lemma_pixel_inside(d, 0, y as int);
            lemma_mul_is_commutative(0, bpp as int);
            lemma_mul_nonnegative(row as int, step as int);
        }
        let start: u64 = off + row as u64 * step;
        let mut x: u32 = 0;
        while x < w
            invariant
                d == dib@,
                readable(d),
                n == d.len(),
                w == width(d),
                h == height(d),
                down == top_down(d),
                bits == bit_count(d),
                bpp == pixel_bytes(d),
                step == stride(d),
                off == pixels_at(d),
                fields == (compression(d) == BI_BITFIELDS),
                fields ==> rm == le32(d, masks_at(d)) && gm == le32(d, masks_at(d) + 4) && bm
                    == le32(d, masks_at(d) + 8),
                !fields ==> rm == 0x7C00 && gm == 0x03E0 && bm == 0x001F,
                y < h,
                x <= w,
                row == (if down {
                    y as int
                } else {
                    h - 1 - y
                }),
                start == off + row * step,
                count == y * w + x,
                px@.len() == 4 * count,
                width(d) * height(d) * 4 <= usize::MAX,
                forall|i: int| 0 <= i < count ==> holds_pixel(px@, i, #[trigger] colour(d, i)),
                any_alpha == exists|i: int| 0 <= i < count && (#[trigger] colour(d, i)).3 != 0,
            decreases w - x,
        {
            proof {
                lemma_pixel_inside(d, x as int, y as int);
                lemma_fundamental_div_mod_converse(count as int, w as int, y as int, x as int);
                lemma_mul_inequality(y + 1, h as int, w as int);
                lemma_mul_is_distributive_add_other_way(w as int, y as int, 1);
                lemma_mul_is_commutative(w as int, h as int);
                assert(colour(d, count as int) == colour_at(d, pixel_at(d, x as int, y as int)));
                lemma_mul_nonnegative(x as int, bpp as int);
            }
            let o: u64 = start + x as u64 * bpp;
            let c = read_colour(dib, o as usize, bits, fields, rm, gm, bm);
            let ghost before = px@;
            px.push(c.0);
            px.push(c.1);
            px.push(c.2);
            px.push(c.3);
            proof {
                assert forall|i: int| 0 <= i < count + 1 implies holds_pixel(
                    px@,
                    i,
                    #[trigger] colour(d, i),
                ) by {
                    if i < count {
                        assert(holds_pixel(before, i, colour(d, i)));
                    }
                }
            }
            let ghost had = any_alpha;
            if c.3 != 0 {
                any_alpha = true;
            }
            proof {
                assert(colour(d, count as int) == c);
                if had {
                    let i = choose|i: int| 0 <= i < count && (#[trigger] colour(d, i)).3 != 0;
                    assert(0 <= i < count + 1 && colour(d, i).3 != 0);
                }
            }
            x = x + 1;
            count = count + 1;
        }
        proof {
            lemma_mul_is_distributive_add_other_way(w as int, y as int, 1);
        }
        y = y + 1;
    }
    proof {
        lemma_mul_is_commutative(w as int, h as int);
    }
    if !any_alpha {
        let mut k: u64 = 0;
        assert(no_opacity(d));
        while k < count
            invariant
                readable(d),
                no_opacity(d),
                count == width(d) * height(d),
                k <= count,
                px@.len() == 4 * count,
                px@.len() <= usize::MAX,
                forall|i: int| 0 <= i < k ==> holds_pixel(px@, i, #[trigger] shown(d, i)),
                forall|i: int| k <= i < count ==> holds_pixel(px@, i, #[trigger] colour(d, i)),
            decreases count - k,
        {
            let ghost before = px@;
            assert(holds_pixel(before, k as int, colour(d, k as int)));
            px.set((4 * k + 3) as usize, 255);
            proof {
                assert forall|i: int| 0 <= i < k + 1 implies holds_pixel(
                    px@,
                    i,
                    #[trigger] shown(d, i),
                ) by {
                    if i < k {
                        assert(holds_pixel(before, i, shown(d, i)));
                    }
                }
                assert forall|i: int| k < i < count implies holds_pixel(
                    px@,
                    i,
                    #[trigger] colour(d, i),
                ) by {
                    assert(holds_pixel(before, i, colour(d, i)));
                }
            }
            k = k + 1;
        }
    } else {
        proof {
            let i = choose|i: int| 0 <= i < count && (#[trigger] colour(d, i)).3 != 0;
            assert(colour(d, i).3 != 0);
            assert(!no_opacity(d));
            assert forall|j: int| 0 <= j < count implies holds_pixel(
                px@,
                j,
                #[trigger] shown(d, j),
            ) by {
                assert(holds_pixel(px@, j, colour(d, j)));
            }
        }
    }
    Some((px, w, h))
}

/// The picture of a bitmap takes at most twice the bitmap's room.
proof fn lemma_picture_size(d: Seq<u8>)
    requires
        readable(d),
    ensures
        width(d) * height(d) * 4 <= 2 * d.len(),
{
    let w = width(d);
    let h = height(d);
    let b = pixel_bytes(d);
    let s = stride(d);
    assert(w * 2 <= w * b) by (nonlinear_arith)
        requires
            b >= 2,
            w > 0,
    ;
    assert(w * b <= s);
    assert((h - 1) * (w * 2) <= (h - 1) * s) by (nonlinear_arith)
        requires
            h - 1 >= 0,
            w * 2 <= s,
    ;
    assert(w * h * 4 == 2 * ((h - 1) * (w * 2) + w * 2)) by (nonlinear_arith);
}

// ---------- the two directions ----------

/// Whether two bitmaps are the same but for the direction of their rows: the one has
/// the height `n`, from the bottom up, and the other `-n`, from the top down.
pub open spec fn opposite(a: Seq<u8>, b: Seq<u8>) -> bool {
    &&& a.len() == b.len()
    &&& forall|i: int| 0 <= i < a.len() && !(8 <= i < 12) ==> #[trigger] a[i] == b[i]
    &&& 0 < le32(a, 8) < 0x8000_0000
    &&& le32(b, 8) == 0x1_0000_0000 - le32(a, 8)
}

proof fn lemma_opposite_header(a: Seq<u8>, b: Seq<u8>)
    requires
        opposite(a, b),
        a.len() >= 40,
    ensures
        header_size(a) == header_size(b),
        width(a) == width(b),
        height(a) == height(b),
        !top_down(a),
        top_down(b),
        bit_count(a) == bit_count(b),
        compression(a) == compression(b),
        readable(a) == readable(b),
        stride(a) == stride(b),
        pixels_at(a) == pixels_at(b),
        masks_at(a) == masks_at(b),
{
    assert(a[0] == b[0] && a[1] == b[1] && a[2] == b[2] && a[3] == b[3]);
    assert(a[4] == b[4] && a[5] == b[5] && a[6] == b[6] && a[7] == b[7]);
    assert(a[14] == b[14] && a[15] == b[15]);
    assert(a[16] == b[16] && a[17] == b[17] && a[18] == b[18] && a[19] == b[19]);
}

proof fn lemma_opposite_colour(a: Seq<u8>, b: Seq<u8>, o: int)
    requires
        opposite(a, b),
        readable(a),
        pixels_at(a) <= o,
        o + pixel_bytes(a) <= a.len(),
    ensures
        colour_at(a, o) == colour_at(b, o),
{
    lemma_opposite_header(a, b);
    assert forall|k: int| 40 <= k && k + 4 <= a.len() implies #[trigger] le32(a, k) == le32(
        b,
        k,
    ) by {
        assert(a[k] == b[k] && a[k + 1] == b[k + 1] && a[k + 2] == b[k + 2] && a[k + 3] == b[k
            + 3]);
    }
    assert forall|k: int| 0 <= k < pixel_bytes(a) implies #[trigger] a[o + k] == b[o + k] by {}
    assert(a[o + 0] == b[o + 0]);
    assert(a[o + 1] == b[o + 1]);
    if bit_count(a) == 32 {
        assert(le32(a, o) == le32(b, o));
        assert(a[o + 2] == b[o + 2]);
        assert(a[o + 3] == b[o + 3]);
    } else if bit_count(a) == 24 {
        assert(a[o + 2] == b[o + 2]);
    } else {
        assert(le16(a, o) == le16(b, o));
    }
    if compression(a) == BI_BITFIELDS {
        let m = masks_at(a);
        assert(le32(a, m) == le32(b, m));
        assert(le32(a, m + 4) == le32(b, m + 4));
        assert(le32(a, m + 8) == le32(b, m + 8));
    }
}

/// The pixel in the same column of the row that is as far from the bottom as that of
/// pixel `i` from the top.
pub open spec fn mirrored(d: Seq<u8>, i: int) -> int {
    width(d) * (height(d) - 1 - i / width(d)) + i % width(d)
}

proof fn lemma_pixel_number(d: Seq<u8>, x: int, y: int)
    requires
        0 <= x < width(d),
        0 <= y < height(d),
    ensures
        (width(d) * y + x) % width(d) == x,
        (width(d) * y + x) / width(d) == y,
        0 <= width(d) * y + x < width(d) * height(d),
{
    let w = width(d);
    let h = height(d);
    lemma_mul_is_commutative(w, y);
    lemma_fundamental_div_mod_converse(w * y + x, w, y, x);
    assert(0 <= w * y && w * y + w <= w * h) by (nonlinear_arith)
        requires
            0 < w,
            0 <= y < h,
    ;
}

proof fn lemma_mirrored(a: Seq<u8>, b: Seq<u8>, i: int)
    requires
        opposite(a, b),
        readable(a),
        0 <= i < width(a) * height(a),
    ensures
        0 <= mirrored(a, i) < width(a) * height(a),
        colour(b, i) == colour(a, mirrored(a, i)),
        colour(a, i) == colour(b, mirrored(a, i)),
{
    lemma_opposite_header(a, b);
    let w = width(a);
    let h = height(a);
    let x = i % w;
    let y = i / w;
    lemma_fundamental_div_mod(i, w);
    assert(0 <= y < h) by (nonlinear_arith)
        requires
            i == w * y + x,
            0 <= i < w * h,
            0 <= x < w,
    ;
    lemma_pixel_number(a, x, h - 1 - y);
    lemma_pixel_inside(a, x, y);
    lemma_pixel_inside(a, x, h - 1 - y);
    assert(pixel_at(b, x, y) == pixel_at(a, x, h - 1 - y));
    assert(pixel_at(a, x, y) == pixel_at(b, x, h - 1 - y));
    lemma_opposite_colour(a, b, pixel_at(a, x, y));
    lemma_opposite_colour(a, b, pixel_at(a, x, h - 1 - y));
}

proof fn lemma_opposite_opacity(a: Seq<u8>, b: Seq<u8>)
    requires
        opposite(a, b),
        readable(a),
    ensures
        no_opacity(a) == no_opacity(b),
{
    lemma_opposite_header(a, b);
    if no_opacity(a) {
        assert forall|i: int| 0 <= i < width(b) * height(b) implies (#[trigger] colour(b, i)).3
            == 0 by {
            lemma_mirrored(a, b, i);
        }
    }
    if no_opacity(b) {
        assert forall|i: int| 0 <= i < width(a) * height(a) implies (#[trigger] colour(a, i)).3
            == 0 by {
            lemma_mirrored(a, b, i);
        }
    }
}

/// Row `y` of a picture of the width `w`, counted from the top.
pub open spec fn picture_row(px: Seq<u8>, w: int, y: int) -> Seq<u8> {
    px.subrange(4 * w * y, 4 * w * (y + 1))
}

proof fn lemma_opposite_shown(a: Seq<u8>, b: Seq<u8>, i: int)
    requires
        opposite(a, b),
        readable(a),
        0 <= i < width(a) * height(a),
    ensures
        0 <= mirrored(a, i) < width(a) * height(a),
        shown(b, i) == shown(a, mirrored(a, i)),
{
    lemma_opposite_opacity(a, b);
    lemma_mirrored(a, b, i);
}

proof fn lemma_same_bytes(
    a: Seq<u8>,
    b: Seq<u8>,
    p: Seq<u8>,
    q: Seq<u8>,
    j: int,
    i: int,
    c: int,
)
    requires
        is_picture(p, a),
        is_picture(q, b),
        0 <= j < width(a) * height(a),
        0 <= i < width(b) * height(b),
        shown(b, i) == shown(a, j),
        0 <= c < 4,
    ensures
        q[4 * i + c] == p[4 * j + c],
{
    assert(holds_pixel(q, i, shown(b, i)));
    assert(holds_pixel(p, j, shown(a, j)));
}

proof fn lemma_opposite_pixel(
    a: Seq<u8>,
    b: Seq<u8>,
    p: Seq<u8>,
    q: Seq<u8>,
    x: int,
    y: int,
    c: int,
)
    requires
        opposite(a, b),
        readable(a),
        is_picture(p, a),
        is_picture(q, b),
        0 <= x < width(a),
        0 <= y < height(a),
        0 <= c < 4,
    ensures
        q[4 * (width(a) * y + x) + c] == p[4 * (width(a) * (height(a) - 1 - y) + x) + c],
{
    lemma_opposite_header(a, b);
    let w = width(a);
    let z = height(a) - 1 - y;
    let i = w * y + x;
    let j = w * z + x;
    lemma_pixel_number(a, x, y);
    lemma_pixel_number(a, x, z);
    lemma_opposite_shown(a, b, i);
    assert(mirrored(a, i) == j);
    lemma_same_bytes(a, b, p, q, j, i, c);
}

proof fn lemma_row_place(w: int, h: int, y: int, k: int)
    requires
        0 < w,
        0 <= y < h,
        0 <= k < 4 * w,
    ensures
        0 <= 4 * w * y,
        4 * w * y + 4 * w == 4 * w * (y + 1),
        4 * w * (y + 1) <= w * h * 4,
        4 * w * y + k == 4 * (w * y + k / 4) + k % 4,
{
    assert(0 <= 4 * w * y && 4 * w * y + 4 * w == 4 * w * (y + 1) && 4 * w * (y + 1) <= w * h * 4)
        by (nonlinear_arith)
        requires
            0 < w,
            0 <= y < h,
    ;
    let x = k / 4;
    let c = k % 4;
    let i = w * y + x;
    assert(4 * w * y + k == 4 * i + c) by (nonlinear_arith)
        requires
            i == w * y + x,
            k == 4 * x + c,
    ;
}

proof fn lemma_opposite_row(a: Seq<u8>, b: Seq<u8>, p: Seq<u8>, q: Seq<u8>, y: int)
    requires
        opposite(a, b),
        readable(a),
        is_picture(p, a),
        is_picture(q, b),
        0 <= y < height(a),
        width(b) == width(a),
        height(b) == height(a),
    ensures
        picture_row(q, width(a), y) == picture_row(p, width(a), height(a) - 1 - y),
{
    let w = width(a);
    let h = height(a);
    let z = h - 1 - y;
    let s = picture_row(q, w, y);
    let t = picture_row(p, w, z);
    lemma_row_place(w, h, y, 0);
    lemma_row_place(w, h, z, 0);
    assert forall|k: int| 0 <= k < 4 * w implies s[k] == t[k] by {
        lemma_row_place(w, h, y, k);
        lemma_row_place(w, h, z, k);
        lemma_opposite_pixel(a, b, p, q, k / 4, y, k % 4);
    }
    assert(s =~= t);
}

/// The direction in which the rows are stored turns the picture upside down, and
/// changes nothing else: of two bitmaps that are the same but for the sign of the
/// height, the one can be read where the other can, and the rows of its picture are
/// those of the other in reverse order.
#[verifier::spinoff_prover]
pub proof fn opposite_rows_are_reversed(a: Seq<u8>, b: Seq<u8>, p: Seq<u8>, q: Seq<u8>)
    requires
        opposite(a, b),
        readable(a),
        is_picture(p, a),
        is_picture(q, b),
    ensures
        readable(b),
        width(b) == width(a),
        height(b) == height(a),
        q.len() == p.len(),
        forall|y: int|
            0 <= y < height(a) ==> #[trigger] picture_row(q, width(a), y) == picture_row(
                p,
                width(a),
                height(a) - 1 - y,
            ),
{
    lemma_opposite_header(a, b);
    assert forall|y: int| 0 <= y < height(a) implies #[trigger] picture_row(q, width(a), y)
        == picture_row(p, width(a), height(a) - 1 - y) by {
        lemma_opposite_row(a, b, p, q, y);
    }
}

// ---------- a bitmap to be filled ----------

/// Whether `d` starts as the bitmap of a picture of the given size: a header of
/// 40 bytes, 32 bits for a pixel, no compression, and room for every pixel.
pub open spec fn is_blank_bitmap(d: Seq<u8>, wide: int, high: int) -> bool {
    &&& d.len() == 40 + wide * abs(high) * 4
    &&& header_size(d) == 40
    &&& width(d) == wide
    &&& le32(d, 8) == (if high < 0 {
        high + 0x1_0000_0000
    } else {
        high
    })
    &&& le16(d, 12) == 1
    &&& bit_count(d) == 32
    &&& forall|i: int| 16 <= i < 40 ==> d[i] == 0
}

/// The distance of `n` from 0.
pub open spec fn abs(n: int) -> int {
    if n < 0 {
        -n
    } else {
        n
    }
}

/// A bitmap to be filled with the 32-bit pixels of a picture, in the direction
/// that the sign of the height gives: its header, and zeros for its pixels.
pub fn dib_from_bitmap(wide: i32, high: i32) -> (r: Option<Vec<u8>>)
    requires
        wide > 0 ==> 40 + wide * abs(high as int) * 4 <= isize::MAX,
    ensures
        match r {
            Some(d) => wide > 0 && high != 0 && is_blank_bitmap(d@, wide as int, high as int)
                && forall|i: int| 16 <= i < d@.len() ==> d@[i] == 0,
            None => wide <= 0 || high == 0,
        },
{
    if wide <= 0 || high == 0 {
        return None;
    }
    let tall: u64 = if high < 0 {
        (-(high as i64)) as u64
    } else {
        high as u64
    };
    proof {
        lemma_mul_nonnegative(wide as int, tall as int);
        assert(wide * tall <= 0x7fff_ffff * 0x8000_0000u64) by (nonlinear_arith)
            requires
                0 <= wide <= 0x7fff_ffff,
                0 <= tall <= 0x8000_0000,
        ;
    }
    let size: usize = (40 + wide as u64 * tall * 4) as usize;
    let mut d: Vec<u8> = vec![0u8; size];
    d.set(0, 40);
    put32(&mut d, 4, wide as u32);
    let h: u32 = if high < 0 {
        (high as i64 + 0x1_0000_0000) as u32
    } else {
        high as u32
    };
    put32(&mut d, 8, h);
    d.set(12, 1);
    d.set(14, 32);
    Some(d)
}

/// Writes a 32-bit number at `o`, low byte first.
fn put32(d: &mut Vec<u8>, o: usize, v: u32)
    requires
        o + 4 <= old(d)@.len(),
    ensures
        final(d)@.len() == old(d)@.len(),
        le32(final(d)@, o as int) == v,
        forall|i: int| 0 <= i < old(d)@.len() && !(o <= i < o + 4) ==> final(d)@[i] == old(d)@[i],
{
    let _n: usize = d.len();
    d.set(o, (v % 256) as u8);
    d.set(o + 1, (v / 256 % 256) as u8);
    d.set(o + 2, (v / 65536 % 256) as u8);
    d.set(o + 3, (v / 16777216) as u8);
}

/// However its pixels are filled in, such a bitmap can be read, and its picture
/// has the size that it was made for.
pub proof fn filled_bitmap_is_readable(d: Seq<u8>, wide: int, high: int)
    requires
        0 < wide <= i32::MAX,
        i32::MIN <= high <= i32::MAX,
        high != 0,
        is_blank_bitmap(d, wide, high),
    ensures
        readable(d),
        width(d) == wide,
        height(d) == abs(high),
        top_down(d) == (high < 0),
{
    let h = abs(high);
    assert(compression(d) == 0);
    assert(stride(d) == wide * 4);
    assert((h - 1) * (wide * 4) + wide * 4 == wide * h * 4) by (nonlinear_arith);
    lemma_mul_nonnegative(wide, h);
}

// ---------- laws of colours ----------

/// A part of eight bits is taken as it is, wherever in the number it stands.
pub proof fn eight_bits_stay(v: u32)
    ensures
        masked(v, 0xFF) == v % 256,
        masked(v, 0xFF00) == v / 256 % 256,
        masked(v, 0xFF_0000) == v / 65536 % 256,
        masked(v, 0xFF00_0000) == v / 16777216,
{
    assert(v & 0xFF == v % 256) by (bit_vector);
    assert(v & 0xFF00 == (v / 256 % 256) * 256) by (bit_vector);
    assert(v & 0xFF_0000 == (v / 65536 % 256) * 65536) by (bit_vector);
    assert(v & 0xFF00_0000 == (v / 16777216) * 16777216) by (bit_vector);
    lemma_two_to();
    lemma_part(v, 0xFF, (v % 256) as nat, 255, 0);
    lemma_part(v, 0xFF00, (v / 256 % 256) as nat, 255, 8);
    lemma_part(v, 0xFF_0000, (v / 65536 % 256) as nat, 255, 16);
    lemma_part(v, 0xFF00_0000, (v / 16777216) as nat, 255, 24);
    lemma_scaled((v % 256) as nat);
    lemma_scaled((v / 256 % 256) as nat);
    lemma_scaled((v / 65536 % 256) as nat);
    lemma_scaled((v / 16777216) as nat);
}

proof fn lemma_scale_moves(m: nat, k: nat)
    requires
        m > 0,
    ensures
        full_scale(m * vstd::arithmetic::power2::pow2(k)) == full_scale(m),
    decreases k,
{
    let p = vstd::arithmetic::power2::pow2(k);
    if k == 0 {
        vstd::arithmetic::power2::lemma2_to64();
        assert(m * p == m) by (nonlinear_arith)
            requires
                p == 1,
        ;
    } else {
        let q = vstd::arithmetic::power2::pow2((k - 1) as nat);
        vstd::arithmetic::power2::lemma_pow2_unfold(k);
        vstd::arithmetic::power2::lemma_pow2_pos(k);
        assert(m * p == 2 * (m * q)) by (nonlinear_arith)
            requires
                p == 2 * q,
        ;
        assert(m * p != 0) by (nonlinear_arith)
            requires
                m > 0,
                p > 0,
        ;
        assert((m * p) % 2 == 0);
        assert((m * p) / 2 == m * q);
        lemma_scale_moves(m, (k - 1) as nat);
    }
}

proof fn lemma_full_scales()
    ensures
        full_scale(255) == 255,
        full_scale(31) == 31,
{
    assert(full_scale(0) == 0);
    assert(full_scale(1) == 1);
    assert(full_scale(3) == 3);
    assert(full_scale(7) == 7);
    assert(full_scale(15) == 15);
    assert(full_scale(31) == 31);
    assert(full_scale(63) == 63);
    assert(full_scale(127) == 127);
}

/// What `masked` gives of the part `b` that stands under the mask `m`, moved up by `k`.
proof fn lemma_part(v: u32, mask: u32, b: nat, m: nat, k: nat)
    requires
        m == 255 || m == 31,
        b <= m,
        mask as nat == m * vstd::arithmetic::power2::pow2(k),
        (v & mask) as nat == b * vstd::arithmetic::power2::pow2(k),
    ensures
        masked(v, mask) == ((b * 255 + m / 2) / m % 256) as u8,
{
    vstd::arithmetic::power2::lemma_pow2_pos(k);
    let p = vstd::arithmetic::power2::pow2(k);
    assert(m * p != 0) by (nonlinear_arith)
        requires
            m > 0,
            p > 0,
    ;
    lemma_lowered(b, m, k);
    lemma_scale_moves(m, k);
    lemma_full_scales();
}

proof fn lemma_two_to()
    ensures
        vstd::arithmetic::power2::pow2(0) == 1,
        vstd::arithmetic::power2::pow2(5) == 32,
        vstd::arithmetic::power2::pow2(8) == 256,
        vstd::arithmetic::power2::pow2(10) == 1024,
        vstd::arithmetic::power2::pow2(16) == 65536,
        vstd::arithmetic::power2::pow2(24) == 16777216,
{
    vstd::arithmetic::power2::lemma2_to64();
}

proof fn lemma_scaled(n: nat)
    requires
        n < 256,
    ensures
        (n * 255 + 255nat / 2) / 255 == n,
{
}

proof fn lemma_lowered(b: nat, m: nat, k: nat)
    requires
        m % 2 == 1,
    ensures
        lowered(
            b * vstd::arithmetic::power2::pow2(k),
            m * vstd::arithmetic::power2::pow2(k),
        ) == b,
    decreases k,
{
    let p = vstd::arithmetic::power2::pow2(k);
    vstd::arithmetic::power2::lemma_pow2_pos(k);
    if k == 0 {
        vstd::arithmetic::power2::lemma2_to64();
        assert(b * p == b) by (nonlinear_arith)
            requires
                p == 1,
        ;
        assert(m * p == m) by (nonlinear_arith)
            requires
                p == 1,
        ;
    } else {
        let q = vstd::arithmetic::power2::pow2((k - 1) as nat);
        vstd::arithmetic::power2::lemma_pow2_unfold(k);
        vstd::arithmetic::power2::lemma_pow2_pos((k - 1) as nat);
        assert(p == 2 * q);
        assert(b * p == 2 * (b * q)) by (nonlinear_arith)
            requires
                p == 2 * q,
        ;
        assert(m * p == 2 * (m * q)) by (nonlinear_arith)
            requires
                p == 2 * q,
        ;
        assert(m * p != 0) by (nonlinear_arith)
            requires
                m > 0,
                p > 0,
        ;
        assert((m * p) % 2 == 0);
        assert((b * p) / 2 == b * q);
        assert((m * p) / 2 == m * q);
        lemma_lowered(b, m, (k - 1) as nat);
    }
}

/// A part of five bits is spread over the 256 steps of a colour: it becomes the step
/// that is nearest to its share, so that none is the least and all is the most.
pub proof fn five_bits_are_spread(v: u32)
    ensures
        -31 <= 2 * (31 * masked(v, 0x1F) - 255 * (v % 32)) <= 31,
        -31 <= 2 * (31 * masked(v, 0x3E0) - 255 * (v / 32 % 32)) <= 31,
        -31 <= 2 * (31 * masked(v, 0x7C00) - 255 * (v / 1024 % 32)) <= 31,
{
    assert(v & 0x1F == v % 32) by (bit_vector);
    assert(v & 0x3E0 == (v / 32 % 32) * 32) by (bit_vector);
    assert(v & 0x7C00 == (v / 1024 % 32) * 1024) by (bit_vector);
    lemma_two_to();
    lemma_near(v, 0x1F, (v % 32) as nat, 0);
    lemma_near(v, 0x3E0, (v / 32 % 32) as nat, 5);
    lemma_near(v, 0x7C00, (v / 1024 % 32) as nat, 10);
}

proof fn lemma_near(v: u32, mask: u32, b: nat, k: nat)
    requires
        b <= 31,
        mask as nat == 31 * vstd::arithmetic::power2::pow2(k),
        (v & mask) as nat == b * vstd::arithmetic::power2::pow2(k),
    ensures
        -31 <= 2 * (31 * masked(v, mask) - 255 * b) <= 31,
{
    lemma_part(v, mask, b, 31, k);
    lemma_spread(b);
}

proof fn lemma_spread(n: nat)
    requires
        n < 32,
    ensures
        (n * 255 + 31nat / 2) / 31 <= 255,
        -31 <= 2 * (31 * ((n * 255 + 31nat / 2) / 31) - 255 * n) <= 31,
{
}

// ---------- laws of pixels ----------

/// The rows of a bitmap start at multiples of four bytes, as close to each other as
/// their pixels allow.
pub proof fn rows_are_filled_up_to_fours(d: Seq<u8>)
    requires
        readable(d),
    ensures
        stride(d) % 4 == 0,
        width(d) * pixel_bytes(d) <= stride(d) < width(d) * pixel_bytes(d) + 4,
        bit_count(d) == 16 ==> pixel_bytes(d) == 2,
        bit_count(d) == 24 ==> pixel_bytes(d) == 3,
        bit_count(d) == 32 ==> pixel_bytes(d) == 4,
{
    let n = width(d) * pixel_bytes(d);
    assert((n + 3) / 4 * 4 % 4 == 0);
}

/// A pixel stands in its row and column, the rows from the bottom up unless the height
/// is negative; the pixels follow the header, and the three masks where these are not
/// part of it.
pub proof fn pixels_stand_in_rows(d: Seq<u8>, x: int, y: int)
    ensures
        le32(d, 8) >= 0x8000_0000 ==> pixel_at(d, x, y) == pixels_at(d) + y * stride(d) + x
            * pixel_bytes(d),
        le32(d, 8) < 0x8000_0000 ==> pixel_at(d, x, y) == pixels_at(d) + (le32(d, 8) - 1 - y)
            * stride(d) + x * pixel_bytes(d),
        le32(d, 16) == 3 && le32(d, 0) == 40 ==> pixels_at(d) == 52 && masks_at(d) == 40,
        le32(d, 16) == 0 && le32(d, 0) == 40 ==> pixels_at(d) == 40,
        le32(d, 0) >= 52 ==> pixels_at(d) == le32(d, 0) && masks_at(d) == 40,
{
}

/// The bytes of a pixel are blue, green and red, and opacity where there are four;
/// without masks a pixel of two bytes holds five bits of each, red the highest.
pub proof fn pixels_are_blue_green_red(d: Seq<u8>, o: int)
    ensures
        le16(d, 14) == 24 ==> colour_at(d, o) == (d[o + 2], d[o + 1], d[o], 255u8),
        le16(d, 14) == 32 && le32(d, 16) == 0 ==> colour_at(d, o) == (
            d[o + 2],
            d[o + 1],
            d[o],
            d[o + 3],
        ),
        le16(d, 14) == 32 && le32(d, 16) == 3 ==> colour_at(d, o) == (
            masked(le32(d, o) as u32, le32(d, masks_at(d)) as u32),
            masked(le32(d, o) as u32, le32(d, masks_at(d) + 4) as u32),
            masked(le32(d, o) as u32, le32(d, masks_at(d) + 8) as u32),
            255u8,
        ),
        le16(d, 14) == 16 && le32(d, 16) == 0 ==> {
            let v = (d[o] + 256 * d[o + 1]) as u32;
            let c = colour_at(d, o);
            &&& -31 <= 2 * (31 * c.0 - 255 * (v / 1024 % 32)) <= 31
            &&& -31 <= 2 * (31 * c.1 - 255 * (v / 32 % 32)) <= 31
            &&& -31 <= 2 * (31 * c.2 - 255 * (v % 32)) <= 31
            &&& c.3 == 255
        },
{
    five_bits_are_spread((d[o] + 256 * d[o + 1]) as u32);
}

/// A picture holds each pixel of its bitmap, four bytes of it, from the top left; one
/// that is transparent throughout is shown as if it were not.
pub proof fn pictures_hold_each_pixel(px: Seq<u8>, d: Seq<u8>, i: int)
    requires
        is_picture(px, d),
        0 <= i < width(d) * height(d),
    ensures
        px.len() == width(d) * height(d) * 4,
        ({
            let c = colour_at(d, pixel_at(d, i % width(d), i / width(d)));
            &&& px[4 * i] == c.0
            &&& px[4 * i + 1] == c.1
            &&& px[4 * i + 2] == c.2
            &&& c.3 != 0 ==> px[4 * i + 3] == c.3
            &&& px[4 * i + 3] == c.3 || px[4 * i + 3] == 255
        }),
{
    assert(holds_pixel(px, i, shown(d, i)));
    if no_opacity(d) {
        assert(colour(d, i).3 == 0);
    }
}

/// A bitmap can be read where it holds its header and all of its pixels, has a size,
/// and is of one of the kinds that are known.
pub proof fn whole_bitmaps_can_be_read(d: Seq<u8>)
    ensures
        readable(d) <==> {
            &&& d.len() >= 40
            &&& 40 <= le32(d, 0) <= d.len()
            &&& 0 < le32(d, 4) < 0x8000_0000
            &&& le32(d, 8) != 0
            &&& le32(d, 16) == 0 || le32(d, 16) == 3
            &&& le16(d, 14) == 16 || le16(d, 14) == 24 || le16(d, 14) == 32
            &&& pixels_at(d) + (height(d) - 1) * stride(d) + width(d) * pixel_bytes(d) <= d.len()
        },
        le32(d, 8) < 0x8000_0000 ==> height(d) == le32(d, 8),
        le32(d, 8) >= 0x8000_0000 ==> height(d) == 0x1_0000_0000 - le32(d, 8),
{
}

} // verus!
