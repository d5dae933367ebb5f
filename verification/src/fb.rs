//! The model of the 128x128 one-bit panel buffer.
//!
//! The panel is driven from 512 words of 32 bits; pixel `(x, y)` is bit
//! `(x + 128 y) % 32` of word `(x + 128 y) / 32`. A set bit renders dark, so a
//! pixel is lit exactly when its bit is clear.
use vstd::prelude::*;

verus! {

/// Bit `k` of `w` is zero.
pub open spec fn bit_clear(w: u32, k: int) -> bool {
    (w >> (k as u32)) & 1u32 == 0u32
}

/// `(x, y)` lies on the 128x128 panel.
pub open spec fn on_screen(x: int, y: int) -> bool {
    0 <= x < 128 && 0 <= y < 128
}

/// Pixel `(x, y)` of the buffer `fb` is lit.
pub open spec fn is_lit(fb: Seq<u32>, x: int, y: int) -> bool {
    bit_clear(fb[(x + y * 128) / 32], (x + y * 128) % 32)
}

pub proof fn lemma_bit_and_not(w: u32, k: u32, j: u32)
    requires
        k < 32,
        j < 32,
    ensures
        bit_clear(w & !(1u32 << k), j as int) == (j == k || bit_clear(w, j as int)),
{
    assert(((w & !(1u32 << k)) >> j) & 1u32 == 0u32 <==> (j == k || (w >> j) & 1u32 == 0u32))
        by (bit_vector)
        requires
            k < 32,
            j < 32,
    ;
}

pub proof fn lemma_bit_or(w: u32, k: u32, j: u32)
    requires
        k < 32,
        j < 32,
    ensures
        bit_clear(w | (1u32 << k), j as int) == (j != k && bit_clear(w, j as int)),
{
    assert(((w | (1u32 << k)) >> j) & 1u32 == 0u32 <==> (j != k && (w >> j) & 1u32 == 0u32))
        by (bit_vector)
        requires
            k < 32,
            j < 32,
    ;
}

pub proof fn lemma_bit_xor(w: u32, k: u32, j: u32)
    requires
        k < 32,
        j < 32,
    ensures
        bit_clear(w ^ (1u32 << k), j as int) == (if j == k { !bit_clear(w, j as int) } else { bit_clear(w, j as int) }),
{
    assert(((w ^ (1u32 << k)) >> j) & 1u32 == 0u32 <==> (if j == k { (w >> j) & 1u32 != 0u32 } else { (w >> j) & 1u32 == 0u32 }))
        by (bit_vector)
        requires
            k < 32,
            j < 32,
    ;
}

pub proof fn lemma_all_ones(j: u32)
    requires
        j < 32,
    ensures
        !bit_clear(0xFFFF_FFFFu32, j as int),
{
    assert((0xFFFF_FFFFu32 >> j) & 1u32 != 0u32) by (bit_vector)
        requires
            j < 32,
    ;
}

/// The bit position of a pixel, computed as the panel driver does it.
pub proof fn lemma_split_index(bn: usize)
    requires
        bn < 16384,
    ensures
        bn >> 5usize == bn / 32,
        bn & 31usize == bn % 32,
{
    assert(bn >> 5usize == bn / 32) by (bit_vector);
    assert(bn & 31usize == bn % 32) by (bit_vector);
}

/// Distinct pixels of the panel have distinct bit positions.
pub proof fn lemma_pixel_distinct(x: int, y: int, a: int, b: int)
    requires
        on_screen(x, y),
        on_screen(a, b),
        (x + y * 128) / 32 == (a + b * 128) / 32,
        (x + y * 128) % 32 == (a + b * 128) % 32,
    ensures
        x == a && y == b,
{
}

} // verus!

verus! {

/// `(a, b)` lies in the half-open rectangle `[x0, x1) x [y0, y1)`.
pub open spec fn in_rect(x0: int, y0: int, x1: int, y1: int, a: int, b: int) -> bool {
    x0 <= a < x1 && y0 <= b < y1
}

/// `(a, b)` lies in the `s` by `s` block whose top left corner is `(x, y)`.
pub open spec fn in_block(x: int, y: int, s: int, a: int, b: int) -> bool {
    in_rect(x, y, x + s, y + s, a, b)
}

/// Bit `r` of the byte `c` is set.
pub open spec fn bit_on(c: u8, r: int) -> bool {
    (c >> (r as u8)) & 1u8 == 1u8
}

/// Bit `r` of the sprite row `c` is set.
pub open spec fn row_bit_on(c: u16, r: int) -> bool {
    (c >> (r as u16)) & 1u16 == 1u16
}

/// The pixels that the first `n` rows of the font column `bits` cover, each
/// set bit drawn as an `s` by `s` block, rows going down from `(x, y)`.
pub open spec fn column_covers(bits: u8, n: int, x: int, y: int, s: int, a: int, b: int) -> bool
    decreases n,
{
    if n <= 0 {
        false
    } else {
        column_covers(bits, n - 1, x, y, s, a, b) || (bit_on(bits, n - 1) && in_block(
            x,
            y + (n - 1) * s,
            s,
            a,
            b,
        ))
    }
}

/// The pixels that the first `n` columns of `cols` cover, columns going right
/// from `(x, y)`, seven rows each.
pub open spec fn columns_cover(cols: Seq<u8>, n: int, x: int, y: int, s: int, a: int, b: int) -> bool
    decreases n,
{
    if n <= 0 {
        false
    } else {
        columns_cover(cols, n - 1, x, y, s, a, b) || column_covers(
            cols[n - 1],
            7,
            x + (n - 1) * s,
            y,
            s,
            a,
            b,
        )
    }
}

} // verus!

verus! {

/// The pixels that the first `n` columns of the sprite row `row` cover: the
/// row is `w` bits wide, most significant bit leftmost, each set bit drawn as
/// an `s` by `s` block, columns going right from `(x, y)`.
pub open spec fn sprite_row_covers(row: u16, w: int, n: int, x: int, y: int, s: int, a: int, b: int) -> bool
    decreases n,
{
    if n <= 0 {
        false
    } else {
        sprite_row_covers(row, w, n - 1, x, y, s, a, b) || (row_bit_on(row, w - n) && in_block(
            x + (n - 1) * s,
            y,
            s,
            a,
            b,
        ))
    }
}

/// The pixels that the first `h` rows of the sprite `rows`, `w` bits wide,
/// cover, rows going down from `(x, y)`, each pixel an `s` by `s` block.
pub open spec fn sprite_covers(rows: Seq<u16>, h: int, w: int, x: int, y: int, s: int, a: int, b: int) -> bool
    decreases h,
{
    if h <= 0 {
        false
    } else {
        sprite_covers(rows, h - 1, w, x, y, s, a, b) || sprite_row_covers(
            rows[h - 1],
            w,
            w,
            x,
            y + (h - 1) * s,
            s,
            a,
            b,
        )
    }
}

} // verus!
