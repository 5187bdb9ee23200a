//! The level-fill bar: an icon whose lower rows are bright and whose upper
//! rows are dim, by how far a level has risen.

use crate::gray4::{
    build_mul4_lut, image_pixel, is_mul4_lut, lemma_mul4_bounds, lemma_nibbles, lemma_row_range,
    mul4_spec, nibble_at, pack_row_nibbles_to_4, packed_byte_of_nibbles, row_bytes_spec,
    unpack_row_4_to_nibbles, Gray4Img, Gray4ImgMut,
};
use vstd::prelude::*;

verus! {

/// The two brightness factors of the bar, each 0 to 15; a larger one counts
/// as 15.
#[derive(Clone, Copy, Debug)]
pub struct FillParams {
    /// The factor of the rows above the level.
    pub empty_b: u8,
    /// The factor of the rows up to the level.
    pub full_b: u8,
}

/// How many rows of `h` a level of 0..1023 fills: `h * level / 1023`, rounded
/// half up.
pub open spec fn filled_rows_spec(h: int, level: int) -> int {
    (h * level + 511) / 1023
}

/// Whether row `y` of `h` rows lies in the filled part, which is at the
/// bottom.
pub open spec fn row_is_filled(y: int, h: int, level: int) -> bool {
    y + filled_rows_spec(h, level) >= h
}

/// A brightness factor as the bar uses it.
pub open spec fn capped_factor(b: u8) -> int {
    if b > 15 {
        15
    } else {
        b as int
    }
}

/// What the bar makes of the pixel `v` of row `y`.
pub open spec fn fill_pixel(v: u8, y: int, h: int, level: int, p: FillParams) -> u8 {
    if row_is_filled(y, h, level) {
        mul4_spec(capped_factor(p.full_b), v as int) as u8
    } else {
        mul4_spec(capped_factor(p.empty_b), v as int) as u8
    }
}

/// At level 0 no row is filled and at level 1023 every row is; in between the
/// count of filled rows is the nearest whole number to `h * level / 1023`.
pub proof fn lemma_filled_rows(h: int, level: int)
    requires
        0 <= h,
        0 <= level <= 1023,
    ensures
        filled_rows_spec(h, 0) == 0,
        filled_rows_spec(h, 1023) == h,
        0 <= filled_rows_spec(h, level) <= h,
        h * level - 511 <= 1023 * filled_rows_spec(h, level) <= h * level + 511,
        forall|y: int| 0 <= y < h ==> !row_is_filled(y, h, 0),
        forall|y: int| 0 <= y < h ==> row_is_filled(y, h, 1023),
{
    assert(h * 0 == 0);
    vstd::arithmetic::div_mod::lemma_fundamental_div_mod_converse(h * 1023 + 511, 1023, h, 511);
    let a = h * level;
    assert(0 <= a <= h * 1023) by (nonlinear_arith)
        requires
            0 <= h,
            0 <= level <= 1023,
            a == h * level,
    ;
    vstd::arithmetic::div_mod::lemma_fundamental_div_mod(a + 511, 1023);
    vstd::arithmetic::div_mod::lemma_div_is_ordered(a + 511, h * 1023 + 511, 1023);
    vstd::arithmetic::div_mod::lemma_div_pos_is_pos(a + 511, 1023);
}

/// At level 0 every row of the bar is scaled by the empty factor, and at
/// level 1023 every row by the full factor.
pub proof fn lemma_fill_extremes(v: u8, y: int, h: int, p: FillParams)
    requires
        0 <= y < h,
    ensures
        fill_pixel(v, y, h, 0, p) == mul4_spec(capped_factor(p.empty_b), v as int) as u8,
        fill_pixel(v, y, h, 1023, p) == mul4_spec(capped_factor(p.full_b), v as int) as u8,
{
    lemma_filled_rows(h, 0);
}

/// What the scratch row holds after the bar was drawn: the pixels of the
/// last row as they were written, and behind them what it held before.
pub open spec fn scratch_after_fill(
    scratch: Seq<u8>,
    src: Seq<u8>,
    w: int,
    h: int,
    level: int,
    p: FillParams,
) -> Seq<u8> {
    Seq::new(
        scratch.len(),
        |k: int|
            if k < w && h > 0 {
                fill_pixel(image_pixel(src, w, k, h - 1), h - 1, h, level, p)
            } else {
                scratch[k]
            },
    )
}

/// Draws the bar: copies `src` to `dst` and scales every pixel by the factor
/// of its row, the full factor in the bottom rows that the level fills and
/// the empty factor above. Each row passes through `scratch_row`.
#[verifier::rlimit(50)]
pub fn fill_bottom_to_top(
    dst: &mut Gray4ImgMut,
    src: &Gray4Img,
    fill_0_1023: u16,
    p: FillParams,
    scratch_row: &mut [u8],
)
    requires
        old(dst).w == src.w,
        old(dst).h == src.h,
        old(scratch_row)@.len() >= src.w,
        src.bytes@.len() >= row_bytes_spec(src.w as int) * src.h,
        old(dst).bytes@.len() >= row_bytes_spec(src.w as int) * src.h,
    ensures
        final(dst).w == old(dst).w,
        final(dst).h == old(dst).h,
        final(final(dst).bytes)@ == final(old(dst).bytes)@,
        final(dst).bytes@.len() == old(dst).bytes@.len(),
        final(scratch_row)@ == scratch_after_fill(
            old(scratch_row)@,
            src.bytes@,
            src.w as int,
            src.h as int,
            fill_0_1023 as int,
            p,
        ),
        forall|x: int, y: int|
            0 <= x < src.w && 0 <= y < src.h ==> image_pixel(
                final(dst).bytes@,
                src.w as int,
                x,
                y,
            ) == fill_pixel(
                image_pixel(src.bytes@, src.w as int, x, y),
                y,
                src.h as int,
                fill_0_1023 as int,
                p,
            ),
        crate::gray4::padding_is_clear(final(dst).bytes@, src.w as int, src.h as int),
        forall|i: int|
            row_bytes_spec(src.w as int) * src.h <= i < old(dst).bytes@.len()
                ==> final(dst).bytes@[i] == old(dst).bytes@[i],
{
    let w = dst.w;
    let h = dst.h;
    let lut = build_mul4_lut();
    let eb: usize = if p.empty_b > 15 {
        15
    } else {
        p.empty_b as usize
    };
    let fb: usize = if p.full_b > 15 {
        15
    } else {
        p.full_b as usize
    };
    let ghost rb = row_bytes_spec(w as int);
    let ghost before = dst.bytes@;
    assert((h as u128) * (fill_0_1023 as u128) <= 0xFFFF_FFFF_FFFF_FFFF * 0xFFFF) by (nonlinear_arith)
        requires
            h <= 0xFFFF_FFFF_FFFF_FFFF,
            fill_0_1023 <= 0xFFFF,
    ;
    let filled_rows: u128 = ((h as u128) * (fill_0_1023 as u128) + 511) / 1023;
    let mut y: usize = 0;
    while y < h
        invariant
            y <= h,
            w == src.w,
            h == src.h,
            dst.w == w,
            dst.h == h,
            rb == row_bytes_spec(w as int),
            is_mul4_lut(lut),
            eb == capped_factor(p.empty_b),
            fb == capped_factor(p.full_b),
            filled_rows == filled_rows_spec(h as int, fill_0_1023 as int),
            filled_rows <= 0xFFFF_FFFF_FFFF_FFFF * 0xFFFF + 511,
            final(dst.bytes)@ == final(old(dst).bytes)@,
            dst.bytes@.len() == before.len(),
            before.len() >= rb * h,
            src.bytes@.len() >= rb * h,
            scratch_row@.len() == old(scratch_row)@.len(),
            scratch_row@.len() >= w,
            forall|k: int| w <= k < scratch_row@.len() ==> scratch_row@[k] == old(scratch_row)@[k],
            y == 0 ==> scratch_row@ == old(scratch_row)@,
            y > 0 ==> forall|k: int|
                0 <= k < w ==> scratch_row@[k] == fill_pixel(
                    image_pixel(src.bytes@, w as int, k, y - 1),
                    y - 1,
                    h as int,
                    fill_0_1023 as int,
                    p,
                ),
            forall|x: int, yy: int|
                0 <= x < w && 0 <= yy < y ==> image_pixel(dst.bytes@, w as int, x, yy)
                    == fill_pixel(
                    image_pixel(src.bytes@, w as int, x, yy),
                    yy,
                    h as int,
                    fill_0_1023 as int,
                    p,
                ),
            w % 2 == 1 ==> forall|yy: int|
                0 <= yy < y ==> crate::gray4::high_nibble(#[trigger] dst.bytes@[yy * rb + rb - 1])
                    == 0,
            forall|i: int| y * rb <= i < before.len() ==> dst.bytes@[i] == before[i],
        decreases h - y,
    {
        proof {
            lemma_row_range(y as int, h as int, rb);
        }
        let srow = src.row(y);
        let ghost kept = scratch_row@;
        unpack_row_4_to_nibbles(srow, scratch_row, w);
        proof {
            assert forall|k: int| w <= k < scratch_row@.len() implies scratch_row@[k] == old(
                scratch_row,
            )@[k] by {
                assert(scratch_row@[k] == scratch_row@.subrange(
                    w as int,
                    scratch_row@.len() as int,
                )[k - w]);
                assert(kept[k] == kept.subrange(w as int, kept.len() as int)[k - w]);
            }
        }
        let in_fill: bool = (y as u128) + filled_rows >= (h as u128);
        let b: usize = if in_fill {
            fb
        } else {
            eb
        };
        let ghost raw = scratch_row@;
        proof {
            assert forall|k: int| 0 <= k < w implies raw[k] <= 15 by {
                assert(raw[k] == raw.subrange(0, w as int)[k]);
                lemma_nibbles(srow@[k / 2], 0, 0, 0);
            }
        }
        let mut x: usize = 0;
        while x < w
            invariant
                x <= w,
                b < 16,
                is_mul4_lut(lut),
                scratch_row@.len() == raw.len(),
                raw.len() >= w,
                forall|k: int| 0 <= k < w ==> raw[k] <= 15,
                forall|k: int| 0 <= k < x ==> scratch_row@[k] == mul4_spec(b as int, raw[k] as int),
                forall|k: int| x <= k < raw.len() ==> scratch_row@[k] == raw[k],
            decreases w - x,
        {
            let v: usize = (scratch_row[x] & 0x0F) as usize;
            proof {
                lemma_nibbles(0, 0, 0, raw[x as int]);
            }
            scratch_row[x] = lut[b][v];
            x += 1;
        }
        let ghost mid = dst.bytes@;
        let ghost scaled = scratch_row@;
        let drow = dst.row_mut(y);
        pack_row_nibbles_to_4(vstd::slice::slice_subrange(scratch_row, 0, w), drow, w);
        proof {
            assert forall|k: int| 0 <= k < w implies scratch_row@[k] == fill_pixel(
                image_pixel(src.bytes@, w as int, k, y as int),
                y as int,
                h as int,
                fill_0_1023 as int,
                p,
            ) by {
                assert(raw[k] == raw.subrange(0, w as int)[k]);
                assert(raw[k] == nibble_at(srow@, k));
                assert(srow@[k / 2] == src.bytes@[y * rb + k / 2]);
                lemma_mul4_bounds(b as int, raw[k] as int);
            }
            let now = dst.bytes@;
            assert(now.len() == before.len());
            assert forall|i: int| (y + 1) * rb <= i < before.len() implies now[i] == before[i] by {}
            assert forall|x: int, yy: int| 0 <= x < w && 0 <= yy < y + 1 implies image_pixel(
                now,
                w as int,
                x,
                yy,
            ) == fill_pixel(
                image_pixel(src.bytes@, w as int, x, yy),
                yy,
                h as int,
                fill_0_1023 as int,
                p,
            ) by {
                lemma_row_range(yy, h as int, rb);
                if yy < y {
                    lemma_row_range(yy, y as int, rb);
                    assert(now[yy * rb + x / 2] == mid[yy * rb + x / 2]);
                    assert(image_pixel(now, w as int, x, yy) == image_pixel(mid, w as int, x, yy));
                } else {
                    assert(now[y * rb + x / 2] == drow@[x / 2]);
                    assert(nibble_at(drow@, x) == scaled.subrange(0, w as int)[x] & 0x0F);
                    lemma_mul4_bounds(b as int, raw[x] as int);
                    lemma_nibbles(0, 0, 0, scaled[x]);
                    assert(image_pixel(now, w as int, x, yy) == scaled[x]);
                }
            }
            if w % 2 == 1 {
                assert forall|yy: int| 0 <= yy < y + 1 implies crate::gray4::high_nibble(
                    #[trigger] now[yy * rb + rb - 1],
                ) == 0 by {
                    lemma_row_range(yy, h as int, rb);
                    if yy < y {
                        lemma_row_range(yy, y as int, rb);
                        assert(now[yy * rb + rb - 1] == mid[yy * rb + rb - 1]);
                    } else {
                        assert(now[y * rb + rb - 1] == drow@[rb - 1]);
                        assert(drow@.subrange(0, rb)[rb - 1] == packed_byte_of_nibbles(
                            scaled.subrange(0, w as int),
                            w as int,
                            rb - 1,
                        ));
                        lemma_nibbles(0, scaled[w - 1], 0, 0);
                    }
                }
            }
        }
        y += 1;
    }
    proof {
        assert(h * rb == rb * h) by (nonlinear_arith);
        assert(scratch_row@ =~= scratch_after_fill(
            old(scratch_row)@,
            src.bytes@,
            src.w as int,
            src.h as int,
            fill_0_1023 as int,
            p,
        ));
    }
}

} // verus!
