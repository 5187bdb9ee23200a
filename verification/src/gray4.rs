//! Packed 4-bit grayscale pixel storage.
//!
//! Two samples share a byte: the low nibble holds the pixel at the even
//! x-coordinate, the high nibble the pixel at the odd one. A row of `width`
//! pixels occupies `ceil(width / 2)` bytes; rows follow each other without
//! gaps.

use vstd::arithmetic::div_mod::lemma_fundamental_div_mod_converse;
use vstd::prelude::*;

verus! {

/// Number of bytes that one packed row of `width` pixels occupies.
pub open spec fn row_bytes_spec(width: int) -> int {
    (width + 1) / 2
}

/// The low four bits of a byte: the pixel at the even x-coordinate.
pub open spec fn low_nibble(b: u8) -> u8 {
    b & 0x0F
}

/// The high four bits of a byte: the pixel at the odd x-coordinate.
pub open spec fn high_nibble(b: u8) -> u8 {
    (b >> 4) & 0x0F
}

/// The byte that holds `lo` in its low and `hi` in its high nibble.
pub open spec fn pack_pair(lo: u8, hi: u8) -> u8 {
    ((hi & 0x0F) << 4) | (lo & 0x0F)
}

/// Pixel `x` of a packed row.
pub open spec fn nibble_at(row: Seq<u8>, x: int) -> u8 {
    if x % 2 == 0 {
        low_nibble(row[x / 2])
    } else {
        high_nibble(row[x / 2])
    }
}

/// The byte `b` with one of its nibbles replaced by the low four bits of `v`.
pub open spec fn with_nibble(b: u8, odd: bool, v: u8) -> u8 {
    if odd {
        (b & 0x0F) | ((v & 0x0F) << 4)
    } else {
        (b & 0xF0) | (v & 0x0F)
    }
}

/// Pixel `(x, y)` of a packed image that is `w` pixels wide.
pub open spec fn image_pixel(bytes: Seq<u8>, w: int, x: int, y: int) -> u8 {
    let b = bytes[y * row_bytes_spec(w) + x / 2];
    if x % 2 == 0 {
        low_nibble(b)
    } else {
        high_nibble(b)
    }
}

/// Byte `i` of the packed form of a row of 8-bit samples: each sample keeps
/// its top four bits, and a missing odd neighbour counts as black.
pub open spec fn packed_byte_of_8(src8: Seq<u8>, width: int, i: int) -> u8 {
    pack_pair(
        src8[2 * i] >> 4,
        if 2 * i + 1 < width {
            src8[2 * i + 1] >> 4
        } else {
            0u8
        },
    )
}

/// Byte `i` of the packed form of a row of raw nibbles.
pub open spec fn packed_byte_of_nibbles(nibbles: Seq<u8>, width: int, i: int) -> u8 {
    pack_pair(
        nibbles[2 * i],
        if 2 * i + 1 < width {
            nibbles[2 * i + 1]
        } else {
            0u8
        },
    )
}

/// The packed form of one row of 8-bit samples.
pub open spec fn pack_row_spec(src8: Seq<u8>, width: int) -> Seq<u8> {
    Seq::new(row_bytes_spec(width) as nat, |i: int| packed_byte_of_8(src8, width, i))
}

/// The 8-bit samples of one packed row: each nibble times 17.
pub open spec fn unpack_row_spec(src4: Seq<u8>, width: int) -> Seq<u8> {
    Seq::new(width as nat, |x: int| (nibble_at(src4, x) * 17) as u8)
}

/// The raw nibbles of one packed row.
pub open spec fn nibbles_of_row(src4: Seq<u8>, width: int) -> Seq<u8> {
    Seq::new(width as nat, |x: int| nibble_at(src4, x))
}

/// The packed form of one row of raw nibbles.
pub open spec fn pack_nibbles_spec(nibbles: Seq<u8>, width: int) -> Seq<u8> {
    Seq::new(row_bytes_spec(width) as nat, |i: int| packed_byte_of_nibbles(nibbles, width, i))
}

/// The packed form of a `w` by `h` image of 8-bit samples, row after row.
pub open spec fn pack_image_spec(src8: Seq<u8>, w: int, h: int) -> Seq<u8> {
    Seq::new(
        (row_bytes_spec(w) * h) as nat,
        |i: int|
            packed_byte_of_8(
                src8.subrange((i / row_bytes_spec(w)) * w, (i / row_bytes_spec(w)) * w + w),
                w,
                i % row_bytes_spec(w),
            ),
    )
}

/// The 8-bit samples of a packed `w` by `h` image, row after row.
pub open spec fn unpack_image_spec(src4: Seq<u8>, w: int, h: int) -> Seq<u8> {
    Seq::new((w * h) as nat, |i: int| (image_pixel(src4, w, i % w, i / w) * 17) as u8)
}

/// What holds of nibbles: each is at most 15, packing two of them and
/// replacing one of them keep the other, and a byte is the pack of its two.
pub proof fn lemma_nibbles(b: u8, lo: u8, hi: u8, v: u8)
    ensures
        low_nibble(b) <= 15,
        high_nibble(b) <= 15,
        low_nibble(pack_pair(lo, hi)) == lo & 0x0F,
        high_nibble(pack_pair(lo, hi)) == hi & 0x0F,
        low_nibble(with_nibble(b, false, v)) == v & 0x0F,
        high_nibble(with_nibble(b, false, v)) == high_nibble(b),
        low_nibble(with_nibble(b, true, v)) == low_nibble(b),
        high_nibble(with_nibble(b, true, v)) == v & 0x0F,
        v <= 15 ==> v & 0x0F == v,
        b >> 4 <= 15,
        (b >> 4) & 0x0F == b >> 4,
        pack_pair(low_nibble(b), high_nibble(b)) == b,
        high_nibble(b) == 0 ==> pack_pair(low_nibble(b), 0) == b,
{
    assert(b & 0x0F <= 15) by (bit_vector);
    assert((b >> 4) & 0x0F <= 15) by (bit_vector);
    assert(((((hi & 0x0F) << 4) | (lo & 0x0F)) & 0x0F) == lo & 0x0F) by (bit_vector);
    assert((((((hi & 0x0F) << 4) | (lo & 0x0F)) >> 4) & 0x0F) == hi & 0x0F) by (bit_vector);
    assert((((b & 0xF0) | (v & 0x0F)) & 0x0F) == v & 0x0F) by (bit_vector);
    assert(((((b & 0xF0) | (v & 0x0F)) >> 4) & 0x0F) == (b >> 4) & 0x0F) by (bit_vector);
    assert((((b & 0x0F) | ((v & 0x0F) << 4)) & 0x0F) == b & 0x0F) by (bit_vector);
    assert(((((b & 0x0F) | ((v & 0x0F) << 4)) >> 4) & 0x0F) == v & 0x0F) by (bit_vector);
    assert(v <= 15 ==> v & 0x0F == v) by (bit_vector);
    assert(b >> 4 <= 15) by (bit_vector);
    assert((b >> 4) & 0x0F == b >> 4) by (bit_vector);
    assert((((((b >> 4) & 0x0F) & 0x0F) << 4) | ((b & 0x0F) & 0x0F)) == b) by (bit_vector);
    assert((b >> 4) & 0x0F == 0 ==> ((((0u8 & 0x0F) << 4) | ((b & 0x0F) & 0x0F)) == b))
        by (bit_vector);
}

/// Bytes per packed row: `ceil(width / 2)`.
pub fn row_bytes(width: usize) -> (r: usize)
    ensures
        r == row_bytes_spec(width as int),
{
    width / 2 + width % 2
}

/// Bytes of a packed `width` by `height` image.
pub fn size_bytes(width: usize, height: usize) -> (r: usize)
    requires
        row_bytes_spec(width as int) * height <= usize::MAX,
    ensures
        r == row_bytes_spec(width as int) * height,
{
    row_bytes(width) * height
}

/// Packs one row of 8-bit samples into nibbles, keeping the top four bits of
/// each sample. Bytes of `dst4` behind the row are left alone.
pub fn pack_row_8_to_4(src8: &[u8], dst4: &mut [u8], width: usize)
    requires
        src8@.len() >= width,
        old(dst4)@.len() >= row_bytes_spec(width as int),
    ensures
        final(dst4)@.len() == old(dst4)@.len(),
        final(dst4)@.subrange(0, row_bytes_spec(width as int)) == pack_row_spec(
            src8@,
            width as int,
        ),
        final(dst4)@.subrange(row_bytes_spec(width as int), old(dst4)@.len() as int) == old(
            dst4,
        )@.subrange(row_bytes_spec(width as int), old(dst4)@.len() as int),
        forall|x: int| 0 <= x < width ==> nibble_at(final(dst4)@, x) == src8@[x] >> 4,
{
    let ghost rb = row_bytes_spec(width as int);
    let ghost before = dst4@;
    let mut si: usize = 0;
    let mut di: usize = 0;
    while si < width && si + 1 < width
        invariant
            si == 2 * di,
            si <= width,
            src8@.len() >= width,
            dst4@.len() == before.len(),
            before.len() >= rb,
            rb == row_bytes_spec(width as int),
            forall|i: int| 0 <= i < di ==> dst4@[i] == packed_byte_of_8(src8@, width as int, i),
            forall|i: int| di <= i < dst4@.len() ==> dst4@[i] == before[i],
        decreases width - si,
    {
        let lo: u8 = (src8[si] >> 4) & 0x0F;
        let hi: u8 = (src8[si + 1] >> 4) & 0x0F;
        proof {
            lemma_nibbles(src8@[si as int], lo, hi, 0);
            lemma_nibbles(src8@[si + 1], lo, hi, 0);
            lemma_nibbles(0, src8@[si as int] >> 4, src8@[si + 1] >> 4, 0);
            lemma_pack_pair_masked(lo, hi);
        }
        dst4[di] = (hi << 4) | lo;
        si += 2;
        di += 1;
    }
    if si < width {
        let lo: u8 = (src8[si] >> 4) & 0x0F;
        proof {
            lemma_nibbles(src8@[si as int], lo, 0, 0);
            lemma_pack_pair_masked(lo, 0);
        }
        dst4[di] = lo;
        di += 1;
    }
    proof {
        assert(di == rb);
        assert(dst4@.subrange(0, rb) =~= pack_row_spec(src8@, width as int));
        assert(dst4@.subrange(rb, before.len() as int) =~= before.subrange(rb, before.len() as int));
        assert forall|x: int| 0 <= x < width implies nibble_at(dst4@, x) == src8@[x] >> 4 by {
            let i = x / 2;
            assert(dst4@[i] == packed_byte_of_8(src8@, width as int, i));
            let l = src8@[2 * i] >> 4;
            let h = if 2 * i + 1 < width { src8@[2 * i + 1] >> 4 } else { 0u8 };
            lemma_nibbles(src8@[2 * i], l, h, 0);
            if 2 * i + 1 < width {
                lemma_nibbles(src8@[2 * i + 1], l, h, 0);
            }
        }
    }
}

/// A pair of nibbles that are already masked packs by shift and or.
pub proof fn lemma_pack_pair_masked(lo: u8, hi: u8)
    requires
        lo <= 15,
        hi <= 15,
    ensures
        (hi << 4) | lo == pack_pair(lo, hi),
        hi == 0 ==> pack_pair(lo, hi) == lo,
{
    assert(lo <= 15 && hi <= 15 ==> (hi << 4) | lo == ((hi & 0x0F) << 4) | (lo & 0x0F))
        by (bit_vector);
    assert(lo <= 15 ==> ((0u8 & 0x0F) << 4) | (lo & 0x0F) == lo) by (bit_vector);
}

/// Unpacks one packed row into 8-bit samples, each nibble times 17. Samples of
/// `dst8` behind the row are left alone.
pub fn unpack_row_4_to_8(src4: &[u8], dst8: &mut [u8], width: usize)
    requires
        src4@.len() >= row_bytes_spec(width as int),
        old(dst8)@.len() >= width,
    ensures
        final(dst8)@.len() == old(dst8)@.len(),
        final(dst8)@.subrange(0, width as int) == unpack_row_spec(src4@, width as int),
        final(dst8)@.subrange(width as int, old(dst8)@.len() as int) == old(dst8)@.subrange(
            width as int,
            old(dst8)@.len() as int,
        ),
{
    let ghost before = dst8@;
    let rb = row_bytes(width);
    let mut x: usize = 0;
    let mut i: usize = 0;
    while i < rb
        invariant
            i <= rb,
            rb == row_bytes_spec(width as int),
            x == if 2 * i <= width { 2 * i } else { width as int },
            src4@.len() >= rb,
            dst8@.len() == before.len(),
            before.len() >= width,
            forall|k: int| 0 <= k < x ==> dst8@[k] == (nibble_at(src4@, k) * 17) as u8,
            forall|k: int| x <= k < dst8@.len() ==> dst8@[k] == before[k],
        decreases rb - i,
    {
        let b: u8 = src4[i];
        proof {
            lemma_nibbles(b, 0, 0, 0);
        }
        if x < width {
            dst8[x] = (b & 0x0F) * 17;
            x += 1;
        }
        if x < width {
            dst8[x] = ((b >> 4) & 0x0F) * 17;
            x += 1;
        }
        i += 1;
    }
    proof {
        assert(x == width);
        assert(dst8@.subrange(0, width as int) =~= unpack_row_spec(src4@, width as int));
        assert(dst8@.subrange(width as int, before.len() as int) =~= before.subrange(
            width as int,
            before.len() as int,
        ));
    }
}

/// Unpacks one packed row into raw nibbles, without scaling. Entries of
/// `out_nibbles` behind the row are left alone.
pub fn unpack_row_4_to_nibbles(src_row: &[u8], out_nibbles: &mut [u8], width: usize)
    requires
        src_row@.len() >= row_bytes_spec(width as int),
        old(out_nibbles)@.len() >= width,
    ensures
        final(out_nibbles)@.len() == old(out_nibbles)@.len(),
        final(out_nibbles)@.subrange(0, width as int) == nibbles_of_row(src_row@, width as int),
        final(out_nibbles)@.subrange(width as int, old(out_nibbles)@.len() as int) == old(
            out_nibbles,
        )@.subrange(width as int, old(out_nibbles)@.len() as int),
{
    let ghost before = out_nibbles@;
    let rb = row_bytes(width);
    let mut x: usize = 0;
    let mut i: usize = 0;
    while i < rb
        invariant
            i <= rb,
            rb == row_bytes_spec(width as int),
            x == if 2 * i <= width { 2 * i } else { width as int },
            src_row@.len() >= rb,
            out_nibbles@.len() == before.len(),
            before.len() >= width,
            forall|k: int| 0 <= k < x ==> out_nibbles@[k] == nibble_at(src_row@, k),
            forall|k: int| x <= k < out_nibbles@.len() ==> out_nibbles@[k] == before[k],
        decreases rb - i,
    {
        let b: u8 = src_row[i];
        if x < width {
            out_nibbles[x] = b & 0x0F;
            x += 1;
        }
        if x < width {
            out_nibbles[x] = (b >> 4) & 0x0F;
            x += 1;
        }
        i += 1;
    }
    proof {
        assert(x == width);
        assert(out_nibbles@.subrange(0, width as int) =~= nibbles_of_row(
            src_row@,
            width as int,
        ));
        assert(out_nibbles@.subrange(width as int, before.len() as int) =~= before.subrange(
            width as int,
            before.len() as int,
        ));
    }
}

/// Packs one row of raw nibbles; only the low four bits of each entry count.
/// Bytes of `dst_row` behind the row are left alone.
pub fn pack_row_nibbles_to_4(nibbles: &[u8], dst_row: &mut [u8], width: usize)
    requires
        nibbles@.len() >= width,
        old(dst_row)@.len() >= row_bytes_spec(width as int),
    ensures
        final(dst_row)@.len() == old(dst_row)@.len(),
        final(dst_row)@.subrange(0, row_bytes_spec(width as int)) == pack_nibbles_spec(
            nibbles@,
            width as int,
        ),
        final(dst_row)@.subrange(row_bytes_spec(width as int), old(dst_row)@.len() as int)
            == old(dst_row)@.subrange(row_bytes_spec(width as int), old(dst_row)@.len() as int),
        forall|x: int| 0 <= x < width ==> nibble_at(final(dst_row)@, x) == nibbles@[x] & 0x0F,
{
    let ghost rb = row_bytes_spec(width as int);
    let ghost before = dst_row@;
    let mut di: usize = 0;
    let mut x: usize = 0;
    while x < width && x + 1 < width
        invariant
            x == 2 * di,
            x <= width,
            nibbles@.len() >= width,
            dst_row@.len() == before.len(),
            before.len() >= rb,
            rb == row_bytes_spec(width as int),
            forall|i: int|
                0 <= i < di ==> dst_row@[i] == packed_byte_of_nibbles(nibbles@, width as int, i),
            forall|i: int| di <= i < dst_row@.len() ==> dst_row@[i] == before[i],
        decreases width - x,
    {
        let lo: u8 = nibbles[x] & 0x0F;
        let hi: u8 = nibbles[x + 1] & 0x0F;
        proof {
            lemma_nibbles(nibbles@[x as int], lo, hi, 0);
            lemma_nibbles(nibbles@[x + 1], lo, hi, 0);
            lemma_pack_pair_masked(lo, hi);
            lemma_pack_pair_idem(nibbles@[x as int], nibbles@[x + 1]);
        }
        dst_row[di] = (hi << 4) | lo;
        di += 1;
        x += 2;
    }
    if x < width {
        let lo: u8 = nibbles[x] & 0x0F;
        proof {
            lemma_nibbles(nibbles@[x as int], lo, 0, 0);
            lemma_pack_pair_masked(lo, 0);
            lemma_pack_pair_idem(nibbles@[x as int], 0);
        }
        dst_row[di] = lo;
        di += 1;
    }
    proof {
        assert(di == rb);
        assert(dst_row@.subrange(0, rb) =~= pack_nibbles_spec(nibbles@, width as int));
        assert(dst_row@.subrange(rb, before.len() as int) =~= before.subrange(
            rb,
            before.len() as int,
        ));
        assert forall|x: int| 0 <= x < width implies nibble_at(dst_row@, x) == nibbles@[x]
            & 0x0F by {
            let i = x / 2;
            assert(dst_row@[i] == packed_byte_of_nibbles(nibbles@, width as int, i));
            let l = nibbles@[2 * i];
            let h = if 2 * i + 1 < width { nibbles@[2 * i + 1] } else { 0u8 };
            lemma_nibbles(0, l, h, 0);
        }
    }
}

/// Packing masks its arguments, so masking them first changes nothing.
pub proof fn lemma_pack_pair_idem(lo: u8, hi: u8)
    ensures
        pack_pair(lo & 0x0F, hi & 0x0F) == pack_pair(lo, hi),
{
    assert((((hi & 0x0F) & 0x0F) << 4) | ((lo & 0x0F) & 0x0F) == ((hi & 0x0F) << 4) | (lo
        & 0x0F)) by (bit_vector);
}

/// Row `y` of `h` rows of `n` items each lies inside the `h * n` items.
pub proof fn lemma_row_range(y: int, h: int, n: int)
    requires
        0 <= y < h,
        0 <= n,
    ensures
        0 <= y * n,
        y * n + n == (y + 1) * n,
        (y + 1) * n <= h * n,
        h * n == n * h,
{
    assert(h * n == n * h) by (nonlinear_arith);
    assert(0 <= y * n) by (nonlinear_arith)
        requires
            0 <= y,
            0 <= n,
    ;
    assert(y * n + n == (y + 1) * n) by (nonlinear_arith);
    assert((y + 1) * n <= h * n) by (nonlinear_arith)
        requires
            y + 1 <= h,
            0 <= n,
    ;
}

/// An index inside row `y` of rows of `n` items splits into `y` and the offset.
pub proof fn lemma_index_split(i: int, y: int, n: int)
    requires
        0 <= y,
        0 < n,
        y * n <= i < y * n + n,
    ensures
        i / n == y,
        i % n == i - y * n,
{
    lemma_fundamental_div_mod_converse(i, n, y, i - y * n);
}

/// The length of a slice fits in `usize`.
pub proof fn lemma_slice_len_fits(s: &[u8])
    ensures
        s@.len() <= usize::MAX,
{
    vstd::slice::axiom_spec_len(s);
}

/// The part `[a, b)` of a slice, for writing.
pub fn slice_range_mut<'a>(data: &'a mut [u8], a: usize, b: usize) -> (r: &'a mut [u8])
    requires
        a <= b <= old(data)@.len(),
    ensures
        r@ == old(data)@.subrange(a as int, b as int),
        final(data)@ == old(data)@.subrange(0, a as int) + final(r)@ + old(data)@.subrange(
            b as int,
            old(data)@.len() as int,
        ),
{
    let (_head, rest) = data.split_at_mut(a);
    let (mid, _tail) = rest.split_at_mut(b - a);
    mid
}

/// Packs a `w` by `h` image of 8-bit samples, row after row. Bytes of `dst4`
/// behind the image are left alone.
#[verifier::rlimit(50)]
pub fn pack_image_8_to_4(src8: &[u8], dst4: &mut [u8], w: usize, h: usize)
    requires
        src8@.len() >= w * h,
        old(dst4)@.len() >= row_bytes_spec(w as int) * h,
    ensures
        final(dst4)@.len() == old(dst4)@.len(),
        final(dst4)@.subrange(0, row_bytes_spec(w as int) * h) == pack_image_spec(
            src8@,
            w as int,
            h as int,
        ),
        final(dst4)@.subrange(row_bytes_spec(w as int) * h, old(dst4)@.len() as int) == old(
            dst4,
        )@.subrange(row_bytes_spec(w as int) * h, old(dst4)@.len() as int),
{
    let ghost before = dst4@;
    let rb = row_bytes(w);
    let mut y: usize = 0;
    while y < h
        invariant
            y <= h,
            rb == row_bytes_spec(w as int),
            src8@.len() >= w * h,
            dst4@.len() == before.len(),
            before.len() >= rb * h,
            forall|i: int|
                0 <= i < y * rb ==> dst4@[i] == pack_image_spec(src8@, w as int, h as int)[i],
            forall|i: int| y * rb <= i < dst4@.len() ==> dst4@[i] == before[i],
        decreases h - y,
    {
        proof {
            lemma_row_range(y as int, h as int, w as int);
            lemma_row_range(y as int, h as int, rb as int);
            lemma_slice_len_fits(src8);
            lemma_slice_len_fits(dst4);
        }
        let s = vstd::slice::slice_subrange(src8, y * w, y * w + w);
        let d = slice_range_mut(dst4, y * rb, y * rb + rb);
        pack_row_8_to_4(s, d, w);
        proof {
            assert forall|i: int| 0 <= i < (y + 1) * rb implies dst4@[i] == pack_image_spec(
                src8@,
                w as int,
                h as int,
            )[i] by {
                if i >= y * rb {
                    lemma_index_split(i, y as int, rb as int);
                    assert(dst4@[i] == d@.subrange(0, rb as int)[i - y * rb]);
                }
            }
        }
        y += 1;
    }
    proof {
        assert(dst4@.subrange(0, rb * h) =~= pack_image_spec(src8@, w as int, h as int));
        assert(dst4@.subrange(rb * h, before.len() as int) =~= before.subrange(
            rb * h,
            before.len() as int,
        ));
    }
}

/// Unpacks a packed `w` by `h` image into 8-bit samples, row after row.
/// Samples of `dst8` behind the image are left alone.
#[verifier::rlimit(50)]
pub fn unpack_image_4_to_8(src4: &[u8], dst8: &mut [u8], w: usize, h: usize)
    requires
        src4@.len() >= row_bytes_spec(w as int) * h,
        old(dst8)@.len() >= w * h,
    ensures
        final(dst8)@.len() == old(dst8)@.len(),
        final(dst8)@.subrange(0, w * h) == unpack_image_spec(src4@, w as int, h as int),
        final(dst8)@.subrange(w * h, old(dst8)@.len() as int) == old(dst8)@.subrange(
            w * h,
            old(dst8)@.len() as int,
        ),
{
    let ghost before = dst8@;
    let rb = row_bytes(w);
    let mut y: usize = 0;
    while y < h
        invariant
            y <= h,
            rb == row_bytes_spec(w as int),
            src4@.len() >= rb * h,
            dst8@.len() == before.len(),
            before.len() >= w * h,
            forall|i: int|
                0 <= i < y * w ==> dst8@[i] == unpack_image_spec(src4@, w as int, h as int)[i],
            forall|i: int| y * w <= i < dst8@.len() ==> dst8@[i] == before[i],
        decreases h - y,
    {
        proof {
            lemma_row_range(y as int, h as int, w as int);
            lemma_row_range(y as int, h as int, rb as int);
            lemma_slice_len_fits(src4);
            lemma_slice_len_fits(dst8);
        }
        let s = vstd::slice::slice_subrange(src4, y * rb, y * rb + rb);
        let d = slice_range_mut(dst8, y * w, y * w + w);
        unpack_row_4_to_8(s, d, w);
        proof {
            assert forall|i: int| 0 <= i < (y + 1) * w implies dst8@[i] == unpack_image_spec(
                src4@,
                w as int,
                h as int,
            )[i] by {
                if i >= y * w {
                    lemma_index_split(i, y as int, w as int);
                    let x = i - y * w;
                    assert(dst8@[i] == d@.subrange(0, w as int)[x]);
                    assert(s@[x / 2] == src4@[y * rb + x / 2]);
                }
            }
        }
        y += 1;
    }
    proof {
        assert(dst8@.subrange(0, w * h) =~= unpack_image_spec(src4@, w as int, h as int));
        assert(dst8@.subrange(w * h, before.len() as int) =~= before.subrange(
            w * h,
            before.len() as int,
        ));
    }
}

/// In an image of odd width the high nibble of the last byte of each row
/// belongs to no pixel. It is clear when that nibble is zero in every row.
pub open spec fn padding_is_clear(bytes: Seq<u8>, w: int, h: int) -> bool {
    w % 2 == 1 ==> forall|y: int|
        0 <= y < h ==> high_nibble(#[trigger] bytes[y * row_bytes_spec(w) + row_bytes_spec(w) - 1])
            == 0
}

/// A nibble survives scaling to eight bits and back.
pub proof fn lemma_scale_round_trip(n: u8)
    requires
        n <= 15,
    ensures
        n * 17 <= 255,
        ((n * 17) as u8) >> 4 == n,
{
    assert(n <= 15 ==> ((n * 17) as u8) >> 4 == n) by (bit_vector);
}

/// Unpacking a packed image to 8-bit samples and packing the samples again
/// gives back the packed bytes, for every width and height and every byte
/// pattern whose padding nibbles are clear.
#[verifier::rlimit(50)]
pub proof fn lemma_unpack_then_pack_is_identity(bytes: Seq<u8>, w: int, h: int)
    requires
        0 <= w,
        0 <= h,
        bytes.len() >= row_bytes_spec(w) * h,
        padding_is_clear(bytes, w, h),
    ensures
        pack_image_spec(unpack_image_spec(bytes, w, h), w, h) == bytes.subrange(
            0,
            row_bytes_spec(w) * h,
        ),
{
    let rb = row_bytes_spec(w);
    let px = unpack_image_spec(bytes, w, h);
    let back = pack_image_spec(px, w, h);
    assert(0 <= rb * h) by (nonlinear_arith)
        requires
            0 <= rb,
            0 <= h,
    ;
    assert(0 <= w * h) by (nonlinear_arith)
        requires
            0 <= w,
            0 <= h,
    ;
    assert forall|i: int| 0 <= i < rb * h implies back[i] == bytes[i] by {
        assert(rb > 0) by (nonlinear_arith)
            requires
                0 <= i < rb * h,
                0 <= rb,
        ;
        let y = i / rb;
        let k = i % rb;
        vstd::arithmetic::div_mod::lemma_fundamental_div_mod(i, rb);
        assert(0 <= y < h) by (nonlinear_arith)
            requires
                i == rb * y + k,
                0 <= k < rb,
                0 <= i < rb * h,
        ;
        lemma_row_range(y, h, w);
        lemma_row_range(y, h, rb);
        assert(rb * y == y * rb) by (nonlinear_arith);
        let row = px.subrange(y * w, y * w + w);
        let b = bytes[i];
        lemma_nibbles(b, 0, 0, 0);
        lemma_scale_round_trip(low_nibble(b));
        lemma_scale_round_trip(high_nibble(b));
        lemma_index_split(y * w + 2 * k, y, w);
        assert(row[2 * k] == px[y * w + 2 * k]);
        assert(row[2 * k] >> 4 == low_nibble(b));
        if 2 * k + 1 < w {
            lemma_index_split(y * w + 2 * k + 1, y, w);
            assert(row[2 * k + 1] == px[y * w + 2 * k + 1]);
            assert((2 * k + 1) / 2 == k);
            assert(row[2 * k + 1] >> 4 == high_nibble(b));
        } else {
            assert(k == rb - 1);
            assert(w % 2 == 1);
            assert(high_nibble(bytes[y * rb + rb - 1]) == 0);
        }
    }
    assert(back =~= bytes.subrange(0, rb * h));
}

/// A packed image that is only read.
pub struct Gray4Img<'a> {
    pub bytes: &'a [u8],
    pub w: usize,
    pub h: usize,
}

/// A packed image that is written in place.
pub struct Gray4ImgMut<'a> {
    pub bytes: &'a mut [u8],
    pub w: usize,
    pub h: usize,
}

impl Gray4Img<'_> {
    /// The bytes of row `y`, which must be a row of the image.
    pub fn row(&self, y: usize) -> (r: &[u8])
        requires
            y < self.h,
            self.bytes@.len() >= row_bytes_spec(self.w as int) * self.h,
        ensures
            r@ == self.bytes@.subrange(
                y * row_bytes_spec(self.w as int),
                (y + 1) * row_bytes_spec(self.w as int),
            ),
    {
        let rb = row_bytes(self.w);
        proof {
            lemma_row_range(y as int, self.h as int, rb as int);
            lemma_slice_len_fits(self.bytes);
        }
        vstd::slice::slice_subrange(self.bytes, y * rb, y * rb + rb)
    }
}

impl Gray4ImgMut<'_> {
    /// The bytes of row `y`, which must be a row of the image, for writing.
    /// What is written through the result lands in the image; the rest of the
    /// image stays as it is.
    pub fn row_mut(&mut self, y: usize) -> (r: &mut [u8])
        requires
            y < old(self).h,
            old(self).bytes@.len() >= row_bytes_spec(old(self).w as int) * old(self).h,
        ensures
            r@ == old(self).bytes@.subrange(
                y * row_bytes_spec(old(self).w as int),
                (y + 1) * row_bytes_spec(old(self).w as int),
            ),
            final(self).w == old(self).w,
            final(self).h == old(self).h,
            final(self).bytes@ == old(self).bytes@.subrange(
                0,
                y * row_bytes_spec(old(self).w as int),
            ) + final(r)@ + old(self).bytes@.subrange(
                (y + 1) * row_bytes_spec(old(self).w as int),
                old(self).bytes@.len() as int,
            ),
            final(final(self).bytes)@ == final(old(self).bytes)@,
    {
        let rb = row_bytes(self.w);
        proof {
            lemma_row_range(y as int, self.h as int, rb as int);
            lemma_slice_len_fits(self.bytes);
        }
        slice_range_mut(self.bytes, y * rb, y * rb + rb)
    }
}

/// A view of packed storage that reads and writes single pixels.
pub struct Gray4ViewMut<'a> {
    pub data: &'a mut [u8],
    pub w: usize,
    pub h: usize,
}

/// A view of packed storage that reads single pixels.
pub struct Gray4View<'a> {
    pub data: &'a [u8],
    pub w: usize,
    pub h: usize,
}

/// Reads pixel `(x, y)` of packed storage of `w` by `h` pixels.
fn read_pixel(data: &[u8], w: usize, h: usize, x: usize, y: usize) -> (v: u8)
    requires
        x < w,
        y < h,
        data@.len() >= row_bytes_spec(w as int) * h,
    ensures
        v == image_pixel(data@, w as int, x as int, y as int),
        v <= 15,
{
    let rb = row_bytes(w);
    proof {
        lemma_slice_len_fits(data);
        lemma_row_range(y as int, h as int, rb as int);
        lemma_usize_halves(x);
    }
    let i = y * rb + (x >> 1);
    let b: u8 = data[i];
    proof {
        lemma_nibbles(b, 0, 0, 0);
    }
    if (x & 1) == 0 {
        b & 0x0F
    } else {
        (b >> 4) & 0x0F
    }
}

impl<'a> Gray4ViewMut<'a> {
    /// The bytes under the view, as they are now.
    pub open spec fn bytes(&self) -> Seq<u8> {
        self.data@
    }

    /// A view of `data` as `w` by `h` pixels; what is set through the view
    /// lands in `data`.
    pub fn new(data: &'a mut [u8], w: usize, h: usize) -> (r: Self)
        ensures
            r.data@ == old(data)@,
            r.w == w,
            r.h == h,
            final(r.data)@ == final(data)@,
    {
        Self { data, w, h }
    }

    /// Pixel `(x, y)`, which must be a pixel of the view.
    pub fn get(&self, x: usize, y: usize) -> (v: u8)
        requires
            x < self.w,
            y < self.h,
            self.bytes().len() >= row_bytes_spec(self.w as int) * self.h,
        ensures
            v == image_pixel(self.bytes(), self.w as int, x as int, y as int),
            v <= 15,
    {
        read_pixel(self.data, self.w, self.h, x, y)
    }

    /// Sets pixel `(x, y)`, which must be a pixel of the view, to the low four
    /// bits of `v`; its neighbour in the same byte and all other bytes stay
    /// as they are.
    pub fn set(&mut self, x: usize, y: usize, v: u8)
        requires
            x < old(self).w,
            y < old(self).h,
            old(self).data@.len() >= row_bytes_spec(old(self).w as int) * old(self).h,
        ensures
            final(self).w == old(self).w,
            final(self).h == old(self).h,
            final(final(self).data)@ == final(old(self).data)@,
            final(self).data@ == old(self).data@.update(
                y * row_bytes_spec(old(self).w as int) + x / 2,
                with_nibble(
                    old(self).data@[y * row_bytes_spec(old(self).w as int) + x / 2],
                    x % 2 == 1,
                    v,
                ),
            ),
    {
        let rb = row_bytes(self.w);
        proof {
            lemma_slice_len_fits(self.data);
            lemma_row_range(y as int, self.h as int, rb as int);
            lemma_usize_halves(x);
        }
        let i = y * rb + (x >> 1);
        let m: u8 = v & 0x0F;
        let r: u8 = self.data[i];
        if (x & 1) == 0 {
            self.data[i] = (r & 0xF0) | m;
        } else {
            self.data[i] = (r & 0x0F) | (m << 4);
        }
    }

    /// The same storage, for reading only.
    pub fn as_ro(&self) -> (r: Gray4View<'_>)
        ensures
            r.data@ == self.bytes(),
            r.w == self.w,
            r.h == self.h,
    {
        Gray4View { data: self.data, w: self.w, h: self.h }
    }
}

impl<'a> Gray4View<'a> {
    /// A view of `data` as `w` by `h` pixels.
    pub fn new(data: &'a [u8], w: usize, h: usize) -> (r: Self)
        ensures
            r.data@ == data@,
            r.w == w,
            r.h == h,
    {
        Self { data, w, h }
    }

    /// Pixel `(x, y)`, which must be a pixel of the view.
    pub fn get(&self, x: usize, y: usize) -> (v: u8)
        requires
            x < self.w,
            y < self.h,
            self.data@.len() >= row_bytes_spec(self.w as int) * self.h,
        ensures
            v == image_pixel(self.data@, self.w as int, x as int, y as int),
            v <= 15,
    {
        read_pixel(self.data, self.w, self.h, x, y)
    }

    /// Width and height in pixels.
    pub fn dims(&self) -> (r: (usize, usize))
        ensures
            r.0 == self.w,
            r.1 == self.h,
    {
        (self.w, self.h)
    }
}

/// Packed storage that is handed out row by row.
pub struct PackedRows<'a> {
    pub data: &'a mut [u8],
    pub w: usize,
    pub h: usize,
}

impl<'a> PackedRows<'a> {
    /// The bytes of the storage, as they are now.
    pub open spec fn bytes(&self) -> Seq<u8> {
        self.data@
    }

    /// Rows over `data` as `w` by `h` pixels; what is written to a row lands
    /// in `data`.
    pub fn new(data: &'a mut [u8], w: usize, h: usize) -> (r: Self)
        ensures
            r.data@ == old(data)@,
            r.w == w,
            r.h == h,
            final(r.data)@ == final(data)@,
    {
        Self { data, w, h }
    }

    /// The bytes of row `y`, which must be one of the rows, for writing. What
    /// is written through the result lands in the storage; the rest stays as
    /// it is.
    pub fn row_mut(&mut self, y: usize) -> (r: &mut [u8])
        requires
            y < old(self).h,
            old(self).data@.len() >= row_bytes_spec(old(self).w as int) * old(self).h,
        ensures
            r@ == old(self).data@.subrange(
                y * row_bytes_spec(old(self).w as int),
                (y + 1) * row_bytes_spec(old(self).w as int),
            ),
            final(self).w == old(self).w,
            final(self).h == old(self).h,
            final(self).data@ == old(self).data@.subrange(
                0,
                y * row_bytes_spec(old(self).w as int),
            ) + final(r)@ + old(self).data@.subrange(
                (y + 1) * row_bytes_spec(old(self).w as int),
                old(self).data@.len() as int,
            ),
            final(final(self).data)@ == final(old(self).data)@,
    {
        let rb = row_bytes(self.w);
        proof {
            lemma_row_range(y as int, self.h as int, rb as int);
            lemma_slice_len_fits(self.data);
        }
        slice_range_mut(self.data, y * rb, y * rb + rb)
    }

    /// The bytes of row `y`, which must be one of the rows.
    pub fn row(&self, y: usize) -> (r: &[u8])
        requires
            y < self.h,
            self.bytes().len() >= row_bytes_spec(self.w as int) * self.h,
        ensures
            r@ == self.bytes().subrange(
                y * row_bytes_spec(self.w as int),
                (y + 1) * row_bytes_spec(self.w as int),
            ),
    {
        let rb = row_bytes(self.w);
        proof {
            lemma_row_range(y as int, self.h as int, rb as int);
            lemma_slice_len_fits(self.data);
        }
        vstd::slice::slice_subrange(self.data, y * rb, y * rb + rb)
    }
}

/// The brightness table: `table[b][v]` is `v` scaled by `b / 15`, rounded.
pub open spec fn mul4_spec(b: int, v: int) -> int {
    (v * b + 7) / 15
}

/// Whether `lut` is the 16 by 16 brightness table.
pub open spec fn is_mul4_lut(lut: [[u8; 16]; 16]) -> bool {
    forall|b: int, v: int| 0 <= b < 16 && 0 <= v < 16 ==> lut[b][v] == mul4_spec(b, v)
}

/// Builds the 16 by 16 table that maps a brightness level and a pixel value
/// to the scaled pixel value.
pub fn build_mul4_lut() -> (lut: [[u8; 16]; 16])
    ensures
        is_mul4_lut(lut),
{
    let mut lut = [[0u8; 16]; 16];
    let mut b: usize = 0;
    while b < 16
        invariant
            b <= 16,
            forall|bb: int, v: int|
                0 <= bb < b && 0 <= v < 16 ==> lut[bb][v] == mul4_spec(bb, v),
        decreases 16 - b,
    {
        let mut v: usize = 0;
        while v < 16
            invariant
                b < 16,
                v <= 16,
                forall|bb: int, vv: int|
                    0 <= bb < b && 0 <= vv < 16 ==> lut[bb][vv] == mul4_spec(bb, vv),
                forall|vv: int| 0 <= vv < v ==> lut[b as int][vv] == mul4_spec(b as int, vv),
            decreases 16 - v,
        {
            assert(v * b <= 225) by (nonlinear_arith)
                requires
                    v < 16,
                    b < 16,
            ;
            lut[b][v] = ((v * b + 7) / 15) as u8;
            v += 1;
        }
        b += 1;
    }
    lut
}

/// A scaled pixel is never brighter than the pixel, and black stays black.
pub proof fn lemma_mul4_bounds(b: int, v: int)
    requires
        0 <= b < 16,
        0 <= v < 16,
    ensures
        0 <= mul4_spec(b, v) <= v,
        mul4_spec(b, 0) == 0,
        mul4_spec(15, v) == v,
        mul4_spec(0, v) == 0,
{
    assert(0 <= v * b <= 15 * v) by (nonlinear_arith)
        requires
            0 <= b < 16,
            0 <= v < 16,
    ;
}

/// Shifting right by one halves; the lowest bit tells odd from even.
pub proof fn lemma_usize_halves(x: usize)
    ensures
        x >> 1 == x / 2,
        (x & 1 == 0) <==> x % 2 == 0,
{
    assert(x >> 1 == x / 2) by (bit_vector);
    assert((x & 1 == 0) <==> x % 2 == 0) by (bit_vector);
}

} // verus!
