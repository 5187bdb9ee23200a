//! Sprite sheets and the effects that draw one of their frames on a canvas.
//!
//! A sheet is a run of packed frames of one size. Every effect reads a frame
//! pixel by pixel, changes its brightness, and puts what is left on the
//! canvas at a position; a pixel that ends up black is transparent and leaves
//! the canvas as it was. Pixels that fall off the canvas are dropped.

use crate::frame::{put_pixel, FrameBuffer, Point};
use crate::gray4::{
    high_nibble, lemma_nibbles, lemma_row_range, lemma_slice_len_fits, low_nibble, row_bytes,
    row_bytes_spec,
};
use vstd::prelude::*;

verus! {

/// The strongest boost of the flash effect, at step 0.
pub const FLASH_MAX_BOOST: u8 = 6;

/// Bytes of one frame of `w` by `h` pixels.
pub open spec fn frame_size_spec(w: int, h: int) -> int {
    row_bytes_spec(w) * h
}

/// Whether the sheet is long enough to hold frame `idx`.
pub open spec fn sheet_holds(sheet: Seq<u8>, w: int, h: int, idx: int) -> bool {
    (idx + 1) * frame_size_spec(w, h) <= sheet.len()
}

/// Pixel `(sx, sy)` of frame `idx` of a sheet.
pub open spec fn sheet_pixel(sheet: Seq<u8>, w: int, h: int, idx: int, sx: int, sy: int) -> u8 {
    let b = sheet[idx * frame_size_spec(w, h) + sy * row_bytes_spec(w) + sx / 2];
    if sx % 2 == 0 {
        low_nibble(b)
    } else {
        high_nibble(b)
    }
}

/// How an effect changes the brightness of the pixels it draws.
#[derive(Clone, Copy, Debug)]
pub enum Shade {
    /// Every pixel of the frame is copied, black ones too.
    Opaque,
    /// Pixels are copied as they are; black is transparent.
    Plain,
    /// Pixels are brightened by `boost`, up to white.
    Flash { boost: u8 },
    /// Pixels are dimmed by one level and each row is displaced sideways.
    Glitch { tick: u8 },
    /// Pixels are scaled by `num / den`; with `dither`, every other pixel of
    /// a checkerboard is dimmed by one more level.
    Fade { num: u16, den: u16, dither: bool },
}

/// A fade needs a denominator that is not zero and a factor of at most one.
pub open spec fn shade_ok(e: Shade) -> bool {
    match e {
        Shade::Fade { num, den, dither } => 0 < den <= 255 && num <= den,
        _ => true,
    }
}

/// `v * num / den`, rounded, and at most 15; black stays black.
pub open spec fn scale_spec(v: u8, num: u16, den: u16) -> u8 {
    if v == 0 || num == 0 {
        0
    } else if (v * num + den / 2) / (den as int) > 15 {
        15
    } else {
        ((v * num + den / 2) / (den as int)) as u8
    }
}

/// The eight sideways displacements of the glitch effect.
pub open spec fn glitch_table(r: int) -> int {
    if r == 0 {
        -2
    } else if r == 1 {
        -1
    } else if r == 2 {
        0
    } else if r == 3 {
        1
    } else if r == 4 {
        2
    } else if r == 5 {
        0
    } else if r == 6 {
        -1
    } else {
        1
    }
}

/// The displacement of row `sy` at tick `tick`.
pub open spec fn glitch_offset(sy: int, tick: u8) -> int {
    glitch_table((13 * sy + 7 * tick) % 8)
}

/// How far an effect displaces row `sy` sideways.
pub open spec fn row_shift(e: Shade, sy: int) -> int {
    match e {
        Shade::Glitch { tick } => glitch_offset(sy, tick),
        _ => 0,
    }
}

/// The value that an effect gives to a frame pixel of value `v` at `(sx, sy)`
/// of the frame.
pub open spec fn shade_value(e: Shade, v: u8, sx: int, sy: int) -> u8 {
    match e {
        Shade::Opaque => v,
        Shade::Plain => v,
        Shade::Flash { boost } => if v == 0 {
            0
        } else if v + boost > 15 {
            15
        } else {
            (v + boost) as u8
        },
        Shade::Glitch { tick } => if v == 0 {
            0
        } else {
            (v - 1) as u8
        },
        Shade::Fade { num, den, dither } => {
            let s = scale_spec(v, num, den);
            if dither && s > 0 && (sx + sy) % 2 != 0 {
                (s - 1) as u8
            } else {
                s
            }
        },
    }
}

/// Whether the effect draws a pixel of that value at all.
pub open spec fn shade_draws(e: Shade, v: u8, sx: int, sy: int) -> bool {
    e is Opaque || shade_value(e, v, sx, sy) != 0
}

/// What the canvas pixel `(tx, ty)` holds after frame `idx` was drawn at
/// `pos` with effect `e`, where it held `prev` before.
pub open spec fn blit_pixel(
    prev: u8,
    sheet: Seq<u8>,
    w: int,
    h: int,
    idx: int,
    pos: Point,
    e: Shade,
    tx: int,
    ty: int,
) -> u8 {
    let sy = ty - pos.y;
    let sx = tx - pos.x - row_shift(e, sy);
    if 0 <= sx < w && 0 <= sy < h && shade_draws(e, sheet_pixel(sheet, w, h, idx, sx, sy), sx, sy) {
        shade_value(e, sheet_pixel(sheet, w, h, idx, sx, sy), sx, sy)
    } else {
        prev
    }
}

/// The same while the drawing is under way: rows before `rows` are done, and
/// of row `rows` the pixels before `cols`.
pub open spec fn blit_partial(
    prev: u8,
    sheet: Seq<u8>,
    w: int,
    h: int,
    idx: int,
    pos: Point,
    e: Shade,
    tx: int,
    ty: int,
    rows: int,
    cols: int,
) -> u8 {
    let sy = ty - pos.y;
    let sx = tx - pos.x - row_shift(e, sy);
    if 0 <= sx < w && 0 <= sy < h && (sy < rows || (sy == rows && sx < cols)) && shade_draws(
        e,
        sheet_pixel(sheet, w, h, idx, sx, sy),
        sx,
        sy,
    ) {
        shade_value(e, sheet_pixel(sheet, w, h, idx, sx, sy), sx, sy)
    } else {
        prev
    }
}

/// The effect of a flash at `flash_step` of `flash_steps`: the boost falls
/// linearly from the strongest at step 0 to nothing at the last step.
pub open spec fn flash_shade(flash_step: u8, flash_steps: u8) -> Shade {
    if flash_steps == 0 || flash_step >= flash_steps {
        Shade::Plain
    } else {
        Shade::Flash {
            boost: (((flash_steps - flash_step) * FLASH_MAX_BOOST + flash_steps / 2) / (
            flash_steps as int)) as u8,
        }
    }
}

/// The effect of the scanline glitch: on while input is active.
pub open spec fn glitch_shade(frame_tick: u8, is_glitching: bool) -> Shade {
    if is_glitching {
        Shade::Glitch { tick: frame_tick }
    } else {
        Shade::Plain
    }
}

/// The effect of a fade at `fade_step` of `fade_steps`: what is left of the
/// brightness is `fade_steps - fade_step` parts of `fade_steps`, and the
/// dither sets in once more than a third of the steps have passed.
pub open spec fn fade_shade(fade_step: u8, fade_steps: u8) -> Shade {
    if fade_steps == 0 || fade_step == 0 {
        Shade::Plain
    } else {
        let step = if fade_step < fade_steps {
            fade_step
        } else {
            fade_steps
        };
        Shade::Fade {
            num: (fade_steps - step) as u16,
            den: fade_steps as u16,
            dither: step > fade_steps / 3,
        }
    }
}

/// Bytes of one frame, computed wide enough that it cannot overflow.
fn frame_size(w: u32, h: u32) -> (r: u64)
    ensures
        r == frame_size_spec(w as int, h as int),
{
    let rb: u64 = (w / 2 + w % 2) as u64;
    assert(rb * h <= 0x8000_0000 * 0x1_0000_0000) by (nonlinear_arith)
        requires
            rb <= 0x8000_0000,
            h <= 0xFFFF_FFFF,
    ;
    rb * (h as u64)
}

/// Number of whole frames in a sheet.
pub fn frame_count(sheet: &[u8], w: u32, h: u32) -> (n: usize)
    requires
        w > 0,
        h > 0,
    ensures
        n == sheet@.len() / (frame_size_spec(w as int, h as int) as nat),
        forall|idx: int| 0 <= idx < n ==> sheet_holds(sheet@, w as int, h as int, idx),
{
    let fsz = frame_size(w, h);
    let len = sheet.len();
    proof {
        lemma_slice_len_fits(sheet);
        assert(fsz > 0) by (nonlinear_arith)
            requires
                fsz == row_bytes_spec(w as int) * h,
                row_bytes_spec(w as int) > 0,
                h > 0,
        ;
    }
    let n = (len as u64) / fsz;
    proof {
        let q = (len as int) / (fsz as int);
        vstd::arithmetic::div_mod::lemma_fundamental_div_mod(len as int, fsz as int);
        assert(0 <= q <= len) by (nonlinear_arith)
            requires
                len == fsz * q + (len as int) % (fsz as int),
                0 <= (len as int) % (fsz as int) < fsz,
                fsz > 0,
                len >= 0,
        ;
        assert forall|idx: int| 0 <= idx < q implies sheet_holds(
            sheet@,
            w as int,
            h as int,
            idx,
        ) by {
            assert((idx + 1) * fsz <= fsz * q) by (nonlinear_arith)
                requires
                    idx + 1 <= q,
                    fsz > 0,
            ;
        }
    }
    n as usize
}

/// Scales a pixel by `num / den`, rounded, and caps it at white.
fn scale_gray4(v: u8, num: u16, den: u16) -> (r: u8)
    requires
        v <= 15,
        0 < den <= 255,
        num <= den,
    ensures
        r == scale_spec(v, num, den),
        r <= 15,
{
    if v == 0 || num == 0 {
        return 0;
    }
    let v16: u16 = v as u16;
    assert(v16 * num <= 15 * 255) by (nonlinear_arith)
        requires
            v16 <= 15,
            num <= 255,
    ;
    let scaled: u16 = (v16 * num + den / 2) / den;
    if scaled > 15 {
        15
    } else {
        scaled as u8
    }
}

/// The sideways displacement of row `y` at tick `frame_tick`.
fn glitch_row_offset(y: u32, frame_tick: u8) -> (r: i64)
    ensures
        r == glitch_offset(y as int, frame_tick),
{
    let seed: u32 = (y % 8) * 13 + ((frame_tick % 8) as u32) * 7;
    let r: u32 = seed % 8;
    assert(r == (13 * y + 7 * frame_tick) % 8) by {
        let a = y as int;
        let t = frame_tick as int;
        assert((13 * (a % 8) + 7 * (t % 8)) % 8 == (13 * a + 7 * t) % 8) by {
            assert(a == 8 * (a / 8) + a % 8);
            assert(t == 8 * (t / 8) + t % 8);
            assert(13 * a + 7 * t == 8 * (13 * (a / 8) + 7 * (t / 8)) + (13 * (a % 8) + 7 * (t
                % 8)));
            vstd::arithmetic::div_mod::lemma_mod_multiples_vanish(
                13 * (a / 8) + 7 * (t / 8),
                13 * (a % 8) + 7 * (t % 8),
                8,
            );
        }
    }
    if r == 0 {
        -2
    } else if r == 1 {
        -1
    } else if r == 2 {
        0
    } else if r == 3 {
        1
    } else if r == 4 {
        2
    } else if r == 5 {
        0
    } else if r == 6 {
        -1
    } else {
        1
    }
}

/// The value that effect `e` gives to a frame pixel `v` at `(x, y)`.
fn shade(e: Shade, v: u8, x: u32, y: u32) -> (r: u8)
    requires
        v <= 15,
        shade_ok(e),
    ensures
        r == shade_value(e, v, x as int, y as int),
        r <= 15,
{
    match e {
        Shade::Opaque => v,
        Shade::Plain => v,
        Shade::Flash { boost } => {
            if v == 0 {
                0
            } else {
                let b: u8 = v.saturating_add(boost);
                if b > 15 {
                    15
                } else {
                    b
                }
            }
        },
        Shade::Glitch { tick } => v.saturating_sub(1),
        Shade::Fade { num, den, dither } => {
            let s = scale_gray4(v, num, den);
            let odd: bool = (x % 2) != (y % 2);
            if dither && s > 0 && odd {
                s - 1
            } else {
                s
            }
        },
    }
}

/// Draws frame `idx` of a sheet at `pos` with effect `e`.
#[verifier::rlimit(50)]
pub fn draw_sheet_frame_with(
    display: &mut FrameBuffer,
    sheet: &[u8],
    w: u32,
    h: u32,
    idx: usize,
    pos: Point,
    e: Shade,
)
    requires
        sheet_holds(sheet@, w as int, h as int, idx as int),
        shade_ok(e),
    ensures
        final(display).id_spec() == old(display).id_spec(),
        final(display).width_spec() == old(display).width_spec(),
        final(display).height_spec() == old(display).height_spec(),
        forall|tx: int, ty: int|
            old(display).contains(tx, ty) ==> final(display).pixel(tx, ty) == blit_pixel(
                old(display).pixel(tx, ty),
                sheet@,
                w as int,
                h as int,
                idx as int,
                pos,
                e,
                tx,
                ty,
            ),
{
    let ghost before = *display;
    let fsz64 = frame_size(w, h);
    let rb: usize = row_bytes(w as usize);
    proof {
        lemma_slice_len_fits(sheet);
        assert(idx * fsz64 + fsz64 == (idx + 1) * fsz64) by (nonlinear_arith);
        assert(0 <= idx * fsz64) by (nonlinear_arith)
            requires
                0 <= idx,
                0 <= fsz64,
        ;
    }
    let fsz: usize = fsz64 as usize;
    let base: usize = idx * fsz;
    let mut y: u32 = 0;
    while y < h
        invariant
            y <= h,
            shade_ok(e),
            rb == row_bytes_spec(w as int),
            fsz == frame_size_spec(w as int, h as int),
            base == idx * fsz,
            base + fsz <= sheet@.len(),
            sheet@.len() <= usize::MAX,
            display.id_spec() == before.id_spec(),
            display.width_spec() == before.width_spec(),
            display.height_spec() == before.height_spec(),
            forall|tx: int, ty: int|
                before.contains(tx, ty) ==> display.pixel(tx, ty) == blit_partial(
                    before.pixel(tx, ty),
                    sheet@,
                    w as int,
                    h as int,
                    idx as int,
                    pos,
                    e,
                    tx,
                    ty,
                    y as int,
                    0,
                ),
        decreases h - y,
    {
        proof {
            lemma_row_range(y as int, h as int, rb as int);
        }
        let row_start: usize = base + (y as usize) * rb;
        let shift: i64 = match e {
            Shade::Glitch { tick } => glitch_row_offset(y, tick),
            _ => 0,
        };
        let ty: i64 = pos.y as i64 + y as i64;
        let mut x: u32 = 0;
        while x < w
            invariant
                x <= w,
                y < h,
                shade_ok(e),
                rb == row_bytes_spec(w as int),
                row_start == idx * frame_size_spec(w as int, h as int) + y * rb,
                row_start + rb <= sheet@.len(),
                sheet@.len() <= usize::MAX,
                shift == row_shift(e, y as int),
                ty == pos.y + y,
                display.id_spec() == before.id_spec(),
                display.width_spec() == before.width_spec(),
                display.height_spec() == before.height_spec(),
                forall|tx: int, ty: int|
                    before.contains(tx, ty) ==> display.pixel(tx, ty) == blit_partial(
                        before.pixel(tx, ty),
                        sheet@,
                        w as int,
                        h as int,
                        idx as int,
                        pos,
                        e,
                        tx,
                        ty,
                        y as int,
                        x as int,
                    ),
            decreases w - x,
        {
            let b: u8 = sheet[row_start + (x / 2) as usize];
            let v: u8 = if x % 2 == 0 {
                b & 0x0F
            } else {
                (b >> 4) & 0x0F
            };
            proof {
                lemma_nibbles(b, 0, 0, 0);
                assert(v == sheet_pixel(sheet@, w as int, h as int, idx as int, x as int, y as int));
            }
            let out: u8 = shade(e, v, x, y);
            let draws: bool = match e {
                Shade::Opaque => true,
                _ => out != 0,
            };
            if draws {
                let ghost mid = *display;
                let tx: i64 = pos.x as i64 + x as i64 + shift;
                display.put(tx, ty, out);
                proof {
                    lemma_nibbles(0, 0, 0, out);
                    assert forall|ox: int, oy: int| before.contains(ox, oy) implies display.pixel(
                        ox,
                        oy,
                    ) == blit_partial(
                        before.pixel(ox, oy),
                        sheet@,
                        w as int,
                        h as int,
                        idx as int,
                        pos,
                        e,
                        ox,
                        oy,
                        y as int,
                        x + 1,
                    ) by {
                        assert(mid.contains(ox, oy));
                        assert(display.pixel(ox, oy) == put_pixel(
                            mid.pixel(ox, oy),
                            ox,
                            oy,
                            tx as int,
                            ty as int,
                            out,
                        ));
                    }
                }
            }
            x += 1;
        }
        y += 1;
    }
}

/// The bytes of frame `idx` of a sheet.
pub fn frame_slice(sheet: &[u8], w: u32, h: u32, idx: usize) -> (r: &[u8])
    requires
        sheet_holds(sheet@, w as int, h as int, idx as int),
    ensures
        r@ == sheet@.subrange(
            idx * frame_size_spec(w as int, h as int),
            (idx + 1) * frame_size_spec(w as int, h as int),
        ),
{
    let fsz64 = frame_size(w, h);
    proof {
        lemma_slice_len_fits(sheet);
        assert(idx * fsz64 + fsz64 == (idx + 1) * fsz64) by (nonlinear_arith);
        assert(0 <= idx * fsz64) by (nonlinear_arith)
            requires
                0 <= idx,
                0 <= fsz64,
        ;
    }
    let fsz: usize = fsz64 as usize;
    let start: usize = idx * fsz;
    vstd::slice::slice_subrange(sheet, start, start + fsz)
}

/// Copies frame `idx` onto the canvas at `pos`, black pixels included.
pub fn draw_sheet_frame(
    display: &mut FrameBuffer,
    sheet: &[u8],
    w: u32,
    h: u32,
    idx: usize,
    pos: Point,
)
    requires
        sheet_holds(sheet@, w as int, h as int, idx as int),
    ensures
        final(display).id_spec() == old(display).id_spec(),
        final(display).width_spec() == old(display).width_spec(),
        final(display).height_spec() == old(display).height_spec(),
        forall|tx: int, ty: int|
            old(display).contains(tx, ty) ==> final(display).pixel(tx, ty) == blit_pixel(
                old(display).pixel(tx, ty),
                sheet@,
                w as int,
                h as int,
                idx as int,
                pos,
                Shade::Opaque,
                tx,
                ty,
            ),
{
    draw_sheet_frame_with(display, sheet, w, h, idx, pos, Shade::Opaque)
}

/// Masked blit: copies frame `idx` onto the canvas at `pos` and skips the
/// pixels whose value is 0.
pub fn draw_sheet_frame_masked(
    display: &mut FrameBuffer,
    sheet: &[u8],
    w: u32,
    h: u32,
    idx: usize,
    pos: Point,
)
    requires
        sheet_holds(sheet@, w as int, h as int, idx as int),
    ensures
        final(display).id_spec() == old(display).id_spec(),
        final(display).width_spec() == old(display).width_spec(),
        final(display).height_spec() == old(display).height_spec(),
        forall|tx: int, ty: int|
            old(display).contains(tx, ty) ==> final(display).pixel(tx, ty) == blit_pixel(
                old(display).pixel(tx, ty),
                sheet@,
                w as int,
                h as int,
                idx as int,
                pos,
                Shade::Plain,
                tx,
                ty,
            ),
{
    draw_sheet_frame_with(display, sheet, w, h, idx, pos, Shade::Plain)
}

/// Flash: a masked blit whose pixels are brightened. The boost is strongest
/// at step 0 and falls linearly to nothing at `flash_steps`; from there on
/// the frame is drawn as it is.
pub fn draw_sheet_frame_flash(
    display: &mut FrameBuffer,
    sheet: &[u8],
    w: u32,
    h: u32,
    idx: usize,
    pos: Point,
    flash_step: u8,
    flash_steps: u8,
)
    requires
        sheet_holds(sheet@, w as int, h as int, idx as int),
    ensures
        final(display).id_spec() == old(display).id_spec(),
        final(display).width_spec() == old(display).width_spec(),
        final(display).height_spec() == old(display).height_spec(),
        forall|tx: int, ty: int|
            old(display).contains(tx, ty) ==> final(display).pixel(tx, ty) == blit_pixel(
                old(display).pixel(tx, ty),
                sheet@,
                w as int,
                h as int,
                idx as int,
                pos,
                flash_shade(flash_step, flash_steps),
                tx,
                ty,
            ),
{
    if flash_steps == 0 || flash_step >= flash_steps {
        return draw_sheet_frame_masked(display, sheet, w, h, idx, pos);
    }
    let steps: u16 = flash_steps as u16;
    let step: u16 = flash_step as u16;
    let remaining: u16 = steps - step;
    assert(remaining * 6 <= 255 * 6) by (nonlinear_arith)
        requires
            remaining <= 255,
    ;
    let raw: u16 = (remaining * (FLASH_MAX_BOOST as u16) + steps / 2) / steps;
    assert(raw <= 6) by (nonlinear_arith)
        requires
            raw == (remaining * 6 + steps / 2) / (steps as int),
            0 < remaining <= steps,
    ;
    let boost: u8 = raw as u8;
    draw_sheet_frame_with(display, sheet, w, h, idx, pos, Shade::Flash { boost })
}

/// Scanline glitch: while `is_glitching`, every row is displaced sideways by
/// an amount that depends on the row and on `frame_tick`, and every pixel is
/// dimmed by one level; otherwise a masked blit.
pub fn draw_sheet_frame_masked_crt(
    display: &mut FrameBuffer,
    sheet: &[u8],
    w: u32,
    h: u32,
    idx: usize,
    pos: Point,
    frame_tick: u8,
    is_glitching: bool,
)
    requires
        sheet_holds(sheet@, w as int, h as int, idx as int),
    ensures
        final(display).id_spec() == old(display).id_spec(),
        final(display).width_spec() == old(display).width_spec(),
        final(display).height_spec() == old(display).height_spec(),
        forall|tx: int, ty: int|
            old(display).contains(tx, ty) ==> final(display).pixel(tx, ty) == blit_pixel(
                old(display).pixel(tx, ty),
                sheet@,
                w as int,
                h as int,
                idx as int,
                pos,
                glitch_shade(frame_tick, is_glitching),
                tx,
                ty,
            ),
{
    if !is_glitching {
        return draw_sheet_frame_masked(display, sheet, w, h, idx, pos);
    }
    draw_sheet_frame_with(display, sheet, w, h, idx, pos, Shade::Glitch { tick: frame_tick })
}

/// Fade with dither: a masked blit whose pixels keep `fade_steps - fade_step`
/// parts of `fade_steps` of their brightness; once more than a third of the
/// steps have passed, every other pixel of a checkerboard is dimmed by one
/// more level. At step 0 the frame is drawn as it is.
pub fn draw_sheet_frame_fade_dither(
    display: &mut FrameBuffer,
    sheet: &[u8],
    w: u32,
    h: u32,
    idx: usize,
    pos: Point,
    fade_step: u8,
    fade_steps: u8,
)
    requires
        sheet_holds(sheet@, w as int, h as int, idx as int),
    ensures
        final(display).id_spec() == old(display).id_spec(),
        final(display).width_spec() == old(display).width_spec(),
        final(display).height_spec() == old(display).height_spec(),
        forall|tx: int, ty: int|
            old(display).contains(tx, ty) ==> final(display).pixel(tx, ty) == blit_pixel(
                old(display).pixel(tx, ty),
                sheet@,
                w as int,
                h as int,
                idx as int,
                pos,
                fade_shade(fade_step, fade_steps),
                tx,
                ty,
            ),
{
    if fade_steps == 0 || fade_step == 0 {
        return draw_sheet_frame_masked(display, sheet, w, h, idx, pos);
    }
    let clamped_step: u16 = if fade_step < fade_steps {
        fade_step as u16
    } else {
        fade_steps as u16
    };
    let num: u16 = (fade_steps as u16) - clamped_step;
    let den: u16 = fade_steps as u16;
    let dither: bool = clamped_step > (fade_steps as u16) / 3;
    draw_sheet_frame_with(display, sheet, w, h, idx, pos, Shade::Fade { num, den, dither })
}

} // verus!
