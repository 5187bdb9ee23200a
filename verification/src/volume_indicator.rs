//! The volume indicator: the icon of the active channel, filled from the
//! bottom by the channel's value.

use crate::adc::AdcTarget;
use crate::frame::{FrameBuffer, Point};
use crate::gray4::{image_pixel, row_bytes_spec, Gray4Img, Gray4ImgMut};
use crate::gray4_effects::{fill_bottom_to_top, fill_pixel, scratch_after_fill, FillParams};
use crate::sprite::{blit_pixel, draw_sheet_frame, Shade};
use vstd::prelude::*;

verus! {

/// Width of an icon in pixels.
pub const ICON_W: usize = 62;

/// Height of an icon in pixels.
pub const ICON_H: usize = 62;

/// Bytes of a packed icon.
pub const ICON_BYTES: usize = 1922;

/// The brightness factor of the rows above the level.
pub const ICON_EMPTY_B: u8 = 1;

/// The brightness factor of the rows up to the level.
pub const ICON_FULL_B: u8 = 3;

/// The icons, one for each target.
#[derive(Clone, Copy)]
pub struct IconSet<'a> {
    pub system: &'a [u8],
    pub mic: &'a [u8],
    pub browser: &'a [u8],
    pub steam: &'a [u8],
    pub discord: &'a [u8],
}

impl<'a> IconSet<'a> {
    /// The icon of a target.
    pub open spec fn icon_spec(&self, target: AdcTarget) -> Seq<u8> {
        match target {
            AdcTarget::System => self.system@,
            AdcTarget::Mic => self.mic@,
            AdcTarget::Browser => self.browser@,
            AdcTarget::Steam => self.steam@,
            AdcTarget::Discord => self.discord@,
        }
    }

    /// Whether every icon is long enough to be drawn.
    pub open spec fn wf(&self) -> bool {
        forall|t: AdcTarget| #[trigger] self.icon_spec(t).len() >= ICON_BYTES
    }

    /// Whether every icon is long enough to be drawn.
    pub fn is_valid(&self) -> (ok: bool)
        ensures
            ok == self.wf(),
    {
        let ok = self.system.len() >= ICON_BYTES && self.mic.len() >= ICON_BYTES
            && self.browser.len() >= ICON_BYTES && self.steam.len() >= ICON_BYTES
            && self.discord.len() >= ICON_BYTES;
        proof {
            if ok {
                assert forall|t: AdcTarget| #[trigger] self.icon_spec(t).len() >= ICON_BYTES by {}
            } else {
                assert(self.icon_spec(AdcTarget::System).len() == self.system@.len());
                assert(self.icon_spec(AdcTarget::Mic).len() == self.mic@.len());
                assert(self.icon_spec(AdcTarget::Browser).len() == self.browser@.len());
                assert(self.icon_spec(AdcTarget::Steam).len() == self.steam@.len());
                assert(self.icon_spec(AdcTarget::Discord).len() == self.discord@.len());
            }
        }
        ok
    }

    /// The icon of a target.
    pub fn icon_for(&self, target: AdcTarget) -> (icon: &'a [u8])
        ensures
            icon@ == self.icon_spec(target),
    {
        match target {
            AdcTarget::System => self.system,
            AdcTarget::Mic => self.mic,
            AdcTarget::Browser => self.browser,
            AdcTarget::Steam => self.steam,
            AdcTarget::Discord => self.discord,
        }
    }
}

/// The bar's two factors as the indicator uses them.
pub open spec fn indicator_params() -> FillParams {
    FillParams { empty_b: ICON_EMPTY_B, full_b: ICON_FULL_B }
}

/// What the canvas pixel `(tx, ty)` holds after the indicator was drawn at
/// `coords` for a channel value of `level`, where it held `prev` before.
pub open spec fn indicator_pixel(
    prev: u8,
    icon: Seq<u8>,
    level: u16,
    coords: Point,
    tx: int,
    ty: int,
) -> u8 {
    let sx = tx - coords.x;
    let sy = ty - coords.y;
    if 0 <= sx < ICON_W && 0 <= sy < ICON_H {
        fill_pixel(
            image_pixel(icon, ICON_W as int, sx, sy),
            sy,
            ICON_H as int,
            level as int,
            indicator_params(),
        )
    } else {
        prev
    }
}

/// The indicator: where it stands, and the buffers it draws with.
pub struct VolumeIndicator {
    pub coords: Point,
    pub out_buf: Vec<u8>,
    pub scratch_row: Vec<u8>,
}

impl VolumeIndicator {
    /// Whether the two buffers have the size of an icon and of its row.
    pub open spec fn wf(&self) -> bool {
        self.out_buf@.len() == ICON_BYTES && self.scratch_row@.len() == ICON_W
    }

    /// Whether this is the indicator `before` after it drew `icon` at
    /// `level`: it stands where it stood, its buffer holds the filled icon
    /// and its scratch row the last row of it.
    pub open spec fn has_drawn(&self, before: &Self, icon: Seq<u8>, level: u16) -> bool {
        &&& self.wf()
        &&& self.coords == before.coords
        &&& forall|sx: int, sy: int|
            0 <= sx < ICON_W && 0 <= sy < ICON_H ==> image_pixel(
                self.out_buf@,
                ICON_W as int,
                sx,
                sy,
            ) == fill_pixel(
                image_pixel(icon, ICON_W as int, sx, sy),
                sy,
                ICON_H as int,
                level as int,
                indicator_params(),
            )
        &&& self.scratch_row@ == scratch_after_fill(
            before.scratch_row@,
            icon,
            ICON_W as int,
            ICON_H as int,
            level as int,
            indicator_params(),
        )
    }

    /// An indicator at `coords`, its buffers zeroed.
    pub fn new(coords: Point) -> (r: VolumeIndicator)
        ensures
            r.wf(),
            r.coords == coords,
            r.out_buf@ == Seq::new(ICON_BYTES as nat, |i: int| 0u8),
            r.scratch_row@ == Seq::new(ICON_W as nat, |i: int| 0u8),
    {
        let out_buf = vec![0u8; ICON_BYTES];
        let scratch_row = vec![0u8; ICON_W];
        assert(out_buf@ =~= Seq::new(ICON_BYTES as nat, |i: int| 0u8));
        assert(scratch_row@ =~= Seq::new(ICON_W as nat, |i: int| 0u8));
        VolumeIndicator { coords, out_buf, scratch_row }
    }

    /// Draws the icon of `adc_target` on the canvas, filled from the bottom
    /// by `adc_value`; the icon covers what was under it.
    pub fn draw(
        &mut self,
        display: &mut FrameBuffer,
        adc_value: u16,
        adc_target: AdcTarget,
        icons: &IconSet,
    )
        requires
            old(self).wf(),
            icons.wf(),
        ensures
            final(self).has_drawn(old(self), icons.icon_spec(adc_target), adc_value),
            final(display).id_spec() == old(display).id_spec(),
            final(display).width_spec() == old(display).width_spec(),
            final(display).height_spec() == old(display).height_spec(),
            forall|tx: int, ty: int|
                old(display).contains(tx, ty) ==> final(display).pixel(tx, ty) == indicator_pixel(
                    old(display).pixel(tx, ty),
                    icons.icon_spec(adc_target),
                    adc_value,
                    old(self).coords,
                    tx,
                    ty,
                ),
    {
        let volume_icon = icons.icon_for(adc_target);
        assert(icons.icon_spec(adc_target).len() >= ICON_BYTES);
        assert(row_bytes_spec(ICON_W as int) * ICON_H == ICON_BYTES);
        let src = Gray4Img { bytes: volume_icon, w: ICON_W, h: ICON_H };
        {
            let mut dst = Gray4ImgMut { bytes: self.out_buf.as_mut_slice(), w: ICON_W, h: ICON_H };
            fill_bottom_to_top(
                &mut dst,
                &src,
                adc_value,
                FillParams { empty_b: ICON_EMPTY_B, full_b: ICON_FULL_B },
                self.scratch_row.as_mut_slice(),
            );
        }
        let ghost before = *display;
        draw_sheet_frame(
            display,
            self.out_buf.as_slice(),
            ICON_W as u32,
            ICON_H as u32,
            0,
            self.coords,
        );
        proof {
            assert forall|tx: int, ty: int| before.contains(tx, ty) implies display.pixel(tx, ty)
                == indicator_pixel(
                before.pixel(tx, ty),
                icons.icon_spec(adc_target),
                adc_value,
                self.coords,
                tx,
                ty,
            ) by {
                let sx = tx - self.coords.x;
                let sy = ty - self.coords.y;
                assert(display.pixel(tx, ty) == blit_pixel(
                    before.pixel(tx, ty),
                    self.out_buf@,
                    ICON_W as int,
                    ICON_H as int,
                    0,
                    self.coords,
                    Shade::Opaque,
                    tx,
                    ty,
                ));
                if 0 <= sx < ICON_W && 0 <= sy < ICON_H {
                    assert(image_pixel(self.out_buf@, ICON_W as int, sx, sy) == fill_pixel(
                        image_pixel(volume_icon@, ICON_W as int, sx, sy),
                        sy,
                        ICON_H as int,
                        adc_value as int,
                        indicator_params(),
                    ));
                }
            }
        }
    }
}

} // verus!
