use deej_oled::adc::AdcTarget;
use deej_oled::frame::{FrameBuffer, Point};
use deej_oled::gray4::{size_bytes, Gray4Img, Gray4ImgMut};
use deej_oled::gray4_effects::{fill_bottom_to_top, FillParams};
use deej_oled::volume_indicator::{
    IconSet, VolumeIndicator, ICON_BYTES, ICON_EMPTY_B, ICON_FULL_B, ICON_H, ICON_W,
};

fn scaled(b: usize, v: u8) -> u8 {
    ((v as usize * b + 7) / 15) as u8
}

fn fill(src: &[u8], w: usize, h: usize, level: u16, p: FillParams) -> Vec<u8> {
    let mut out = vec![0xEEu8; size_bytes(w, h) + 1];
    let mut scratch = vec![0u8; w + 2];
    {
        let mut dst = Gray4ImgMut { bytes: &mut out, w, h };
        let img = Gray4Img { bytes: src, w, h };
        fill_bottom_to_top(&mut dst, &img, level, p, &mut scratch);
        assert_eq!(dst.w, w);
        assert_eq!(dst.h, h);
    }
    assert_eq!(scratch.len(), w + 2);
    assert_eq!(out[size_bytes(w, h)], 0xEE);
    out.truncate(size_bytes(w, h));
    out
}

fn pixel(bytes: &[u8], w: usize, x: usize, y: usize) -> u8 {
    let b = bytes[y * ((w + 1) / 2) + x / 2];
    if x % 2 == 0 {
        b & 0x0F
    } else {
        b >> 4
    }
}

#[test]
fn level_zero_is_all_empty() {
    let src = [0xF1u8, 0x08, 0x7F, 0x0A, 0x33, 0x0C];
    let p = FillParams { empty_b: 5, full_b: 12 };
    let out = fill(&src, 3, 3, 0, p);
    for y in 0..3 {
        for x in 0..3 {
            assert_eq!(pixel(&out, 3, x, y), scaled(5, pixel(&src, 3, x, y)));
        }
    }
}

#[test]
fn level_full_is_all_full() {
    let src = [0xF1u8, 0x08, 0x7F, 0x0A, 0x33, 0x0C];
    let p = FillParams { empty_b: 5, full_b: 12 };
    let out = fill(&src, 3, 3, 1023, p);
    for y in 0..3 {
        for x in 0..3 {
            assert_eq!(pixel(&out, 3, x, y), scaled(12, pixel(&src, 3, x, y)));
        }
    }
}

#[test]
fn filled_rows_count_is_rounded_half_up() {
    // Ten rows of white pixels, empty factor 0 and full factor 15, so that a
    // row is white where it is filled and black where not.
    let src = [0xFFu8; 10];
    let p = FillParams { empty_b: 0, full_b: 15 };
    let cases: [(u16, usize); 9] = [
        (0, 0),
        (51, 0),   // 510 / 1023 = 0.4985
        (52, 1),   // 520 / 1023 = 0.5083
        (511, 5),  // 5110 / 1023 = 4.995
        (512, 5),  // 5120 / 1023 = 5.005
        (563, 6),  // 5630 / 1023 = 5.503
        (971, 9),  // 9710 / 1023 = 9.492
        (972, 10), // 9720 / 1023 = 9.501
        (1023, 10),
    ];
    for (level, rows) in cases {
        let out = fill(&src, 2, 10, level, p);
        for y in 0..10 {
            let want = if y + rows >= 10 { 0xFF } else { 0x00 };
            assert_eq!(out[y], want, "level {} row {}", level, y);
        }
    }
}

#[test]
fn level_beyond_the_range_fills_every_row() {
    let src = [0xFFu8; 4];
    let out = fill(&src, 2, 4, 65535, FillParams { empty_b: 0, full_b: 15 });
    assert_eq!(out, vec![0xFF; 4]);
}

#[test]
fn factors_above_fifteen_count_as_fifteen() {
    let src = [0x9Cu8, 0x3A];
    let out = fill(&src, 2, 2, 512, FillParams { empty_b: 200, full_b: 16 });
    assert_eq!(out, vec![0x9C, 0x3A]);
}

#[test]
fn fill_clears_the_padding_nibble() {
    let src = [0xF1u8, 0xF8];
    let out = fill(&src, 3, 1, 1023, FillParams { empty_b: 15, full_b: 15 });
    assert_eq!(out, vec![0xF1, 0x08]);
}

#[test]
fn fill_scales_by_the_table() {
    // Two rows; at level 512 the bottom row is filled: (2 * 512 + 511) / 1023
    // is 1. Full factor 3: 15 -> 3, 8 -> 2. Empty factor 1: 15 -> 1, 7 -> 0.
    let src = [0x7Fu8, 0x8F];
    let out = fill(&src, 2, 2, 512, FillParams { empty_b: 1, full_b: 3 });
    assert_eq!(out, vec![0x01, 0x23]);
}

fn icon(seed: u8) -> Vec<u8> {
    (0..ICON_BYTES).map(|i| (i as u8).wrapping_mul(29).wrapping_add(seed)).collect()
}

#[test]
fn indicator_constants() {
    assert_eq!(ICON_W, 62);
    assert_eq!(ICON_H, 62);
    assert_eq!(ICON_BYTES, size_bytes(ICON_W, ICON_H));
    assert_eq!(ICON_EMPTY_B, 1);
    assert_eq!(ICON_FULL_B, 3);
}

#[test]
fn icon_set_picks_by_target() {
    let (a, b, c, d, e) = (icon(1), icon(2), icon(3), icon(4), icon(5));
    let icons = IconSet { system: &a, mic: &b, browser: &c, steam: &d, discord: &e };
    assert!(icons.is_valid());
    assert_eq!(icons.icon_for(AdcTarget::System), &a[..]);
    assert_eq!(icons.icon_for(AdcTarget::Mic), &b[..]);
    assert_eq!(icons.icon_for(AdcTarget::Browser), &c[..]);
    assert_eq!(icons.icon_for(AdcTarget::Steam), &d[..]);
    assert_eq!(icons.icon_for(AdcTarget::Discord), &e[..]);
    let short = vec![0u8; ICON_BYTES - 1];
    let bad = IconSet { system: &a, mic: &b, browser: &short, steam: &d, discord: &e };
    assert!(!bad.is_valid());
}

#[test]
fn indicator_draws_the_filled_icon_over_the_canvas() {
    let (a, b, c, d, e) = (icon(1), icon(2), icon(3), icon(4), icon(5));
    let icons = IconSet { system: &a, mic: &b, browser: &c, steam: &d, discord: &e };
    let mut fb = FrameBuffer::new(0, 256, 64).unwrap();
    for y in 0..64 {
        for x in 0..256 {
            fb.set_pixel(x, y, 6);
        }
    }
    let mut ind = VolumeIndicator::new(Point::new(170, 1));
    let level = 700u16;
    ind.draw(&mut fb, level, AdcTarget::Steam, &icons);
    assert_eq!(ind.coords, Point::new(170, 1));
    let filled_rows = (62 * level as usize + 511) / 1023;
    assert_eq!(filled_rows, 42);
    for y in 0..64usize {
        for x in 0..256usize {
            let inside = (170..232).contains(&x) && (1..63).contains(&y);
            let want = if inside {
                let (sx, sy) = (x - 170, y - 1);
                let v = pixel(&d, 62, sx, sy);
                if sy + filled_rows >= 62 {
                    scaled(3, v)
                } else {
                    scaled(1, v)
                }
            } else {
                6
            };
            assert_eq!(fb.get_pixel(x, y), want, "at {} {}", x, y);
        }
    }
}

#[test]
fn indicator_is_clipped_by_the_canvas() {
    let (a, b, c, d, e) = (icon(1), icon(2), icon(3), icon(4), icon(5));
    let icons = IconSet { system: &a, mic: &b, browser: &c, steam: &d, discord: &e };
    let mut fb = FrameBuffer::new(0, 10, 10).unwrap();
    let mut ind = VolumeIndicator::new(Point::new(-55, -58));
    ind.draw(&mut fb, 1023, AdcTarget::Mic, &icons);
    for y in 0..10usize {
        for x in 0..10usize {
            let want = if x < 7 && y < 4 { scaled(3, pixel(&b, 62, x + 55, y + 58)) } else { 0 };
            assert_eq!(fb.get_pixel(x, y), want);
        }
    }
}
