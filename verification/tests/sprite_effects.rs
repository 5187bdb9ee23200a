use deej_oled::frame::{FrameBuffer, Point};
use deej_oled::sprite::{
    draw_sheet_frame, draw_sheet_frame_fade_dither, draw_sheet_frame_flash,
    draw_sheet_frame_masked, draw_sheet_frame_masked_crt, draw_sheet_frame_with, frame_count,
    frame_slice, Shade, FLASH_MAX_BOOST,
};

/// A sheet of two frames of 3 by 2 pixels.
///
/// Frame 0:  1 0 3      Frame 1:  15 15 15
///           4 5 0                 0  1  2
fn sheet() -> Vec<u8> {
    vec![0x01, 0x03, 0x54, 0x00, 0xFF, 0x0F, 0x10, 0x02]
}

fn pixels(fb: &FrameBuffer) -> Vec<Vec<u8>> {
    (0..fb.height())
        .map(|y| (0..fb.width()).map(|x| fb.get_pixel(x, y)).collect())
        .collect()
}

fn grey(w: usize, h: usize, v: u8) -> FrameBuffer {
    let mut fb = FrameBuffer::new(0, w, h).unwrap();
    for y in 0..h {
        for x in 0..w {
            fb.set_pixel(x, y, v);
        }
    }
    fb
}

#[test]
fn frame_count_divides_the_sheet() {
    assert_eq!(frame_count(&sheet(), 3, 2), 2);
    assert_eq!(frame_count(&[0u8; 9], 3, 2), 2);
    assert_eq!(frame_count(&[0u8; 3], 3, 2), 0);
    assert_eq!(frame_count(&[0u8; 1600], 40, 40), 2);
    assert_eq!(frame_count(&[], 1, 1), 0);
}

#[test]
fn frame_slice_cuts_one_frame() {
    let s = sheet();
    assert_eq!(frame_slice(&s, 3, 2, 0), &[0x01, 0x03, 0x54, 0x00]);
    assert_eq!(frame_slice(&s, 3, 2, 1), &[0xFF, 0x0F, 0x10, 0x02]);
}

#[test]
fn masked_blit_skips_black_pixels() {
    let mut fb = grey(5, 4, 9);
    draw_sheet_frame_masked(&mut fb, &sheet(), 3, 2, 0, Point::new(1, 1));
    assert_eq!(
        pixels(&fb),
        vec![
            vec![9, 9, 9, 9, 9],
            vec![9, 1, 9, 3, 9],
            vec![9, 4, 5, 9, 9],
            vec![9, 9, 9, 9, 9],
        ]
    );
}

#[test]
fn opaque_blit_copies_black_pixels_too() {
    let mut fb = grey(5, 4, 9);
    draw_sheet_frame(&mut fb, &sheet(), 3, 2, 0, Point::new(1, 1));
    assert_eq!(
        pixels(&fb),
        vec![
            vec![9, 9, 9, 9, 9],
            vec![9, 1, 0, 3, 9],
            vec![9, 4, 5, 0, 9],
            vec![9, 9, 9, 9, 9],
        ]
    );
}

#[test]
fn blit_picks_the_frame_by_index() {
    let mut fb = grey(3, 2, 7);
    draw_sheet_frame_masked(&mut fb, &sheet(), 3, 2, 1, Point::new(0, 0));
    assert_eq!(pixels(&fb), vec![vec![15, 15, 15], vec![7, 1, 2]]);
}

#[test]
fn blit_clips_at_every_edge() {
    let mut fb = grey(2, 2, 9);
    draw_sheet_frame_masked(&mut fb, &sheet(), 3, 2, 1, Point::new(-1, -1));
    assert_eq!(pixels(&fb), vec![vec![1, 2], vec![9, 9]]);
    let mut fb = grey(2, 2, 9);
    draw_sheet_frame_masked(&mut fb, &sheet(), 3, 2, 1, Point::new(1, 1));
    assert_eq!(pixels(&fb), vec![vec![9, 9], vec![9, 15]]);
    let mut fb = grey(2, 2, 9);
    draw_sheet_frame_masked(&mut fb, &sheet(), 3, 2, 1, Point::new(i32::MAX, i32::MAX));
    assert_eq!(pixels(&fb), vec![vec![9, 9], vec![9, 9]]);
    draw_sheet_frame_masked(&mut fb, &sheet(), 3, 2, 1, Point::new(i32::MIN, i32::MIN));
    assert_eq!(pixels(&fb), vec![vec![9, 9], vec![9, 9]]);
}

#[test]
fn flash_boost_decays_linearly() {
    assert_eq!(FLASH_MAX_BOOST, 6);
    // Frame 0 holds 1, 3, 4, 5; with three steps the boost is 6, 4, 2.
    let expect = [
        vec![vec![7, 0, 9], vec![10, 11, 0]],
        vec![vec![5, 0, 7], vec![8, 9, 0]],
        vec![vec![3, 0, 5], vec![6, 7, 0]],
        vec![vec![1, 0, 3], vec![4, 5, 0]],
        vec![vec![1, 0, 3], vec![4, 5, 0]],
    ];
    for (step, want) in expect.iter().enumerate() {
        let mut fb = FrameBuffer::new(0, 3, 2).unwrap();
        draw_sheet_frame_flash(&mut fb, &sheet(), 3, 2, 0, Point::new(0, 0), step as u8, 3);
        assert_eq!(&pixels(&fb), want, "step {}", step);
    }
}

#[test]
fn flash_caps_at_white_and_keeps_black_transparent() {
    let mut fb = grey(3, 2, 2);
    draw_sheet_frame_flash(&mut fb, &sheet(), 3, 2, 1, Point::new(0, 0), 0, 16);
    assert_eq!(pixels(&fb), vec![vec![15, 15, 15], vec![2, 7, 8]]);
}

#[test]
fn flash_without_steps_is_a_masked_blit() {
    let mut fb = grey(3, 2, 2);
    draw_sheet_frame_flash(&mut fb, &sheet(), 3, 2, 0, Point::new(0, 0), 0, 0);
    assert_eq!(pixels(&fb), vec![vec![1, 2, 3], vec![4, 5, 2]]);
}

#[test]
fn glitch_off_is_a_masked_blit() {
    let mut fb = grey(3, 2, 2);
    draw_sheet_frame_masked_crt(&mut fb, &sheet(), 3, 2, 0, Point::new(0, 0), 77, false);
    assert_eq!(pixels(&fb), vec![vec![1, 2, 3], vec![4, 5, 2]]);
}

#[test]
fn glitch_dims_by_one_and_displaces_rows() {
    // Tick 0: row 0 has seed 0 and moves by -2, row 1 has seed 13, 13 % 8 = 5,
    // and stays. A pixel of value 1 is dimmed away.
    let mut fb = grey(7, 2, 9);
    draw_sheet_frame_masked_crt(&mut fb, &sheet(), 3, 2, 0, Point::new(2, 0), 0, true);
    assert_eq!(
        pixels(&fb),
        vec![vec![9, 9, 2, 9, 9, 9, 9], vec![9, 9, 3, 4, 9, 9, 9]]
    );
}

#[test]
fn glitch_offset_follows_the_table() {
    // One white pixel in a one-row frame: the row's offset is read from where
    // the pixel lands. With row 0 the seed is 7 * tick.
    let table = [-2i64, -1, 0, 1, 2, 0, -1, 1];
    for tick in 0u8..=255 {
        let mut fb = FrameBuffer::new(0, 5, 1).unwrap();
        draw_sheet_frame_masked_crt(&mut fb, &[0x0F], 1, 1, 0, Point::new(2, 0), tick, true);
        let r = (7 * tick as usize) % 8;
        let want = (2 + table[r]) as usize;
        for x in 0..5 {
            assert_eq!(fb.get_pixel(x, 0), if x == want { 14 } else { 0 }, "tick {}", tick);
        }
    }
}

#[test]
fn glitch_offset_depends_on_the_row() {
    // Rows 0..8 at tick 0 have seeds 0, 13, 26, ...: offsets by 13 * y mod 8.
    let table = [-2i64, -1, 0, 1, 2, 0, -1, 1];
    let sheet = vec![0x0Fu8; 300];
    let mut fb = FrameBuffer::new(0, 5, 300).unwrap();
    draw_sheet_frame_masked_crt(&mut fb, &sheet, 1, 300, 0, Point::new(2, 0), 3, true);
    for y in 0..300usize {
        let r = (13 * y + 21) % 8;
        let want = (2 + table[r]) as usize;
        for x in 0..5 {
            assert_eq!(fb.get_pixel(x, y), if x == want { 14 } else { 0 }, "row {}", y);
        }
    }
}

#[test]
fn fade_at_step_zero_is_a_masked_blit() {
    let mut fb = grey(3, 2, 2);
    draw_sheet_frame_fade_dither(&mut fb, &sheet(), 3, 2, 0, Point::new(0, 0), 0, 16);
    assert_eq!(pixels(&fb), vec![vec![1, 2, 3], vec![4, 5, 2]]);
    let mut fb = grey(3, 2, 2);
    draw_sheet_frame_fade_dither(&mut fb, &sheet(), 3, 2, 0, Point::new(0, 0), 5, 0);
    assert_eq!(pixels(&fb), vec![vec![1, 2, 3], vec![4, 5, 2]]);
}

#[test]
fn fade_scales_without_dither_in_the_first_third() {
    // Step 4 of 16: three quarters are left and 4 is not more than 16 / 3.
    // 15 * 12 / 16 rounds to 11; 1 * 12 / 16 to 1; 2 * 12 / 16 to 2.
    let mut fb = grey(3, 2, 9);
    draw_sheet_frame_fade_dither(&mut fb, &sheet(), 3, 2, 1, Point::new(0, 0), 4, 16);
    assert_eq!(pixels(&fb), vec![vec![11, 11, 11], vec![9, 1, 2]]);
}

#[test]
fn fade_dithers_a_checkerboard_after_a_third() {
    // Step 8 of 16: half is left, 15 scales to 8, and every pixel with an odd
    // sum of coordinates loses one more level.
    let mut fb = grey(3, 2, 9);
    draw_sheet_frame_fade_dither(&mut fb, &sheet(), 3, 2, 1, Point::new(0, 0), 8, 16);
    // Row 1 holds 0, 1, 2: 1 scales to 1 and stays (even sum), 2 scales to 1
    // and is dimmed away (odd sum).
    assert_eq!(pixels(&fb), vec![vec![8, 7, 8], vec![9, 1, 9]]);
}

#[test]
fn fade_ends_in_black() {
    let mut fb = grey(3, 2, 9);
    draw_sheet_frame_fade_dither(&mut fb, &sheet(), 3, 2, 1, Point::new(0, 0), 16, 16);
    assert_eq!(pixels(&fb), vec![vec![9, 9, 9], vec![9, 9, 9]]);
    draw_sheet_frame_fade_dither(&mut fb, &sheet(), 3, 2, 1, Point::new(0, 0), 200, 16);
    assert_eq!(pixels(&fb), vec![vec![9, 9, 9], vec![9, 9, 9]]);
}

#[test]
fn draw_with_takes_any_effect() {
    let mut fb = grey(3, 2, 9);
    draw_sheet_frame_with(&mut fb, &sheet(), 3, 2, 0, Point::new(0, 0), Shade::Flash { boost: 200 });
    assert_eq!(pixels(&fb), vec![vec![15, 9, 15], vec![15, 15, 9]]);
    let mut fb = grey(3, 2, 9);
    draw_sheet_frame_with(
        &mut fb,
        &sheet(),
        3,
        2,
        0,
        Point::new(0, 0),
        Shade::Fade { num: 1, den: 2, dither: false },
    );
    // 1 / 2 rounds to 1, 3 / 2 to 2, 4 / 2 to 2, 5 / 2 to 3.
    assert_eq!(pixels(&fb), vec![vec![1, 9, 2], vec![2, 3, 9]]);
}

#[test]
fn empty_frames_draw_nothing() {
    let mut fb = grey(3, 2, 9);
    draw_sheet_frame(&mut fb, &[], 0, 5, 3, Point::new(0, 0));
    draw_sheet_frame(&mut fb, &[], 5, 0, 3, Point::new(0, 0));
    assert_eq!(pixels(&fb), vec![vec![9, 9, 9], vec![9, 9, 9]]);
}
