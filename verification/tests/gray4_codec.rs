use deej_oled::gray4::{
    build_mul4_lut, pack_image_8_to_4, pack_row_8_to_4, pack_row_nibbles_to_4, row_bytes,
    size_bytes, slice_range_mut, unpack_image_4_to_8, unpack_row_4_to_8, unpack_row_4_to_nibbles,
    Gray4Img, Gray4ImgMut, Gray4View, Gray4ViewMut, PackedRows,
};

#[test]
fn row_bytes_rounds_up() {
    assert_eq!(row_bytes(0), 0);
    assert_eq!(row_bytes(1), 1);
    assert_eq!(row_bytes(2), 1);
    assert_eq!(row_bytes(3), 2);
    assert_eq!(row_bytes(256), 128);
    assert_eq!(row_bytes(usize::MAX), usize::MAX / 2 + 1);
}

#[test]
fn size_bytes_is_rows_times_row_bytes() {
    assert_eq!(size_bytes(256, 64), 8192);
    assert_eq!(size_bytes(62, 62), 1922);
    assert_eq!(size_bytes(3, 5), 10);
    assert_eq!(size_bytes(0, 7), 0);
    assert_eq!(size_bytes(7, 0), 0);
}

#[test]
fn pack_row_puts_even_pixel_in_low_nibble() {
    let src = [0x10u8, 0xF0, 0x80];
    let mut dst = [0xAAu8; 3];
    pack_row_8_to_4(&src, &mut dst, 3);
    assert_eq!(dst, [0xF1, 0x08, 0xAA]);
}

#[test]
fn pack_row_keeps_only_the_top_four_bits() {
    let src = [0x1Fu8, 0x2F, 0xFF, 0x0F];
    let mut dst = [0u8; 2];
    pack_row_8_to_4(&src, &mut dst, 4);
    assert_eq!(dst, [0x21, 0x0F]);
}

#[test]
fn pack_row_of_width_zero_changes_nothing() {
    let src: [u8; 0] = [];
    let mut dst = [0x5Au8; 2];
    pack_row_8_to_4(&src, &mut dst, 0);
    assert_eq!(dst, [0x5A, 0x5A]);
}

#[test]
fn unpack_row_scales_by_seventeen() {
    let src = [0xF1u8, 0x08];
    let mut dst = [0x77u8; 4];
    unpack_row_4_to_8(&src, &mut dst, 3);
    assert_eq!(dst, [0x11, 0xFF, 0x88, 0x77]);
}

#[test]
fn unpack_row_to_nibbles_does_not_scale() {
    let src = [0xF1u8, 0x28];
    let mut dst = [0x77u8; 5];
    unpack_row_4_to_nibbles(&src, &mut dst, 4);
    assert_eq!(dst, [1, 15, 8, 2, 0x77]);
}

#[test]
fn pack_row_nibbles_masks_each_entry() {
    let nibbles = [0x01u8, 0x1F, 0xF8];
    let mut dst = [0xEEu8; 3];
    pack_row_nibbles_to_4(&nibbles, &mut dst, 3);
    assert_eq!(dst, [0xF1, 0x08, 0xEE]);
}

#[test]
fn nibbles_round_trip_through_a_row() {
    let row = [0x21u8, 0x43, 0x05];
    let mut nibbles = [0u8; 5];
    unpack_row_4_to_nibbles(&row, &mut nibbles, 5);
    assert_eq!(nibbles, [1, 2, 3, 4, 5]);
    let mut back = [0xFFu8; 3];
    pack_row_nibbles_to_4(&nibbles, &mut back, 5);
    assert_eq!(back, row);
}

#[test]
fn pack_image_packs_row_by_row() {
    // 3 by 2 pixels: each row takes two bytes, the second half filled.
    let src = [0x10u8, 0x20, 0x30, 0x40, 0x50, 0x60];
    let mut dst = [0xFFu8; 5];
    pack_image_8_to_4(&src, &mut dst, 3, 2);
    assert_eq!(dst, [0x21, 0x03, 0x54, 0x06, 0xFF]);
}

#[test]
fn unpack_image_unpacks_row_by_row() {
    let src = [0x21u8, 0x03, 0x54, 0x06];
    let mut dst = [0xEEu8; 7];
    unpack_image_4_to_8(&src, &mut dst, 3, 2);
    assert_eq!(dst, [0x11, 0x22, 0x33, 0x44, 0x55, 0x66, 0xEE]);
}

#[test]
fn unpack_then_pack_gives_back_the_bytes_even_width() {
    let w = 6;
    let h = 5;
    let mut packed = vec![0u8; size_bytes(w, h)];
    for (i, b) in packed.iter_mut().enumerate() {
        *b = (i as u8).wrapping_mul(37).wrapping_add(11);
    }
    let mut px = vec![0u8; w * h];
    unpack_image_4_to_8(&packed, &mut px, w, h);
    let mut back = vec![0u8; size_bytes(w, h)];
    pack_image_8_to_4(&px, &mut back, w, h);
    assert_eq!(back, packed);
}

#[test]
fn unpack_then_pack_gives_back_the_bytes_odd_width_clear_padding() {
    let w = 5;
    let h = 4;
    let rb = row_bytes(w);
    let mut packed = vec![0u8; size_bytes(w, h)];
    for (i, b) in packed.iter_mut().enumerate() {
        *b = (i as u8).wrapping_mul(91).wrapping_add(3);
        if i % rb == rb - 1 {
            *b &= 0x0F;
        }
    }
    let mut px = vec![0u8; w * h];
    unpack_image_4_to_8(&packed, &mut px, w, h);
    let mut back = vec![0xFFu8; size_bytes(w, h)];
    pack_image_8_to_4(&px, &mut back, w, h);
    assert_eq!(back, packed);
}

#[test]
fn packing_clears_the_padding_nibble() {
    let packed = [0xF5u8];
    let mut px = [0u8; 1];
    unpack_image_4_to_8(&packed, &mut px, 1, 1);
    assert_eq!(px, [0x55]);
    let mut back = [0xFFu8; 1];
    pack_image_8_to_4(&px, &mut back, 1, 1);
    assert_eq!(back, [0x05]);
}

#[test]
fn slice_range_mut_writes_through() {
    let mut data = [1u8, 2, 3, 4, 5];
    {
        let mid = slice_range_mut(&mut data, 1, 3);
        assert_eq!(mid.len(), 2);
        mid[0] = 20;
        mid[1] = 30;
    }
    assert_eq!(data, [1, 20, 30, 4, 5]);
}

#[test]
fn image_rows_are_found_by_stride() {
    let bytes = [1u8, 2, 3, 4, 5, 6];
    let img = Gray4Img { bytes: &bytes, w: 3, h: 3 };
    assert_eq!(img.row(0), &[1, 2]);
    assert_eq!(img.row(2), &[5, 6]);
}

#[test]
fn image_row_mut_writes_into_the_image() {
    let mut bytes = [1u8, 2, 3, 4, 5, 6];
    {
        let mut img = Gray4ImgMut { bytes: &mut bytes, w: 4, h: 3 };
        let row = img.row_mut(1);
        assert_eq!(row, &[3, 4]);
        row[1] = 0x99;
        assert_eq!(img.w, 4);
        assert_eq!(img.h, 3);
    }
    assert_eq!(bytes, [1, 2, 3, 0x99, 5, 6]);
}

#[test]
fn view_mut_sets_one_nibble_only() {
    let mut bytes = [0xABu8, 0xCD, 0xEF, 0x12];
    {
        let mut view = Gray4ViewMut::new(&mut bytes, 4, 2);
        assert_eq!(view.get(0, 0), 0x0B);
        assert_eq!(view.get(1, 0), 0x0A);
        assert_eq!(view.get(2, 1), 0x02);
        assert_eq!(view.get(3, 1), 0x01);
        view.set(1, 0, 0x37);
        view.set(2, 1, 0x04);
        assert_eq!(view.get(1, 0), 7);
        assert_eq!(view.get(0, 0), 0x0B);
        let ro = view.as_ro();
        assert_eq!(ro.get(2, 1), 4);
        assert_eq!(ro.dims(), (4, 2));
    }
    assert_eq!(bytes, [0x7B, 0xCD, 0xEF, 0x14]);
}

#[test]
fn view_reads_pixels_and_dims() {
    let bytes = [0x21u8, 0x43, 0x65, 0x87];
    let view = Gray4View::new(&bytes, 3, 2);
    assert_eq!(view.dims(), (3, 2));
    assert_eq!(view.get(0, 0), 1);
    assert_eq!(view.get(1, 0), 2);
    assert_eq!(view.get(2, 0), 3);
    assert_eq!(view.get(0, 1), 5);
    assert_eq!(view.get(1, 1), 6);
    assert_eq!(view.get(2, 1), 7);
}

#[test]
fn packed_rows_hand_out_rows() {
    let mut bytes = [1u8, 2, 3, 4, 5, 6];
    {
        let mut rows = PackedRows::new(&mut bytes, 3, 3);
        assert_eq!(rows.row(1), &[3, 4]);
        let r = rows.row_mut(2);
        r[0] = 50;
        assert_eq!(rows.row(2), &[50, 6]);
    }
    assert_eq!(bytes, [1, 2, 3, 4, 50, 6]);
}

#[test]
fn brightness_table_is_rounded_division_by_fifteen() {
    let lut = build_mul4_lut();
    for b in 0..16usize {
        for v in 0..16usize {
            assert_eq!(lut[b][v] as usize, (v * b + 7) / 15);
        }
    }
    assert_eq!(lut[15][9], 9);
    assert_eq!(lut[0][15], 0);
    assert_eq!(lut[8][15], 8);
    assert_eq!(lut[1][7], 0);
    assert_eq!(lut[1][8], 1);
    assert_eq!(lut[3][15], 3);
    assert_eq!(lut[3][2], 0);
    assert_eq!(lut[3][3], 1);
}
