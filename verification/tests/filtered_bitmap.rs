use deej_oled::animation_node::next_frame;
use deej_oled::filtered_bmp::{
    check_header, FilteredBmp, BUFFER_SIZE, MAX_HEADER_COLORS, MAX_HEADER_WIDTH,
};

/// A bitmap file of 2 by 2 pixels at four bits per pixel: 14 bytes of file
/// header, 40 bytes of info header, a colour table of 16 entries and two
/// rows of four bytes each. The pixel data begins at byte 118.
fn bitmap() -> Vec<u8> {
    let mut f = vec![];
    f.extend_from_slice(b"BM");
    f.extend_from_slice(&126u32.to_le_bytes());
    f.extend_from_slice(&[0; 4]);
    f.extend_from_slice(&118u32.to_le_bytes());
    f.extend_from_slice(&40u32.to_le_bytes());
    f.extend_from_slice(&2i32.to_le_bytes());
    f.extend_from_slice(&2i32.to_le_bytes());
    f.extend_from_slice(&1u16.to_le_bytes());
    f.extend_from_slice(&4u16.to_le_bytes());
    f.extend_from_slice(&0u32.to_le_bytes());
    f.extend_from_slice(&8u32.to_le_bytes());
    f.extend_from_slice(&[0; 8]);
    f.extend_from_slice(&16u32.to_le_bytes());
    f.extend_from_slice(&0u32.to_le_bytes());
    for i in 0..16u8 {
        f.extend_from_slice(&[i * 17, i * 17, i * 17, 0]);
    }
    f.extend_from_slice(&[0xFF, 0x80, 0x40, 0x01, 200, 100, 50, 3]);
    assert_eq!(f.len(), 126);
    f
}

#[test]
fn buffer_holds_four_kilobytes() {
    assert_eq!(BUFFER_SIZE, 4096);
}

#[test]
fn new_copies_the_file_and_pads_with_zeros() {
    let file = bitmap();
    let bmp = FilteredBmp::new(&file);
    assert_eq!(bmp.original(), &file[..]);
    assert_eq!(&bmp.data()[..126], &file[..]);
    assert!(bmp.data()[126..].iter().all(|&b| b == 0));
    let empty = FilteredBmp::new(&[]);
    assert!(empty.data().iter().all(|&b| b == 0));
    let full = vec![7u8; 4096];
    assert!(FilteredBmp::new(&full).data().iter().all(|&b| b == 7));
}

#[test]
fn dim_scales_the_pixel_data_and_keeps_the_header() {
    let file = bitmap();
    let mut bmp = FilteredBmp::new(&file);
    assert!(bmp.try_dim(25));
    assert_eq!(&bmp.data()[..118], &file[..118]);
    // 255 * 75 / 100 = 191, 128 * 75 / 100 = 96, 64 -> 48, 1 -> 0,
    // 200 -> 150, 100 -> 75, 50 -> 37, 3 -> 2.
    assert_eq!(&bmp.data()[118..126], &[191, 96, 48, 0, 150, 75, 37, 2]);
    assert!(bmp.data()[126..].iter().all(|&b| b == 0));
    assert_eq!(bmp.original(), &file[..]);
}

#[test]
fn dim_starts_from_the_file_each_time() {
    let file = bitmap();
    let mut bmp = FilteredBmp::new(&file);
    bmp.dim(50);
    assert_eq!(&bmp.data()[118..126], &[127, 64, 32, 0, 100, 50, 25, 1]);
    bmp.dim(0);
    assert_eq!(&bmp.data()[..126], &file[..]);
    bmp.dim(100);
    assert_eq!(&bmp.data()[118..126], &[0; 8]);
    bmp.dim(0);
    bmp.dim(255);
    assert_eq!(&bmp.data()[118..126], &[0; 8]);
    assert_eq!(&bmp.data()[..118], &file[..118]);
}

#[test]
fn dim_leaves_what_is_no_bitmap_alone() {
    let junk = vec![9u8; 300];
    let mut bmp = FilteredBmp::new(&junk);
    assert!(!bmp.try_dim(50));
    assert_eq!(&bmp.data()[..300], &junk[..]);
    let mut cut = bitmap();
    cut.truncate(120);
    let mut bmp = FilteredBmp::new(&cut);
    assert!(!bmp.try_dim(50));
    assert_eq!(&bmp.data()[..120], &cut[..]);
    let mut none = FilteredBmp::new(&[]);
    assert!(!none.try_dim(50));
}

#[test]
fn dim_from_dims_from_any_start() {
    let file = [10u8, 20, 30, 40, 50];
    let mut bmp = FilteredBmp::new(&file);
    bmp.dim_from(10, 2);
    assert_eq!(&bmp.data()[..6], &[10, 20, 27, 36, 45, 0]);
    bmp.dim_from(90, 5);
    assert_eq!(&bmp.data()[..6], &[10, 20, 27, 36, 45, 0]);
    bmp.dim_from(90, usize::MAX);
    assert_eq!(&bmp.data()[..6], &[10, 20, 27, 36, 45, 0]);
    bmp.dim_from(50, 0);
    assert_eq!(&bmp.data()[..6], &[5, 10, 15, 20, 25, 0]);
}

#[test]
fn bone_frames_cycle_from_one() {
    assert_eq!(next_frame(1, 4), 2);
    assert_eq!(next_frame(3, 4), 4);
    assert_eq!(next_frame(4, 4), 1);
    assert_eq!(next_frame(9, 4), 1);
    assert_eq!(next_frame(0, 0), 1);
    assert_eq!(next_frame(u32::MAX, u32::MAX), 1);
    assert_eq!(next_frame(u32::MAX - 1, u32::MAX), u32::MAX);
}

#[test]
fn header_limits_keep_the_sums_in_32_bits() {
    assert_eq!(MAX_HEADER_WIDTH as u64 * 32 + 31, 0x7FFF_FFFF);
    assert_eq!(MAX_HEADER_COLORS as u64 * 4, 0xFFFF_FFFC);
    assert!(check_header(&bitmap()));
    assert!(check_header(&[]));
    assert!(check_header(&[0xFF; 49]));
    assert!(!check_header(&[0xFF; 50]));
    let mut wide = bitmap();
    wide[18..22].copy_from_slice(&0x03FF_FFFFu32.to_le_bytes());
    assert!(check_header(&wide));
    wide[18..22].copy_from_slice(&0x0400_0000u32.to_le_bytes());
    assert!(!check_header(&wide));
    let mut many = bitmap();
    many[46..50].copy_from_slice(&0x3FFF_FFFFu32.to_le_bytes());
    assert!(check_header(&many));
    many[46..50].copy_from_slice(&0x4000_0000u32.to_le_bytes());
    assert!(!check_header(&many));
}

#[test]
fn dim_refuses_a_header_beyond_the_limits() {
    let mut wide = bitmap();
    wide[18..22].copy_from_slice(&0x0800_0000u32.to_le_bytes());
    let mut bmp = FilteredBmp::new(&wide);
    assert!(!bmp.try_dim(50));
    assert_eq!(&bmp.data()[..126], &wide[..]);
    let mut many = bitmap();
    many[46..50].copy_from_slice(&0x4000_0001u32.to_le_bytes());
    let mut bmp = FilteredBmp::new(&many);
    assert!(!bmp.try_dim(50));
    assert_eq!(&bmp.data()[..126], &many[..]);
}
