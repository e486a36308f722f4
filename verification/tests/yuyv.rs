use harness::yuyv::{is_packed_yuyv, to_rgb};

#[test]
fn matches_nokhwa_byte_for_byte() {
    let mut state = 0x2545_f491_4f6c_dd1d_u64;
    let yuyv: Vec<u8> = (0..64 * 48 * 2)
        .map(|_| {
            state ^= state << 13;
            state ^= state >> 7;
            state ^= state << 17;
            state as u8
        })
        .collect();
    let want = nokhwa::utils::yuyv422_to_rgb(&yuyv, false).unwrap();
    let mut got = vec![0; want.len()];
    to_rgb(&yuyv, &mut got);
    assert_eq!(got, want);
}

#[test]
fn black_white_and_grey_are_what_they_should_be() {
    let mut rgb = vec![9; 6];
    to_rgb(&[16, 128, 235, 128], &mut rgb);
    assert_eq!(rgb, [0, 0, 0, 255, 255, 255]);
    to_rgb(&[126, 128, 0, 128], &mut rgb);
    assert_eq!(rgb, [128, 128, 128, 0, 0, 0]);
    // Strong chroma is clamped at both ends.
    to_rgb(&[255, 0, 16, 255], &mut rgb);
    assert_eq!(rgb, [255, 225, 20, 203, 0, 0]);
}

#[test]
fn only_whole_pairs_of_pixels_are_converted() {
    let mut rgb = vec![7; 11];
    to_rgb(&[235, 128, 235, 128, 235, 128, 235, 128], &mut rgb);
    assert_eq!(rgb, [255, 255, 255, 255, 255, 255, 7, 7, 7, 7, 7]);
    let mut rgb = vec![7; 12];
    to_rgb(&[235, 128, 235, 128, 235, 128, 235], &mut rgb);
    assert_eq!(rgb[6..], [7; 6]);
}

#[test]
fn packed_yuyv_is_two_bytes_a_pixel() {
    assert!(is_packed_yuyv(true, 64, 48, 6144));
    assert!(!is_packed_yuyv(false, 64, 48, 6144));
    // NV12 takes one and a half.
    assert!(!is_packed_yuyv(true, 64, 48, 4608));
    assert!(!is_packed_yuyv(true, u32::MAX, u32::MAX, 2));
}
