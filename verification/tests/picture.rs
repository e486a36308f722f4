use harness::draw::Canvas;
use harness::picture::{picture, Layout};

fn rgb(c: Canvas) -> Vec<u8> {
    c.into_bytes()
}

#[test]
fn a_packed_frame_becomes_an_image() {
    let c = picture(Layout::Yuyv, 2, 1, &[16, 128, 235, 128]).unwrap();
    assert_eq!((c.width(), c.height()), (2, 1));
    assert_eq!(rgb(c), [0, 0, 0, 255, 255, 255]);
}

#[test]
fn a_pixel_without_a_partner_stays_black() {
    let frame = [235, 128, 235, 128, 235, 128];
    let c = picture(Layout::Yuyv, 3, 1, &frame).unwrap();
    assert_eq!(rgb(c), [255, 255, 255, 255, 255, 255, 0, 0, 0]);
}

#[test]
fn yuyv_that_is_not_packed_is_decoded_if_it_is_large_enough() {
    // Twice what the image needs: what is left over stays behind the pixels.
    let c = picture(Layout::Yuyv, 1, 2, &[16, 128, 235, 128, 235, 128, 16, 128]).unwrap();
    assert_eq!((c.width(), c.height()), (1, 2));
    assert_eq!(rgb(c), [0, 0, 0, 255, 255, 255, 255, 255, 255, 0, 0, 0]);
    // Too few bytes for the size, and half a pair.
    assert!(picture(Layout::Yuyv, 4, 1, &[16, 128, 235, 128]).is_err());
    assert!(picture(Layout::Yuyv, 1, 1, &[16, 128, 235, 128, 16, 128]).is_err());
}

#[test]
fn gray_frames_have_three_equal_colours() {
    let c = picture(Layout::Gray, 2, 1, &[3, 200]).unwrap();
    assert_eq!(rgb(c), [3, 3, 3, 200, 200, 200]);
    assert!(picture(Layout::Gray, 2, 2, &[1, 2, 3]).is_err());
}

#[test]
fn raw_frames_are_kept_or_turned_round() {
    let frame = [1, 2, 3, 4, 5, 6, 7];
    assert_eq!(rgb(picture(Layout::RawRgb, 2, 1, &frame).unwrap()), frame);
    let c = picture(Layout::RawBgr, 2, 1, &frame).unwrap();
    assert_eq!(rgb(c), [3, 2, 1, 6, 5, 4, 0]);
}

#[test]
fn nv12_frames_share_their_chroma_in_squares() {
    // Four pixels of luma, then one pair of chroma.
    let c = picture(Layout::Nv12, 2, 2, &[16, 235, 126, 16, 128, 128]).unwrap();
    assert_eq!(rgb(c), [0, 0, 0, 255, 255, 255, 128, 128, 128, 0, 0, 0]);
    // A square of each chroma, side by side: blue and red.
    let y = [126u8; 8];
    let frame: Vec<u8> = y.iter().copied().chain([255, 128, 128, 255]).collect();
    let got = rgb(picture(Layout::Nv12, 4, 2, &frame).unwrap());
    assert_eq!(got[..6], [128, 78, 255, 128, 78, 255]);
    assert_eq!(got[6..12], [255, 25, 128, 255, 25, 128]);
    assert_eq!(got[..12], got[12..]);
    assert!(picture(Layout::Nv12, 3, 2, &[0; 9]).is_err());
    assert!(picture(Layout::Nv12, 2, 2, &[0; 7]).is_err());
}
