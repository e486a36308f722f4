use harness::gray::{fits, gray_frame, gray_image, luma_from_yuyv, FrameError};

#[test]
fn the_gray_image_follows_the_frame_size() {
    let mut slot = None;
    let first = gray_image(&mut slot, 64, 48).unwrap();
    assert_eq!((first.width(), first.height()), (64, 48));
    let ptr = first.as_slice_mut().as_ptr();
    // The same size reuses the buffer; a new size replaces it.
    let same = gray_image(&mut slot, 64, 48).unwrap();
    assert_eq!(same.as_slice_mut().as_ptr(), ptr);
    let resized = gray_image(&mut slot, 100, 30).unwrap();
    assert_eq!((resized.width(), resized.height()), (100, 30));
}

#[test]
fn a_new_image_is_padded_and_blank() {
    let mut slot = None;
    let g = gray_image(&mut slot, 100, 3).unwrap();
    assert_eq!(g.stride(), 192);
    assert_eq!(g.as_slice_mut(), vec![0; 576].as_slice());
    let mut slot = None;
    assert_eq!(gray_image(&mut slot, 96, 2).unwrap().stride(), 96);
}

#[test]
fn luma_is_every_other_byte() {
    let mut slot = None;
    let g = gray_image(&mut slot, 2, 2).unwrap();
    luma_from_yuyv(&[1, 100, 2, 100, 3, 100, 4, 100], g).unwrap();
    let stride = g.stride();
    let bytes = g.as_slice_mut();
    assert_eq!((bytes[0], bytes[1], bytes[2]), (1, 2, 0));
    assert_eq!((bytes[stride], bytes[stride + 1], bytes[stride + 2]), (3, 4, 0));
}

#[test]
fn a_frame_of_another_size_is_refused() {
    let mut slot = None;
    let refused = gray_frame(&mut slot, 2, 2, &[1, 2, 3, 4, 5, 6]);
    match refused {
        Err(FrameError::Refused(e)) => assert_eq!((e.len, e.width, e.height), (6, 2, 2)),
        _ => panic!("not refused"),
    }
    // There is a blank image of that size now.
    let g = slot.as_ref().unwrap();
    assert_eq!((g.width(), g.height()), (2, 2));
    assert!(g.as_slice().iter().all(|b| *b == 0));
    gray_frame(&mut slot, 2, 1, &[7, 0, 8, 0]).unwrap();
    assert_eq!(&slot.as_ref().unwrap().as_slice()[..2], [7, 8]);
    // An image that is already there is left as it was.
    assert!(gray_frame(&mut slot, 2, 1, &[9]).is_err());
    assert_eq!(&slot.as_ref().unwrap().as_slice()[..2], [7, 8]);
}

#[test]
fn sizes_are_counted_in_32_bits() {
    assert!(fits(1280, 720));
    assert!(fits(0, 0));
    assert!(!fits(usize::MAX, 1));
    assert!(!fits(1 << 16, 1 << 16));
}
