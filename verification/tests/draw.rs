use harness::draw::{fill_rect, Canvas, BLUE, CYAN, GREEN, RED};

fn blank(w: u32, h: u32) -> Canvas {
    Canvas::new(w, h, vec![0; (3 * w * h) as usize]).unwrap()
}

/// Which pixels of an image are of this colour, row by row.
fn painted(c: Canvas, color: [u8; 3]) -> Vec<bool> {
    c.into_bytes().chunks(3).map(|p| p == color).collect()
}

#[test]
fn a_rectangle_is_filled() {
    let mut c = blank(4, 3);
    fill_rect(&mut c, 1, 1, 2, 1, RED);
    let (f, t) = (false, true);
    assert_eq!(painted(c, RED), [f, f, f, f, f, t, t, f, f, f, f, f]);
}

#[test]
fn a_rectangle_is_clipped_to_the_image() {
    let mut c = blank(3, 3);
    fill_rect(&mut c, -5, -5, 7, 7, GREEN);
    let (f, t) = (false, true);
    assert_eq!(painted(c, GREEN), [t, t, f, t, t, f, f, f, f]);
    let mut c = blank(2, 2);
    fill_rect(&mut c, i64::MIN, i64::MIN, i64::MAX, i64::MAX, BLUE);
    assert_eq!(painted(c, BLUE), [f; 4]);
    let mut c = blank(2, 2);
    fill_rect(&mut c, -1, -1, i64::MAX, i64::MAX, CYAN);
    assert_eq!(painted(c, CYAN), [t; 4]);
    let mut c = blank(2, 2);
    fill_rect(&mut c, 1, 1, -1, 5, CYAN);
    assert_eq!(painted(c, CYAN), [f; 4]);
}

#[test]
fn an_image_needs_bytes_for_its_pixels() {
    assert!(Canvas::new(2, 2, vec![0; 11]).is_none());
    let c = Canvas::new(2, 2, vec![0; 13]).unwrap();
    assert_eq!((c.width(), c.height()), (2, 2));
    assert_eq!(c.into_bytes().len(), 13);
}
