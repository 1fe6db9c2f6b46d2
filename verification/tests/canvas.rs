use rtiow::canvas::Canvas;

#[test]
fn a_new_canvas_is_black() {
    let canvas = Canvas::new(4, 3);
    assert_eq!(canvas.width(), 4);
    assert_eq!(canvas.height(), 3);
    for y in 0..3 {
        for x in 0..4 {
            assert_eq!(canvas.get_pixel(x, y), (0, 0, 0));
        }
    }
}

#[test]
fn a_canvas_may_be_empty() {
    let canvas = Canvas::new(0, 0);
    assert_eq!(canvas.width(), 0);
    assert_eq!(canvas.height(), 0);
    assert!(canvas.image().bytes.is_empty());
}

#[test]
fn every_byte_is_stored_as_it_is() {
    let mut canvas = Canvas::new(2, 2);
    for n in 0..=255u8 {
        canvas.set_pixel(1, 0, n, 255 - n, n / 2);
        assert_eq!(canvas.get_pixel(1, 0), (n, 255 - n, n / 2));
    }
}

#[test]
fn a_pixel_is_not_handed_back_from_the_old_one() {
    let mut canvas = Canvas::new(2, 2);
    canvas.set_pixel(0, 1, 10, 20, 30);
    assert_eq!(canvas.get_pixel(0, 1), (10, 20, 30));
    canvas.set_pixel(0, 1, 200, 100, 50);
    assert_eq!(canvas.get_pixel(0, 1), (200, 100, 50));
}

#[test]
fn storing_a_pixel_leaves_the_others() {
    let mut canvas = Canvas::new(3, 2);
    canvas.set_pixel(2, 1, 9, 8, 7);
    for y in 0..2 {
        for x in 0..3 {
            let expected = if (x, y) == (2, 1) { (9, 8, 7) } else { (0, 0, 0) };
            assert_eq!(canvas.get_pixel(x, y), expected);
        }
    }
    assert_eq!(canvas.width(), 3);
    assert_eq!(canvas.height(), 2);
}

#[test]
fn pixels_stand_row_after_row() {
    let mut canvas = Canvas::new(3, 2);
    canvas.set_pixel(1, 1, 11, 22, 33);
    let image = canvas.image();
    assert_eq!(image.width, 3);
    assert_eq!(image.height, 2);
    assert_eq!(image.bytes.len(), 3 * 2 * 4);
    let at = (1 * 3 + 1) * 4;
    assert_eq!(&image.bytes[at..at + 4], &[11, 22, 33, 255]);
    assert_eq!(&image.bytes[0..4], &[0, 0, 0, 255]);
}

#[test]
fn the_largest_row_holds_its_last_pixel() {
    let mut canvas = Canvas::new(0xFFFF, 1);
    canvas.set_pixel(0xFFFE, 0, 1, 2, 3);
    assert_eq!(canvas.get_pixel(0xFFFE, 0), (1, 2, 3));
    assert_eq!(canvas.get_pixel(0xFFFD, 0), (0, 0, 0));
}
