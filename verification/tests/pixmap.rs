use soft_ratatui::RgbPixmap;

#[test]
fn new_pixmap_is_black() {
    let pm = RgbPixmap::new(3, 2);
    assert_eq!(pm.width(), 3);
    assert_eq!(pm.height(), 2);
    assert_eq!(pm.data().len(), 3 * 2 * 3);
    for x in 0..3 {
        for y in 0..2 {
            assert_eq!(pm.get_pixel(x, y), [0, 0, 0]);
        }
    }
}

#[test]
fn put_pixel_changes_only_its_target() {
    let mut pm = RgbPixmap::new(4, 4);
    pm.put_pixel(2, 1, [9, 8, 7]);
    assert_eq!(pm.get_pixel(2, 1), [9, 8, 7]);
    for x in 0..4 {
        for y in 0..4 {
            if (x, y) != (2, 1) {
                assert_eq!(pm.get_pixel(x, y), [0, 0, 0]);
            }
        }
    }
}

#[test]
fn fill_overwrites_every_pixel() {
    let mut pm = RgbPixmap::new(5, 3);
    pm.put_pixel(0, 0, [1, 1, 1]);
    pm.fill([10, 20, 30]);
    for x in 0..5 {
        for y in 0..3 {
            assert_eq!(pm.get_pixel(x, y), [10, 20, 30]);
        }
    }
}

#[test]
fn to_rgba_forces_opaque_alpha() {
    let mut pm = RgbPixmap::new(2, 1);
    pm.put_pixel(0, 0, [1, 2, 3]);
    pm.put_pixel(1, 0, [4, 5, 6]);
    let rgba = pm.to_rgba();
    assert_eq!(rgba, vec![1, 2, 3, 255, 4, 5, 6, 255]);
}

#[test]
fn data_is_row_major_rgb() {
    let mut pm = RgbPixmap::new(2, 2);
    pm.put_pixel(1, 0, [7, 7, 7]);
    pm.put_pixel(0, 1, [9, 9, 9]);
    let d = pm.data();
    assert_eq!(&d[3..6], &[7, 7, 7]);
    assert_eq!(&d[6..9], &[9, 9, 9]);
}
