use libretrogd::Bitmap;

#[test]
pub fn set_and_get_pixel() {
    let mut bmp = Bitmap::new(8, 8).unwrap();
    let mut expected = [0u8; 64];

    assert_eq!(None, bmp.get_pixel(-1, -1));

    assert_eq!(0, bmp.get_pixel(0, 0).unwrap());
    bmp.set_pixel(0, 0, 7);
    assert_eq!(7, bmp.get_pixel(0, 0).unwrap());

    expected[0] = 7;
    assert_eq!(bmp.pixels(), &expected);

    assert_eq!(0, bmp.get_pixel(2, 4).unwrap());
    bmp.set_pixel(2, 4, 5);
    assert_eq!(5, bmp.get_pixel(2, 4).unwrap());

    expected[4 * 8 + 2] = 5;
    assert_eq!(bmp.pixels(), &expected);
}

#[test]
pub fn set_and_get_pixel_unchecked() {
    let mut bmp = Bitmap::new(8, 8).unwrap();
    let mut expected = [0u8; 64];

    assert_eq!(0, bmp.get_pixel_unchecked(0, 0));
    bmp.set_pixel_unchecked(0, 0, 7);
    assert_eq!(7, bmp.get_pixel_unchecked(0, 0));

    expected[0] = 7;
    assert_eq!(bmp.pixels(), &expected);

    assert_eq!(0, bmp.get_pixel_unchecked(2, 4));
    bmp.set_pixel_unchecked(2, 4, 5);
    assert_eq!(5, bmp.get_pixel_unchecked(2, 4));

    expected[4 * 8 + 2] = 5;
    assert_eq!(bmp.pixels(), &expected);
}
