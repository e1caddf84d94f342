use libretrogd::{Bitmap, BitmapError, Rect};

#[test]
fn a_new_bitmap_is_zeroed_and_fully_visible() {
    let bmp = Bitmap::new(5, 3).unwrap();
    assert_eq!(bmp.width(), 5);
    assert_eq!(bmp.height(), 3);
    assert_eq!(bmp.right(), 4);
    assert_eq!(bmp.bottom(), 2);
    assert_eq!(*bmp.clip_region(), Rect::new(0, 0, 5, 3));
    assert_eq!(bmp.full_bounds(), Rect::new(0, 0, 5, 3));
    assert_eq!(bmp.pixels().len(), 15);
    assert!(bmp.pixels().iter().all(|&p| p == 0));
}

#[test]
fn a_bitmap_needs_two_positive_sides() {
    assert_eq!(Bitmap::new(0, 8).err(), Some(BitmapError::InvalidDimensions));
    assert_eq!(Bitmap::new(8, 0).err(), Some(BitmapError::InvalidDimensions));
    assert_eq!(Bitmap::new(0, 0).err(), Some(BitmapError::InvalidDimensions));
    assert!(Bitmap::new(1, 1).is_ok());
}

#[test]
fn a_bitmap_side_has_to_be_an_i32_coordinate() {
    assert_eq!(Bitmap::new(0x8000_0000, 1).err(), Some(BitmapError::InvalidDimensions));
    assert_eq!(Bitmap::new(1, u32::MAX).err(), Some(BitmapError::InvalidDimensions));
}

#[test]
fn offsets_run_row_by_row() {
    let bmp = Bitmap::new(8, 4).unwrap();
    assert_eq!(bmp.get_offset_to_xy(0, 0), Some(0));
    assert_eq!(bmp.get_offset_to_xy(7, 0), Some(7));
    assert_eq!(bmp.get_offset_to_xy(0, 1), Some(8));
    assert_eq!(bmp.get_offset_to_xy(3, 2), Some(19));
    assert_eq!(bmp.get_offset_to_xy(7, 3), Some(31));
    assert_eq!(bmp.get_offset_to_xy_unchecked(3, 2), 19);
}

#[test]
fn offsets_outside_the_clip_region_are_refused() {
    let mut bmp = Bitmap::new(8, 4).unwrap();
    assert_eq!(bmp.get_offset_to_xy(-1, 0), None);
    assert_eq!(bmp.get_offset_to_xy(0, -1), None);
    assert_eq!(bmp.get_offset_to_xy(8, 0), None);
    assert_eq!(bmp.get_offset_to_xy(0, 4), None);

    bmp.set_clip_region(&Rect::new(2, 1, 3, 2));
    assert_eq!(bmp.get_offset_to_xy(1, 1), None);
    assert_eq!(bmp.get_offset_to_xy(2, 1), Some(10));
    assert_eq!(bmp.get_offset_to_xy(4, 2), Some(20));
    assert_eq!(bmp.get_offset_to_xy(5, 2), None);
    assert_eq!(bmp.get_offset_to_xy(4, 3), None);
    // The unchecked offset does not look at the clip region.
    assert_eq!(bmp.get_offset_to_xy_unchecked(5, 3), 29);
}

#[test]
fn visibility_follows_the_clip_region() {
    let mut bmp = Bitmap::new(8, 8).unwrap();
    assert!(bmp.is_xy_visible(0, 0));
    assert!(bmp.is_xy_visible(7, 7));
    assert!(!bmp.is_xy_visible(8, 7));
    assert!(!bmp.is_xy_visible(-1, 0));

    bmp.set_clip_region(&Rect::new(2, 3, 4, 2));
    assert!(!bmp.is_xy_visible(0, 0));
    assert!(bmp.is_xy_visible(2, 3));
    assert!(bmp.is_xy_visible(5, 4));
    assert!(!bmp.is_xy_visible(6, 4));
    assert!(!bmp.is_xy_visible(5, 5));
}

#[test]
fn the_clip_region_is_cut_to_the_bitmap() {
    let mut bmp = Bitmap::new(8, 8).unwrap();
    bmp.set_clip_region(&Rect::new(-4, 5, 10, 10));
    assert_eq!(*bmp.clip_region(), Rect::new(0, 5, 6, 3));

    bmp.reset_clip_region();
    assert_eq!(*bmp.clip_region(), Rect::new(0, 0, 8, 8));
}

#[test]
fn a_clip_region_off_the_bitmap_hides_everything() {
    let mut bmp = Bitmap::new(8, 8).unwrap();
    bmp.set_clip_region(&Rect::new(20, 20, 5, 5));
    assert_eq!(*bmp.clip_region(), Rect::new(0, 0, 0, 0));
    assert!(!bmp.is_xy_visible(0, 0));
    bmp.set_pixel(0, 0, 9);
    bmp.filled_rect(0, 0, 7, 7, 9);
    assert!(bmp.pixels().iter().all(|&p| p == 0));
}

#[test]
fn clear_fills_every_pixel_whatever_the_clip_region() {
    let mut bmp = Bitmap::new(6, 5).unwrap();
    bmp.set_clip_region(&Rect::new(1, 1, 2, 2));
    bmp.clear(13);
    assert_eq!(bmp.pixels().len(), 30);
    assert!(bmp.pixels().iter().all(|&p| p == 13));
    assert_eq!(*bmp.clip_region(), Rect::new(1, 1, 2, 2));
}

#[test]
fn pixels_at_starts_at_the_position() {
    let mut bmp = Bitmap::new(4, 3).unwrap();
    bmp.set_pixel(1, 1, 7);
    bmp.set_pixel(3, 2, 9);

    let tail = bmp.pixels_at(1, 1).unwrap();
    assert_eq!(tail.len(), 7);
    assert_eq!(tail[0], 7);
    assert_eq!(tail[6], 9);

    assert_eq!(bmp.pixels_at(3, 2).unwrap(), &[9]);
    assert!(bmp.pixels_at(4, 2).is_none());
    assert!(bmp.pixels_at(-1, 0).is_none());

    assert_eq!(bmp.pixels_at_unchecked(0, 0).len(), 12);
    assert_eq!(bmp.pixels_at_unchecked(2, 2), &[0, 9]);
}

#[test]
fn offset_accessors_reach_the_buffer() {
    let mut bmp = Bitmap::new(4, 3).unwrap();
    bmp.set_pixel_at_offset(5, 21);
    assert_eq!(bmp.pixel_at_offset(5), 21);
    assert_eq!(bmp.get_pixel(1, 1), Some(21));
    assert_eq!(bmp.pixel_at_offset(4), 0);
}

#[test]
fn set_pixel_outside_the_clip_region_changes_nothing() {
    let mut bmp = Bitmap::new(8, 8).unwrap();
    bmp.set_clip_region(&Rect::new(2, 2, 4, 4));
    bmp.set_pixel(1, 2, 5);
    bmp.set_pixel(6, 2, 5);
    bmp.set_pixel(2, 1, 5);
    bmp.set_pixel(2, 6, 5);
    bmp.set_pixel(-1, -1, 5);
    bmp.set_pixel(i32::MAX, i32::MIN, 5);
    assert!(bmp.pixels().iter().all(|&p| p == 0));

    bmp.set_pixel(2, 2, 5);
    bmp.set_pixel(5, 5, 6);
    assert_eq!(bmp.get_pixel(2, 2), Some(5));
    assert_eq!(bmp.get_pixel(5, 5), Some(6));
    assert_eq!(bmp.pixels().iter().filter(|&&p| p != 0).count(), 2);
}

#[test]
fn get_pixel_outside_the_clip_region_is_none() {
    let mut bmp = Bitmap::new(8, 8).unwrap();
    bmp.set_pixel(1, 1, 4);
    bmp.set_clip_region(&Rect::new(2, 2, 4, 4));
    assert_eq!(bmp.get_pixel(1, 1), None);
    assert_eq!(bmp.get_pixel_unchecked(1, 1), 4);
    assert_eq!(bmp.get_pixel(2, 2), Some(0));
}
