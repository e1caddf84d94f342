use libretrogd::{clip_blit, Rect};

#[test]
pub fn clip_blit_regions() {
    let dest = Rect::new(0, 0, 320, 240);

    let mut src: Rect;
    let mut x: i32;
    let mut y: i32;

    src = Rect::new(0, 0, 16, 16);
    x = 10;
    y = 10;
    assert!(clip_blit(&dest, &mut src, &mut x, &mut y));
    assert_eq!(src, Rect::new(0, 0, 16, 16));
    assert_eq!(10, x);
    assert_eq!(10, y);

    // left edge

    src = Rect::new(0, 0, 16, 16);
    x = 0;
    y = 10;
    assert!(clip_blit(&dest, &mut src, &mut x, &mut y));
    assert_eq!(src, Rect::new(0, 0, 16, 16));
    assert_eq!(0, x);
    assert_eq!(10, y);

    src = Rect::new(0, 0, 16, 16);
    x = -5;
    y = 10;
    assert!(clip_blit(&dest, &mut src, &mut x, &mut y));
    assert_eq!(src, Rect::new(5, 0, 11, 16));
    assert_eq!(0, x);
    assert_eq!(10, y);

    src = Rect::new(0, 0, 16, 16);
    x = -16;
    y = 10;
    assert!(!clip_blit(&dest, &mut src, &mut x, &mut y));

    // right edge

    src = Rect::new(0, 0, 16, 16);
    x = 304;
    y = 10;
    assert!(clip_blit(&dest, &mut src, &mut x, &mut y));
    assert_eq!(src, Rect::new(0, 0, 16, 16));
    assert_eq!(304, x);
    assert_eq!(10, y);

    src = Rect::new(0, 0, 16, 16);
    x = 310;
    y = 10;
    assert!(clip_blit(&dest, &mut src, &mut x, &mut y));
    assert_eq!(src, Rect::new(0, 0, 10, 16));
    assert_eq!(310, x);
    assert_eq!(10, y);

    src = Rect::new(0, 0, 16, 16);
    x = 320;
    y = 10;
    assert!(!clip_blit(&dest, &mut src, &mut x, &mut y));

    // top edge

    src = Rect::new(0, 0, 16, 16);
    x = 10;
    y = 0;
    assert!(clip_blit(&dest, &mut src, &mut x, &mut y));
    assert_eq!(src, Rect::new(0, 0, 16, 16));
    assert_eq!(10, x);
    assert_eq!(0, y);

    src = Rect::new(0, 0, 16, 16);
    x = 10;
    y = -5;
    assert!(clip_blit(&dest, &mut src, &mut x, &mut y));
    assert_eq!(src, Rect::new(0, 5, 16, 11));
    assert_eq!(10, x);
    assert_eq!(0, y);

    src = Rect::new(0, 0, 16, 16);
    x = 10;
    y = -16;
    assert!(!clip_blit(&dest, &mut src, &mut x, &mut y));

    // bottom edge

    src = Rect::new(0, 0, 16, 16);
    x = 10;
    y = 224;
    assert!(clip_blit(&dest, &mut src, &mut x, &mut y));
    assert_eq!(src, Rect::new(0, 0, 16, 16));
    assert_eq!(10, x);
    assert_eq!(224, y);

    src = Rect::new(0, 0, 16, 16);
    x = 10;
    y = 229;
    assert!(clip_blit(&dest, &mut src, &mut x, &mut y));
    assert_eq!(src, Rect::new(0, 0, 16, 11));
    assert_eq!(10, x);
    assert_eq!(229, y);

    src = Rect::new(0, 0, 16, 16);
    x = 10;
    y = 240;
    assert!(!clip_blit(&dest, &mut src, &mut x, &mut y));

    src = Rect::new(16, 16, 16, 16);
    x = -1;
    y = 112;
    assert!(clip_blit(&dest, &mut src, &mut x, &mut y));
    assert_eq!(src, Rect::new(17, 16, 15, 16));
    assert_eq!(0, x);
    assert_eq!(112, y);
}

#[test]
pub fn clip_blit_regions_large_source() {
    let dest = Rect::new(0, 0, 64, 64);

    let mut src: Rect;
    let mut x: i32;
    let mut y: i32;

    src = Rect::new(0, 0, 128, 128);
    x = 0;
    y = 0;
    assert!(clip_blit(&dest, &mut src, &mut x, &mut y));
    assert_eq!(src, Rect::new(0, 0, 64, 64));
    assert_eq!(0, x);
    assert_eq!(0, y);

    src = Rect::new(0, 0, 128, 128);
    x = -16;
    y = -24;
    assert!(clip_blit(&dest, &mut src, &mut x, &mut y));
    assert_eq!(src, Rect::new(16, 24, 64, 64));
    assert_eq!(0, x);
    assert_eq!(0, y);

    src = Rect::new(0, 0, 32, 128);
    x = 10;
    y = -20;
    assert!(clip_blit(&dest, &mut src, &mut x, &mut y));
    assert_eq!(src, Rect::new(0, 20, 32, 64));
    assert_eq!(10, x);
    assert_eq!(0, y);

    src = Rect::new(0, 0, 128, 32);
    x = -20;
    y = 10;
    assert!(clip_blit(&dest, &mut src, &mut x, &mut y));
    assert_eq!(src, Rect::new(20, 0, 64, 32));
    assert_eq!(0, x);
    assert_eq!(10, y);
}

fn clipped(clip: Rect, src: Rect, x: i32, y: i32) -> Option<(Rect, i32, i32)> {
    let mut region = src;
    let mut dest_x = x;
    let mut dest_y = y;
    if clip_blit(&clip, &mut region, &mut dest_x, &mut dest_y) {
        Some((region, dest_x, dest_y))
    } else {
        None
    }
}

#[test]
fn a_region_inside_the_clip_is_left_alone() {
    let clip = Rect::new(0, 0, 320, 240);
    for (x, y, w, h) in [(0, 0, 320, 240), (0, 0, 1, 1), (319, 239, 1, 1), (100, 50, 20, 30)] {
        let src = Rect::new(7, 9, w, h);
        assert_eq!(clipped(clip, src, x, y), Some((src, x, y)));
    }
}

#[test]
fn a_region_left_of_the_clip_is_dropped() {
    let clip = Rect::new(0, 0, 320, 240);
    for x in [-16, -17, -100, i32::MIN] {
        assert_eq!(clipped(clip, Rect::new(0, 0, 16, 16), x, 10), None);
    }
    let clip = Rect::new(40, 0, 100, 100);
    for x in [24, 0, -50] {
        assert_eq!(clipped(clip, Rect::new(0, 0, 16, 16), x, 10), None);
    }
    assert!(clipped(clip, Rect::new(0, 0, 16, 16), 25, 10).is_some());
}

#[test]
fn a_region_above_the_clip_is_dropped() {
    let clip = Rect::new(0, 30, 100, 50);
    for y in [14, 0, -50, i32::MIN] {
        assert_eq!(clipped(clip, Rect::new(0, 0, 16, 16), 10, y), None);
    }
}

#[test]
fn clipping_on_the_left_moves_source_and_destination_alike() {
    let clip = Rect::new(0, 0, 320, 240);
    assert_eq!(
        clipped(clip, Rect::new(0, 0, 16, 16), -5, 10),
        Some((Rect::new(5, 0, 11, 16), 0, 10))
    );
    assert_eq!(
        clipped(clip, Rect::new(32, 48, 16, 16), -15, -15),
        Some((Rect::new(47, 63, 1, 1), 0, 0))
    );
}

#[test]
fn clipping_on_the_right_keeps_the_destination() {
    let clip = Rect::new(0, 0, 320, 240);
    assert_eq!(
        clipped(clip, Rect::new(0, 0, 16, 16), 310, 10),
        Some((Rect::new(0, 0, 10, 16), 310, 10))
    );
    assert_eq!(
        clipped(clip, Rect::new(3, 4, 16, 16), 319, 239),
        Some((Rect::new(3, 4, 1, 1), 319, 239))
    );
}

#[test]
fn a_source_larger_than_the_clip_is_cut_on_both_sides() {
    let clip = Rect::new(0, 0, 64, 64);
    assert_eq!(
        clipped(clip, Rect::new(0, 0, 128, 128), -16, -24),
        Some((Rect::new(16, 24, 64, 64), 0, 0))
    );
}

#[test]
fn an_empty_source_region_is_dropped() {
    let clip = Rect::new(0, 0, 320, 240);
    assert_eq!(clipped(clip, Rect::new(0, 0, 0, 16), 10, 10), None);
    assert_eq!(clipped(clip, Rect::new(0, 0, 16, 0), 10, 10), None);
}

#[test]
fn a_refused_transfer_changes_nothing() {
    let clip = Rect::new(0, 0, 320, 240);
    let mut src = Rect::new(0, 0, 16, 16);
    let mut x = -5;
    let mut y = 240;
    assert!(!clip_blit(&clip, &mut src, &mut x, &mut y));
    assert_eq!(src, Rect::new(0, 0, 16, 16));
    assert_eq!(x, -5);
    assert_eq!(y, 240);
}

#[test]
fn the_right_edge_is_measured_by_the_clip_extent() {
    // The clip rectangle starts at column 10 and is 20 wide: a region that
    // ends beyond column 20 is cut there.
    let clip = Rect::new(10, 0, 20, 20);
    assert_eq!(
        clipped(clip, Rect::new(0, 0, 16, 16), 12, 0),
        Some((Rect::new(0, 0, 8, 16), 12, 0))
    );
    // From column 20 on nothing is left, though the clip reaches column 29.
    assert_eq!(clipped(clip, Rect::new(0, 0, 16, 16), 25, 0), None);
    assert_eq!(clipped(clip, Rect::new(0, 0, 16, 16), 20, 0), None);
    assert_eq!(
        clipped(clip, Rect::new(0, 0, 16, 16), 19, 0),
        Some((Rect::new(0, 0, 1, 16), 19, 0))
    );
}

#[test]
fn a_clip_without_extent_lets_nothing_through() {
    let clip = Rect::new(0, 0, 0, 0);
    assert_eq!(clipped(clip, Rect::new(0, 0, 16, 16), 0, 0), None);
    assert_eq!(clipped(clip, Rect::new(0, 0, 16, 16), -5, -5), None);
}

#[test]
fn wide_regions_do_not_overflow() {
    let clip = Rect::new(0, 0, 100, 100);
    assert_eq!(
        clipped(clip, Rect::new(0, 0, u32::MAX / 2, 10), -1000, 0),
        Some((Rect::new(1000, 0, 100, 10), 0, 0))
    );
    assert_eq!(clipped(clip, Rect::new(0, 0, 10, 10), i32::MAX, i32::MAX), None);
}
