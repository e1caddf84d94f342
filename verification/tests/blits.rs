use libretrogd::{Bitmap, BlitMethod, Rect};

/// A 4 by 3 source whose pixel at `(x, y)` holds `10 * (y + 1) + x + 1`.
fn numbered_source() -> Bitmap {
    let mut src = Bitmap::new(4, 3).unwrap();
    for y in 0..3 {
        for x in 0..4 {
            src.set_pixel(x, y, (10 * (y + 1) + x + 1) as u8);
        }
    }
    src
}

/// Checks every pixel of `bmp`: those listed hold the listed colour, all
/// others hold `background`.
fn assert_pixels(bmp: &Bitmap, background: u8, marked: &[(i32, i32, u8)]) {
    for y in 0..bmp.height() as i32 {
        for x in 0..bmp.width() as i32 {
            let expected = marked
                .iter()
                .find(|m| m.0 == x && m.1 == y)
                .map(|m| m.2)
                .unwrap_or(background);
            assert_eq!(bmp.get_pixel_unchecked(x, y), expected, "at ({}, {})", x, y);
        }
    }
}

fn whole(src: &Bitmap) -> Rect {
    Rect::new(0, 0, src.width(), src.height())
}

#[test]
fn solid_blit_copies_the_source_bytes() {
    let src = numbered_source();
    let mut dest = Bitmap::new(8, 6).unwrap();
    dest.clear(99);
    dest.solid_blit(&src, &whole(&src), 2, 1);
    assert_pixels(
        &dest,
        99,
        &[
            (2, 1, 11), (3, 1, 12), (4, 1, 13), (5, 1, 14),
            (2, 2, 21), (3, 2, 22), (4, 2, 23), (5, 2, 24),
            (2, 3, 31), (3, 3, 32), (4, 3, 33), (5, 3, 34),
        ],
    );
}

#[test]
fn solid_blit_of_a_part_of_the_source() {
    let src = numbered_source();
    let mut dest = Bitmap::new(8, 6).unwrap();
    dest.solid_blit(&src, &Rect::new(1, 1, 2, 2), 6, 4);
    assert_pixels(&dest, 0, &[(6, 4, 22), (7, 4, 23), (6, 5, 32), (7, 5, 33)]);
}

#[test]
fn solid_blit_of_an_empty_region_changes_nothing() {
    let src = numbered_source();
    let mut dest = Bitmap::new(8, 6).unwrap();
    dest.solid_blit(&src, &Rect::new(1, 1, 0, 2), 3, 3);
    dest.solid_blit(&src, &Rect::new(1, 1, 2, 0), 3, 3);
    assert_pixels(&dest, 0, &[]);
}

#[test]
fn transparent_blit_skips_the_transparent_colour() {
    let mut src = Bitmap::new(3, 2).unwrap();
    src.set_pixel(0, 0, 5);
    src.set_pixel(2, 0, 7);
    src.set_pixel(1, 1, 5);
    let mut dest = Bitmap::new(5, 4).unwrap();
    dest.clear(50);
    dest.transparent_blit(&src, &whole(&src), 1, 1, 5);
    // Zero is an ordinary colour here, 5 is skipped.
    assert_pixels(&dest, 50, &[(2, 1, 0), (3, 1, 7), (1, 2, 0), (3, 2, 0)]);
}

#[test]
fn palette_offset_wraps_round_at_256() {
    let mut src = Bitmap::new(3, 1).unwrap();
    src.set_pixel(0, 0, 0);
    src.set_pixel(1, 0, 200);
    src.set_pixel(2, 0, 255);
    let mut dest = Bitmap::new(3, 1).unwrap();
    dest.solid_palette_offset_blit(&src, &whole(&src), 0, 0, 100);
    assert_eq!(dest.pixels(), &[100, 44, 99]);

    dest.solid_palette_offset_blit(&src, &whole(&src), 0, 0, 0);
    assert_eq!(dest.pixels(), &[0, 200, 255]);

    dest.solid_palette_offset_blit(&src, &whole(&src), 0, 0, 255);
    assert_eq!(dest.pixels(), &[255, 199, 254]);
}

#[test]
fn transparent_palette_offset_only_moves_drawn_pixels() {
    let mut src = Bitmap::new(3, 1).unwrap();
    src.set_pixel(0, 0, 250);
    src.set_pixel(1, 0, 6);
    src.set_pixel(2, 0, 1);
    let mut dest = Bitmap::new(3, 1).unwrap();
    dest.clear(77);
    // The test for transparency looks at the source colour, not at the
    // colour after the offset.
    dest.transparent_palette_offset_blit(&src, &whole(&src), 0, 0, 6, 10);
    assert_eq!(dest.pixels(), &[4, 77, 11]);
}

#[test]
fn single_colour_blit_draws_a_silhouette() {
    let mut src = Bitmap::new(3, 2).unwrap();
    src.set_pixel(0, 0, 1);
    src.set_pixel(1, 0, 2);
    src.set_pixel(2, 1, 3);
    let mut dest = Bitmap::new(3, 2).unwrap();
    dest.clear(8);
    dest.transparent_single_color_blit(&src, &whole(&src), 0, 0, 0, 200);
    assert_eq!(dest.pixels(), &[200, 200, 8, 8, 8, 200]);
}

#[test]
fn horizontal_flip_reverses_the_columns() {
    let src = numbered_source();
    let mut dest = Bitmap::new(4, 3).unwrap();
    dest.solid_flipped_blit(&src, &whole(&src), 0, 0, true, false);
    assert_eq!(dest.pixels(), &[14, 13, 12, 11, 24, 23, 22, 21, 34, 33, 32, 31]);
}

#[test]
fn vertical_flip_reverses_the_rows() {
    let src = numbered_source();
    let mut dest = Bitmap::new(4, 3).unwrap();
    dest.solid_flipped_blit(&src, &whole(&src), 0, 0, false, true);
    assert_eq!(dest.pixels(), &[31, 32, 33, 34, 21, 22, 23, 24, 11, 12, 13, 14]);
}

#[test]
fn both_flips_turn_the_block_by_half_a_turn() {
    let src = numbered_source();
    let mut dest = Bitmap::new(4, 3).unwrap();
    dest.solid_flipped_blit(&src, &whole(&src), 0, 0, true, true);
    assert_eq!(dest.pixels(), &[34, 33, 32, 31, 24, 23, 22, 21, 14, 13, 12, 11]);
}

#[test]
fn no_flip_is_a_plain_copy() {
    let src = numbered_source();
    let mut dest = Bitmap::new(4, 3).unwrap();
    dest.solid_flipped_blit(&src, &whole(&src), 0, 0, false, false);
    assert_eq!(dest.pixels(), src.pixels());
}

#[test]
fn a_flipped_part_is_mirrored_inside_the_part() {
    let src = numbered_source();
    let mut dest = Bitmap::new(6, 4).unwrap();
    dest.solid_flipped_blit(&src, &Rect::new(1, 0, 3, 2), 2, 1, true, true);
    assert_pixels(
        &dest,
        0,
        &[(2, 1, 24), (3, 1, 23), (4, 1, 22), (2, 2, 14), (3, 2, 13), (4, 2, 12)],
    );
}

#[test]
fn a_flipped_blit_equals_a_plain_blit_of_the_mirrored_source() {
    let src = numbered_source();
    for (horizontal, vertical) in [(false, false), (true, false), (false, true), (true, true)] {
        let mut mirrored = Bitmap::new(4, 3).unwrap();
        for y in 0..3 {
            for x in 0..4 {
                let from_x = if horizontal { 3 - x } else { x };
                let from_y = if vertical { 2 - y } else { y };
                mirrored.set_pixel(x, y, src.get_pixel(from_x, from_y).unwrap());
            }
        }
        let mut flipped = Bitmap::new(7, 5).unwrap();
        flipped.solid_flipped_blit(&src, &whole(&src), 2, 1, horizontal, vertical);
        let mut plain = Bitmap::new(7, 5).unwrap();
        plain.solid_blit(&mirrored, &whole(&mirrored), 2, 1);
        assert_eq!(flipped.pixels(), plain.pixels());
    }
}

#[test]
fn the_flipped_variants_combine_flip_and_colour_rule() {
    let mut src = Bitmap::new(3, 1).unwrap();
    src.set_pixel(0, 0, 1);
    src.set_pixel(1, 0, 0);
    src.set_pixel(2, 0, 250);

    let mut dest = Bitmap::new(3, 1).unwrap();
    dest.clear(9);
    dest.transparent_flipped_blit(&src, &whole(&src), 0, 0, 0, true, false);
    assert_eq!(dest.pixels(), &[250, 9, 1]);

    dest.clear(9);
    dest.solid_flipped_palette_offset_blit(&src, &whole(&src), 0, 0, true, false, 10);
    assert_eq!(dest.pixels(), &[4, 10, 11]);

    dest.clear(9);
    dest.transparent_flipped_palette_offset_blit(&src, &whole(&src), 0, 0, 0, true, false, 10);
    assert_eq!(dest.pixels(), &[4, 9, 11]);

    dest.clear(9);
    dest.transparent_flipped_single_color_blit(&src, &whole(&src), 0, 0, 0, true, false, 77);
    assert_eq!(dest.pixels(), &[77, 9, 77]);
}

#[test]
fn the_walk_through_the_source_for_each_mirroring() {
    let dest = Bitmap::new(8, 8).unwrap();
    let src = Bitmap::new(10, 6).unwrap();
    let region = Rect::new(2, 1, 4, 3);
    assert_eq!(dest.get_flipped_blit_properties(&src, &region, false, false), (1, 2, 1, 6));
    assert_eq!(dest.get_flipped_blit_properties(&src, &region, true, false), (-1, 5, 1, 14));
    assert_eq!(dest.get_flipped_blit_properties(&src, &region, false, true), (1, 2, 3, -14));
    assert_eq!(dest.get_flipped_blit_properties(&src, &region, true, true), (-1, 5, 3, -6));
}

#[test]
fn blit_region_unchecked_follows_the_method() {
    let mut src = Bitmap::new(2, 1).unwrap();
    src.set_pixel(0, 0, 3);
    src.set_pixel(1, 0, 250);
    let region = whole(&src);
    let cases: [(BlitMethod, [u8; 2]); 10] = [
        (BlitMethod::Solid, [3, 250]),
        (BlitMethod::SolidFlipped { horizontal_flip: true, vertical_flip: false }, [250, 3]),
        (BlitMethod::Transparent(3), [9, 250]),
        (
            BlitMethod::TransparentFlipped {
                transparent_color: 3,
                horizontal_flip: true,
                vertical_flip: true,
            },
            [250, 9],
        ),
        (BlitMethod::TransparentSingle { transparent_color: 250, draw_color: 1 }, [1, 9]),
        (
            BlitMethod::TransparentFlippedSingle {
                transparent_color: 250,
                horizontal_flip: true,
                vertical_flip: false,
                draw_color: 1,
            },
            [9, 1],
        ),
        (BlitMethod::SolidOffset(6), [9, 0]),
        (
            BlitMethod::SolidFlippedOffset {
                horizontal_flip: true,
                vertical_flip: false,
                offset: 7,
            },
            [1, 10],
        ),
        (BlitMethod::TransparentOffset { transparent_color: 3, offset: 8 }, [9, 2]),
        (
            BlitMethod::TransparentFlippedOffset {
                transparent_color: 3,
                horizontal_flip: true,
                vertical_flip: false,
                offset: 8,
            },
            [2, 9],
        ),
    ];
    for (method, expected) in cases {
        let mut dest = Bitmap::new(2, 1).unwrap();
        dest.clear(9);
        dest.blit_region_unchecked(method, &src, &region, 0, 0);
        assert_eq!(dest.pixels(), &expected, "{:?}", method);

        let mut dest = Bitmap::new(2, 1).unwrap();
        dest.clear(9);
        dest.blit_unchecked(method, &src, 0, 0);
        assert_eq!(dest.pixels(), &expected, "{:?}", method);

        assert_eq!(method.transfer(3, 9), expected[if method.horizontal_flip() { 1 } else { 0 }]);
    }
}

#[test]
fn the_methods_say_how_they_mirror() {
    assert!(!BlitMethod::Solid.horizontal_flip());
    assert!(!BlitMethod::Transparent(0).vertical_flip());
    let method = BlitMethod::SolidFlipped { horizontal_flip: true, vertical_flip: false };
    assert!(method.horizontal_flip());
    assert!(!method.vertical_flip());
    let method = BlitMethod::TransparentFlippedOffset {
        transparent_color: 0,
        horizontal_flip: false,
        vertical_flip: true,
        offset: 1,
    };
    assert!(!method.horizontal_flip());
    assert!(method.vertical_flip());
}

#[test]
fn blit_clips_on_the_left_and_top() {
    let src = numbered_source();
    let mut dest = Bitmap::new(6, 5).unwrap();
    dest.blit(BlitMethod::Solid, &src, -2, -1);
    assert_pixels(&dest, 0, &[(0, 0, 23), (1, 0, 24), (0, 1, 33), (1, 1, 34)]);
}

#[test]
fn blit_clips_on_the_right_and_bottom() {
    let src = numbered_source();
    let mut dest = Bitmap::new(6, 5).unwrap();
    dest.blit(BlitMethod::Solid, &src, 4, 3);
    assert_pixels(&dest, 0, &[(4, 3, 11), (5, 3, 12), (4, 4, 21), (5, 4, 22)]);
}

#[test]
fn blit_outside_the_destination_draws_nothing() {
    let src = numbered_source();
    let mut dest = Bitmap::new(6, 5).unwrap();
    for (x, y) in [(-4, 0), (6, 0), (0, -3), (0, 5), (100, 100), (i32::MIN, i32::MIN)] {
        dest.blit(BlitMethod::Solid, &src, x, y);
    }
    assert_pixels(&dest, 0, &[]);
}

#[test]
fn blit_of_a_source_larger_than_the_destination() {
    let src = numbered_source();
    let mut dest = Bitmap::new(2, 2).unwrap();
    dest.blit(BlitMethod::Solid, &src, -1, -1);
    assert_eq!(dest.pixels(), &[22, 23, 32, 33]);
}

#[test]
fn blit_region_narrows_the_region_to_the_source() {
    let src = numbered_source();
    let mut dest = Bitmap::new(6, 5).unwrap();
    // The region reaches past the source on the right and at the bottom;
    // what is left of it lands at the destination position.
    dest.blit_region(BlitMethod::Solid, &src, &Rect::new(2, 1, 10, 10), 1, 1);
    assert_pixels(&dest, 0, &[(1, 1, 23), (2, 1, 24), (1, 2, 33), (2, 2, 34)]);

    let mut dest = Bitmap::new(6, 5).unwrap();
    dest.blit_region(BlitMethod::Solid, &src, &Rect::new(4, 0, 2, 2), 1, 1);
    dest.blit_region(BlitMethod::Solid, &src, &Rect::new(0, 0, 0, 0), 1, 1);
    assert_pixels(&dest, 0, &[]);
}

#[test]
fn blit_region_honours_the_source_clip_region() {
    let mut src = numbered_source();
    src.set_clip_region(&Rect::new(1, 1, 2, 1));
    let mut dest = Bitmap::new(6, 5).unwrap();
    dest.blit(BlitMethod::Solid, &src, 0, 0);
    assert_pixels(&dest, 0, &[(0, 0, 22), (1, 0, 23)]);
}

#[test]
fn blit_honours_the_destination_clip_region() {
    let src = numbered_source();
    let mut dest = Bitmap::new(6, 5).unwrap();
    dest.set_clip_region(&Rect::new(0, 0, 3, 2));
    dest.blit(BlitMethod::Solid, &src, 1, 1);
    assert_pixels(&dest, 0, &[(1, 1, 11), (2, 1, 12)]);
}

#[test]
fn a_clipped_flipped_blit_mirrors_what_is_left_of_the_region() {
    let src = numbered_source();
    let mut dest = Bitmap::new(6, 5).unwrap();
    let method = BlitMethod::SolidFlipped { horizontal_flip: true, vertical_flip: false };
    dest.blit(method, &src, -2, 0);
    // Columns 2 and 3 of the source are left, and they are drawn reversed.
    assert_pixels(
        &dest,
        0,
        &[(0, 0, 14), (1, 0, 13), (0, 1, 24), (1, 1, 23), (0, 2, 34), (1, 2, 33)],
    );
}

#[test]
fn blitting_twice_gives_the_same_picture() {
    let mut src = numbered_source();
    src.set_pixel(1, 1, 0);
    let methods = [
        BlitMethod::Solid,
        BlitMethod::Transparent(0),
        BlitMethod::SolidOffset(250),
        BlitMethod::TransparentOffset { transparent_color: 0, offset: 250 },
        BlitMethod::TransparentSingle { transparent_color: 0, draw_color: 11 },
        BlitMethod::TransparentFlippedOffset {
            transparent_color: 0,
            horizontal_flip: true,
            vertical_flip: true,
            offset: 3,
        },
    ];
    for method in methods {
        let mut dest = Bitmap::new(5, 4).unwrap();
        dest.clear(11);
        dest.blit(method, &src, -1, 2);
        let once = dest.pixels().to_vec();
        dest.blit(method, &src, -1, 2);
        assert_eq!(dest.pixels(), &once[..], "{:?}", method);
    }
}

#[test]
fn rotozoom_plot_draws_a_sample_twice() {
    let mut dest = Bitmap::new(4, 2).unwrap();
    dest.rotozoom_plot(1, 1, 200, None, 0);
    assert_pixels(&dest, 0, &[(1, 1, 200), (2, 1, 200)]);

    dest.rotozoom_plot(3, 0, 200, None, 100);
    assert_pixels(&dest, 0, &[(1, 1, 200), (2, 1, 200), (3, 0, 44)]);

    dest.rotozoom_plot(-1, 0, 7, Some(3), 0);
    assert_pixels(&dest, 0, &[(0, 0, 7), (1, 1, 200), (2, 1, 200), (3, 0, 44)]);
}

#[test]
fn rotozoom_plot_skips_a_transparent_sample() {
    let mut dest = Bitmap::new(4, 2).unwrap();
    dest.rotozoom_plot(1, 1, 5, Some(5), 0);
    dest.rotozoom_plot(1, 1, 5, Some(5), 9);
    dest.rotozoom_plot(i32::MAX, 0, 5, None, 0);
    assert_pixels(&dest, 0, &[]);
}

#[test]
fn clip_blit_region_narrows_and_clips() {
    let mut src = numbered_source();
    let mut dest = Bitmap::new(6, 5).unwrap();

    assert_eq!(
        dest.clip_blit_region(&src, &whole(&src), 1, 1),
        Some((Rect::new(0, 0, 4, 3), 1, 1))
    );
    assert_eq!(
        dest.clip_blit_region(&src, &whole(&src), -2, 3),
        Some((Rect::new(2, 0, 2, 2), 0, 3))
    );
    assert_eq!(dest.clip_blit_region(&src, &whole(&src), 6, 0), None);
    assert_eq!(dest.clip_blit_region(&src, &Rect::new(4, 0, 3, 3), 0, 0), None);

    src.set_clip_region(&Rect::new(1, 1, 2, 2));
    dest.set_clip_region(&Rect::new(0, 0, 3, 3));
    // The region is narrowed to the source's clip rectangle first; what is
    // left of it lands at the position that was asked for.
    assert_eq!(
        dest.clip_blit_region(&src, &whole(&src), 2, 2),
        Some((Rect::new(1, 1, 1, 1), 2, 2))
    );
}
