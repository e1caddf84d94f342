use libretrogd::{Bitmap, Character, Font, FontRenderOpts, GlyphCharacter, GlyphFont, Rect};

/// Checks every pixel of `bmp`: those listed hold the listed colour, all
/// others hold `background`.
fn assert_pixels(bmp: &Bitmap, background: u8, marked: &[(i32, i32, u8)]) {
    for y in 0..bmp.height() as i32 {
        for x in 0..bmp.width() as i32 {
            let expected = marked
                .iter()
                .find(|m| m.0 == x && m.1 == y)
                .map(|m| m.2)
                .unwrap_or(background);
            assert_eq!(bmp.get_pixel_unchecked(x, y), expected, "at ({}, {})", x, y);
        }
    }
}

fn glyph(width: u32, height: u32, pixels: &[u8]) -> GlyphCharacter {
    let mut bitmap = Bitmap::new(width, height).unwrap();
    for (offset, &pixel) in pixels.iter().enumerate() {
        bitmap.set_pixel_at_offset(offset, pixel);
    }
    GlyphCharacter::new(bitmap)
}

/// A font with `A`, two columns wide, and `B`, three columns wide; every
/// other character is a single pixel.
fn font() -> GlyphFont {
    let a = glyph(2, 2, &[1, 0, 1, 1]);
    let b = glyph(3, 2, &[2, 2, 2, 0, 2, 0]);
    let missing = glyph(1, 1, &[5]);
    GlyphFont::new('A', vec![a, b], missing, 2, 3)
}

#[test]
fn a_font_hands_out_its_characters() {
    let font = font();
    assert_eq!(font.space_width(), 2);
    assert_eq!(font.line_height(), 3);
    assert_eq!(*font.character('A').bounds(), Rect::new(0, 0, 2, 2));
    assert_eq!(*font.character('B').bounds(), Rect::new(0, 0, 3, 2));
    assert_eq!(*font.character('C').bounds(), Rect::new(0, 0, 1, 1));
    assert_eq!(*font.character('@').bounds(), Rect::new(0, 0, 1, 1));
    assert_eq!(*font.glyph_character('B').bounds(), Rect::new(0, 0, 3, 2));
    assert_eq!(font.character('A').glyph().pixels(), &[1, 0, 1, 1]);
}

#[test]
fn a_character_is_drawn_in_the_chosen_colour() {
    let font = font();
    let mut bmp = Bitmap::new(4, 3).unwrap();
    font.character('A').draw(&mut bmp, 1, 1, FontRenderOpts::Color(9));
    assert_pixels(&bmp, 0, &[(1, 1, 9), (1, 2, 9), (2, 2, 9)]);
}

#[test]
fn a_character_without_a_chosen_colour_keeps_its_own() {
    let font = font();
    let mut bmp = Bitmap::new(4, 3).unwrap();
    bmp.clear(7);
    bmp.print_char('B', 0, 0, FontRenderOpts::Plain, &font);
    assert_pixels(&bmp, 7, &[(0, 0, 2), (1, 0, 2), (2, 0, 2), (1, 1, 2)]);
}

#[test]
fn print_char_is_clipped() {
    let font = font();
    let mut bmp = Bitmap::new(4, 3).unwrap();
    bmp.print_char('B', -1, 2, FontRenderOpts::Color(9), &font);
    assert_pixels(&bmp, 0, &[(0, 2, 9), (1, 2, 9)]);
    bmp.print_char('B', 4, 0, FontRenderOpts::Color(9), &font);
    bmp.print_char('B', 0, -2, FontRenderOpts::Color(9), &font);
    assert_pixels(&bmp, 0, &[(0, 2, 9), (1, 2, 9)]);
}

#[test]
fn print_string_advances_by_each_character() {
    let font = font();
    let mut bmp = Bitmap::new(8, 3).unwrap();
    bmp.print_string("ABA", 1, 0, FontRenderOpts::Color(9), &font);
    assert_pixels(
        &bmp,
        0,
        &[
            (1, 0, 9), (1, 1, 9), (2, 1, 9),
            (3, 0, 9), (4, 0, 9), (5, 0, 9), (4, 1, 9),
            (6, 0, 9), (6, 1, 9), (7, 1, 9),
        ],
    );
}

#[test]
fn print_string_handles_spaces_and_line_breaks() {
    let font = font();
    let mut bmp = Bitmap::new(8, 6).unwrap();
    bmp.print_string("A A\r\nzA", 1, 0, FontRenderOpts::Plain, &font);
    assert_pixels(
        &bmp,
        0,
        &[
            (1, 0, 1), (1, 1, 1), (2, 1, 1),
            (5, 0, 1), (5, 1, 1), (6, 1, 1),
            (1, 3, 5),
            (2, 3, 1), (2, 4, 1), (3, 4, 1),
        ],
    );
}

#[test]
fn print_string_of_nothing_draws_nothing() {
    let font = font();
    let mut bmp = Bitmap::new(4, 4).unwrap();
    bmp.print_string("", 0, 0, FontRenderOpts::Color(9), &font);
    bmp.print_string(" \n\r ", 0, 0, FontRenderOpts::Color(9), &font);
    assert_pixels(&bmp, 0, &[]);
}

#[test]
fn string_fits_while_the_cursor_stays_in_range() {
    let font = font();
    assert!(libretrogd::font::string_fits("ABA AB\nB", 0, 0, &font));
    assert!(libretrogd::font::string_fits("", i32::MAX, i32::MAX, &font));
    // `A` moves the cursor by two columns.
    assert!(libretrogd::font::string_fits("A", i32::MAX - 2, 0, &font));
    assert!(!libretrogd::font::string_fits("A", i32::MAX - 1, 0, &font));
    assert!(!libretrogd::font::string_fits("AB", i32::MAX - 4, 0, &font));
    assert!(libretrogd::font::string_fits("A\nA", i32::MAX - 2, 0, &font));
    // `B` is three columns wide.
    assert!(!libretrogd::font::string_fits("A\nB", i32::MAX - 2, 0, &font));
    // A space moves it by two columns, a line feed by three rows.
    assert!(!libretrogd::font::string_fits(" ", i32::MAX - 1, 0, &font));
    assert!(libretrogd::font::string_fits("\n", 0, i32::MAX - 3, &font));
    assert!(!libretrogd::font::string_fits("\n", 0, i32::MAX - 2, &font));
    assert!(libretrogd::font::string_fits("\r\r", i32::MAX, i32::MAX, &font));
}
