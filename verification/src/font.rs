//! Text: fonts, the characters that they supply, and the printing of
//! characters and strings on a bitmap.

use vstd::prelude::*;
use crate::bitmap::Bitmap;
use crate::blit::BlitMethod;
use crate::raster::Raster;
use crate::rect::Rect;

verus! {

/// How the characters of a text are coloured.
#[derive(Debug, Copy, Clone, PartialEq, Eq, Structural)]
pub enum FontRenderOpts {
    /// Every pixel of a character is drawn in this colour.
    Color(u8),
    /// No colour is chosen: a character is drawn as its font sees fit.
    Plain,
}

/// One drawable character of a font.
pub trait Character {
    /// The character's own invariant.
    spec fn wf(&self) -> bool;

    /// The rectangle that the character takes up.
    spec fn spec_bounds(&self) -> Rect;

    /// The picture after the character has been drawn on `dest` with its
    /// top-left corner at `(x, y)`.
    spec fn drawn(&self, dest: Raster, x: int, y: int, opts: FontRenderOpts) -> Raster;

    /// The rectangle that the character takes up.
    fn bounds(&self) -> (r: &Rect)
        requires
            self.wf(),
        ensures
            *r == self.spec_bounds(),
    ;

    /// Draws the character with its top-left corner at `(x, y)`.
    fn draw(&self, dest: &mut Bitmap, x: i32, y: i32, opts: FontRenderOpts)
        requires
            self.wf(),
            old(dest).wf(),
        ensures
            final(dest).wf(),
            final(dest)@ == self.drawn(old(dest)@, x as int, y as int, opts),
    ;
}

/// A set of drawable characters with the measures of a line of text.
pub trait Font {
    type CharacterType: Character;

    /// The font's own invariant.
    spec fn wf(&self) -> bool;

    /// The character that the font draws for `ch`.
    spec fn spec_character(&self, ch: char) -> Self::CharacterType;

    /// How far a space moves the cursor to the right.
    spec fn spec_space_width(&self) -> u8;

    /// How far a line break moves the cursor down.
    spec fn spec_line_height(&self) -> u8;

    /// The character that the font draws for `ch`.
    fn character(&self, ch: char) -> (r: &Self::CharacterType)
        requires
            self.wf(),
        ensures
            *r == self.spec_character(ch),
            r.wf(),
    ;

    /// How far a space moves the cursor to the right.
    fn space_width(&self) -> (w: u8)
        requires
            self.wf(),
        ensures
            w == self.spec_space_width(),
    ;

    /// How far a line break moves the cursor down.
    fn line_height(&self) -> (h: u8)
        requires
            self.wf(),
        ensures
            h == self.spec_line_height(),
    ;
}

/// The transfer method that draws a glyph: in one colour where a colour is
/// chosen, in the glyph's own colours otherwise. Pixels of the glyph that
/// hold zero are not drawn.
pub open spec fn glyph_method(opts: FontRenderOpts) -> BlitMethod {
    match opts {
        FontRenderOpts::Color(color) => BlitMethod::TransparentSingle {
            transparent_color: 0,
            draw_color: color,
        },
        FontRenderOpts::Plain => BlitMethod::Transparent(0),
    }
}

/// A character that is kept as a small bitmap, its glyph.
pub struct GlyphCharacter {
    glyph: Bitmap,
    bounds: Rect,
}

impl GlyphCharacter {
    /// The glyph's picture.
    pub closed spec fn spec_glyph(&self) -> Raster {
        self.glyph@
    }

    /// Makes a character from its glyph.
    pub fn new(glyph: Bitmap) -> (character: GlyphCharacter)
        requires
            glyph.wf(),
        ensures
            character.wf(),
            character.spec_glyph() == glyph@,
    {
        let bounds = glyph.full_bounds();
        GlyphCharacter { glyph, bounds }
    }

    /// The character's glyph.
    pub fn glyph(&self) -> (glyph: &Bitmap)
        ensures
            glyph@ == self.spec_glyph(),
    {
        &self.glyph
    }
}

impl Character for GlyphCharacter {
    closed spec fn wf(&self) -> bool {
        &&& self.glyph.wf()
        &&& self.bounds == self.glyph.spec_full_bounds()
    }

    closed spec fn spec_bounds(&self) -> Rect {
        self.bounds
    }

    open spec fn drawn(&self, dest: Raster, x: int, y: int, opts: FontRenderOpts) -> Raster {
        dest.blit(
            self.spec_glyph(),
            glyph_method(opts),
            Rect {
                x: 0,
                y: 0,
                width: self.spec_glyph().width as u32,
                height: self.spec_glyph().height as u32,
            },
            x,
            y,
        )
    }

    fn bounds(&self) -> (r: &Rect) {
        &self.bounds
    }

    fn draw(&self, dest: &mut Bitmap, x: i32, y: i32, opts: FontRenderOpts) {
        let method = match opts {
            FontRenderOpts::Color(color) => BlitMethod::TransparentSingle {
                transparent_color: 0,
                draw_color: color,
            },
            FontRenderOpts::Plain => BlitMethod::Transparent(0),
        };
        dest.blit(method, &self.glyph, x, y);
    }
}

/// The glyph's size is what the character's bounds say.
pub proof fn lemma_glyph_bounds(character: &GlyphCharacter)
    requires
        character.wf(),
    ensures
        character.spec_glyph().wf(),
        character.spec_bounds() == (Rect {
            x: 0,
            y: 0,
            width: character.spec_glyph().width as u32,
            height: character.spec_glyph().height as u32,
        }),
{
}

/// A font of glyphs for a run of consecutive characters, with one more glyph
/// that stands for every character outside the run.
pub struct GlyphFont {
    first: char,
    characters: Vec<GlyphCharacter>,
    missing: GlyphCharacter,
    space_width: u8,
    line_height: u8,
}

impl GlyphFont {
    /// The first character of the run.
    pub closed spec fn spec_first(&self) -> char {
        self.first
    }

    /// The characters of the run, in order.
    pub closed spec fn spec_characters(&self) -> Seq<GlyphCharacter> {
        self.characters@
    }

    /// The character that stands for those outside the run.
    pub closed spec fn spec_missing(&self) -> GlyphCharacter {
        self.missing
    }

    /// Makes a font whose glyphs `characters` are those of `first` and of the
    /// characters that follow it.
    pub fn new(
        first: char,
        characters: Vec<GlyphCharacter>,
        missing: GlyphCharacter,
        space_width: u8,
        line_height: u8,
    ) -> (font: GlyphFont)
        requires
            missing.wf(),
            forall|i: int| 0 <= i < characters@.len() ==> (#[trigger] characters@[i]).wf(),
        ensures
            font.wf(),
            font.spec_first() == first,
            font.spec_characters() == characters@,
            font.spec_missing() == missing,
            font.spec_space_width() == space_width,
            font.spec_line_height() == line_height,
    {
        GlyphFont { first, characters, missing, space_width, line_height }
    }

    /// The character of the run that the font has for `ch`, or the one that
    /// stands for those outside the run.
    pub fn glyph_character(&self, ch: char) -> (r: &GlyphCharacter)
        requires
            self.wf(),
        ensures
            *r == self.spec_character(ch),
            r.wf(),
    {
        let code: u32 = ch as u32;
        let first: u32 = self.first as u32;
        if code >= first && ((code - first) as usize) < self.characters.len() {
            &self.characters[(code - first) as usize]
        } else {
            &self.missing
        }
    }
}

impl Font for GlyphFont {
    type CharacterType = GlyphCharacter;

    closed spec fn wf(&self) -> bool {
        &&& self.missing.wf()
        &&& forall|i: int| 0 <= i < self.characters@.len() ==> (#[trigger] self.characters@[i]).wf()
    }

    open spec fn spec_character(&self, ch: char) -> GlyphCharacter {
        let place = ch as int - self.spec_first() as int;
        if 0 <= place < self.spec_characters().len() {
            self.spec_characters()[place]
        } else {
            self.spec_missing()
        }
    }

    closed spec fn spec_space_width(&self) -> u8 {
        self.space_width
    }

    closed spec fn spec_line_height(&self) -> u8 {
        self.line_height
    }

    fn character(&self, ch: char) -> (r: &GlyphCharacter) {
        self.glyph_character(ch)
    }

    fn space_width(&self) -> (w: u8) {
        self.space_width
    }

    fn line_height(&self) -> (h: u8) {
        self.line_height
    }
}

/// Where the cursor stands after the first `count` characters of `text` have
/// been printed from `(x, y)`: a space moves it right by the font's space
/// width, a line feed moves it back to column `x` and down by the font's line
/// height, a carriage return leaves it, and any other character moves it right
/// by the character's width.
pub open spec fn text_cursor<T: Font>(font: &T, text: Seq<char>, x: int, y: int, count: int) -> (
    int,
    int,
)
    decreases count,
{
    if count <= 0 {
        (x, y)
    } else {
        let at = text_cursor(font, text, x, y, count - 1);
        let ch = text[count - 1];
        if ch == ' ' {
            (at.0 + font.spec_space_width(), at.1)
        } else if ch == '\n' {
            (x, at.1 + font.spec_line_height())
        } else if ch == '\r' {
            at
        } else {
            (at.0 + font.spec_character(ch).spec_bounds().width, at.1)
        }
    }
}

/// The cursor stays within `i32` coordinates all through the text.
pub open spec fn text_fits<T: Font>(font: &T, text: Seq<char>, x: int, y: int) -> bool {
    forall|count: int|
        0 <= count <= text.len() ==> ({
            let at = #[trigger] text_cursor(font, text, x, y, count);
            i32::MIN <= at.0 <= i32::MAX && i32::MIN <= at.1 <= i32::MAX
        })
}

/// Whether the cursor stays within `i32` coordinates all through `text` when
/// it is printed from `(x, y)`: what `print_string` asks of its arguments.
pub fn string_fits<T: Font>(text: &str, x: i32, y: i32, font: &T) -> (fits: bool)
    requires
        font.wf(),
    ensures
        fits == text_fits(font, text@, x as int, y as int),
{
    let mut current_x: i32 = x;
    let mut current_y: i32 = y;
    for ch in iter: text.chars()
        invariant
            font.wf(),
            iter.seq() == text@,
            (current_x as int, current_y as int) == text_cursor(
                font,
                text@,
                x as int,
                y as int,
                iter.index() as int,
            ),
            forall|count: int|
                0 <= count <= iter.index() ==> ({
                    let at = #[trigger] text_cursor(font, text@, x as int, y as int, count);
                    i32::MIN <= at.0 <= i32::MAX && i32::MIN <= at.1 <= i32::MAX
                }),
    {
        let mut next_x: i64 = current_x as i64;
        let mut next_y: i64 = current_y as i64;
        if ch == ' ' {
            next_x = next_x + font.space_width() as i64;
        } else if ch == '\n' {
            next_x = x as i64;
            next_y = next_y + font.line_height() as i64;
        } else if ch == '\r' {
        } else {
            next_x = next_x + font.character(ch).bounds().width as i64;
        }
        assert((next_x as int, next_y as int) == text_cursor(
            font,
            text@,
            x as int,
            y as int,
            iter.index() + 1,
        ));
        if next_x < -0x8000_0000 || next_x > 0x7fff_ffff || next_y < -0x8000_0000 || next_y
            > 0x7fff_ffff {
            return false;
        }
        current_x = next_x as i32;
        current_y = next_y as i32;
    }
    true
}

/// The picture after the first `count` characters of `text` have been printed
/// from `(x, y)`: each character other than a space, a line feed and a
/// carriage return is drawn where the cursor stands when its turn comes.
pub open spec fn printed<T: Font>(
    dest: Raster,
    font: &T,
    text: Seq<char>,
    x: int,
    y: int,
    opts: FontRenderOpts,
    count: int,
) -> Raster
    decreases count,
{
    if count <= 0 {
        dest
    } else {
        let before = printed(dest, font, text, x, y, opts, count - 1);
        let at = text_cursor(font, text, x, y, count - 1);
        let ch = text[count - 1];
        if ch == ' ' || ch == '\n' || ch == '\r' {
            before
        } else {
            font.spec_character(ch).drawn(before, at.0, at.1, opts)
        }
    }
}

impl Bitmap {
    /// Draws the character that `font` has for `ch` with its top-left corner
    /// at `(x, y)`.
    pub fn print_char<T: Font>(&mut self, ch: char, x: i32, y: i32, opts: FontRenderOpts, font: &T)
        requires
            old(self).wf(),
            font.wf(),
        ensures
            final(self).wf(),
            final(self)@ == font.spec_character(ch).drawn(old(self)@, x as int, y as int, opts),
    {
        font.character(ch).draw(self, x, y, opts);
    }

    /// Prints `text` from `(x, y)`, character by character. The cursor has to
    /// stay within `i32` coordinates all through the text.
    pub fn print_string<T: Font>(
        &mut self,
        text: &str,
        x: i32,
        y: i32,
        opts: FontRenderOpts,
        font: &T,
    )
        requires
            old(self).wf(),
            font.wf(),
            text_fits(font, text@, x as int, y as int),
        ensures
            final(self).wf(),
            final(self)@ == printed(
                old(self)@,
                font,
                text@,
                x as int,
                y as int,
                opts,
                text@.len() as int,
            ),
    {
        let ghost before = self@;
        let mut current_x: i32 = x;
        let mut current_y: i32 = y;
        for ch in iter: text.chars()
            invariant
                self.wf(),
                font.wf(),
                iter.seq() == text@,
                text_fits(font, text@, x as int, y as int),
                (current_x as int, current_y as int) == text_cursor(
                    font,
                    text@,
                    x as int,
                    y as int,
                    iter.index() as int,
                ),
                self@ == printed(
                    before,
                    font,
                    text@,
                    x as int,
                    y as int,
                    opts,
                    iter.index() as int,
                ),
        {
            let ghost next = text_cursor(font, text@, x as int, y as int, iter.index() + 1);
            assert(i32::MIN <= next.0 <= i32::MAX && i32::MIN <= next.1 <= i32::MAX);
            if ch == ' ' {
                current_x = current_x + font.space_width() as i32;
            } else if ch == '\n' {
                current_x = x;
                current_y = current_y + font.line_height() as i32;
            } else if ch == '\r' {
            } else {
                self.print_char(ch, current_x, current_y, opts, font);
                let width: u32 = font.character(ch).bounds().width;
                current_x = (current_x as i64 + width as i64) as i32;
            }
        }
    }
}

} // verus!
