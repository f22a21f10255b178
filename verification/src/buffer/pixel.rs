use vstd::prelude::*;

use crate::style::color::Color;
use crate::style::style::empty_style;
use crate::style::style::Style;
use crate::text::char_width;
use crate::text::is_control_char;
use crate::text::unicode_width_of;

verus! {

/// One terminal column's contents: an optional display character, a display
/// width, and a style. A width-0 pixel is a continuation marker occupying
/// the column after a width-2 glyph.
#[derive(Debug, Clone, Copy, PartialEq, Eq, Structural)]
pub struct Pixel {
    pub character: Option<char>,
    pub width: u8,
    pub style: Style,
}

/// A continuation marker: it reserves its column without content of its
/// own, and is never independently emitted.
pub open spec fn is_skip_spec(p: Pixel) -> bool {
    p.character == Some('\0')
}

/// Every pixel the buffer holds is at most two columns wide, an empty pixel
/// is one column wide, and the zero-width pixels are exactly the
/// continuation markers.
pub open spec fn pixel_wf(p: Pixel) -> bool {
    &&& p.width <= 2
    &&& p.character is None ==> p.width == 1
    &&& is_skip_spec(p) <==> p.width == 0
}

/// A blank cell in the given style.
pub open spec fn blanked(p: Pixel) -> Pixel {
    Pixel { character: Some(' '), width: 1, style: p.style }
}

/// A cell overwritten by a single-column character, keeping its style.
pub open spec fn blanked_to(p: Pixel, c: char) -> Pixel {
    Pixel { character: Some(c), width: 1, style: p.style }
}

/// The empty pixel every new buffer cell starts as.
pub open spec fn blank_pixel() -> Pixel {
    Pixel { character: None, width: 1, style: empty_style() }
}

/// The continuation marker carrying the glyph's style.
pub open spec fn skip_of(style: Style) -> Pixel {
    Pixel { character: Some('\0'), width: 0, style }
}

/// What writing `src` over `dst` leaves in the cell: a background color
/// paints opaquely; a bare character keeps the destination's background so
/// the backdrop shows through; an empty, background-less pixel leaves the
/// cell alone.
pub open spec fn render_compose(dst: Pixel, src: Pixel) -> Pixel {
    if src.style.background is Some {
        src
    } else if src.character is Some {
        Pixel {
            character: src.character,
            width: src.width,
            style: Style {
                foreground: src.style.foreground,
                background: dst.style.background,
                attributes: src.style.attributes,
            },
        }
    } else {
        dst
    }
}

impl Pixel {
    /// An empty pixel.
    pub fn new() -> (p: Self)
        ensures
            p == blank_pixel(),
            pixel_wf(p),
    {
        Pixel { character: None, width: 1, style: Style::new() }
    }

    /// A pixel holding one character at its own displayed width.
    pub fn from_char(character: char) -> (p: Self)
        requires
            unicode_width_of(character) matches Some(w) && 1 <= w <= 2,
        ensures
            p.character == Some(character),
            Some(p.width as usize) == unicode_width_of(character),
            p.style == empty_style(),
            pixel_wf(p),
    {
        let width = match char_width(character) {
            Some(w) => w as u8,
            None => 1,
        };
        Pixel { character: Some(character), width, style: Style::new() }
    }

    /// A pixel holding one character, trusting the caller's width. The
    /// width must be the character's displayed width, or rendering will
    /// misplace its neighbours.
    pub fn from_charw(character: char, width: u8) -> (p: Self)
        requires
            !is_control_char(character),
            1 <= width <= 2,
        ensures
            p == (Pixel { character: Some(character), width, style: empty_style() }),
            pixel_wf(p),
    {
        Pixel { character: Some(character), width, style: Style::new() }
    }

    /// Checks a character's width and builds a pixel for it only when it
    /// fits in one or two columns.
    pub fn try_from_char(character: char) -> (r: Option<Self>)
        ensures
            r matches Some(p) ==> p.character == Some(character) && pixel_wf(p) && Some(
                p.width as usize,
            ) == unicode_width_of(character),
            r is None <==> !(unicode_width_of(character) matches Some(w) && 1 <= w <= 2),
    {
        match char_width(character) {
            Some(w) => {
                if 1 <= w && w <= 2 {
                    Some(Self::from_char(character))
                } else {
                    None
                }
            },
            None => None,
        }
    }

    pub fn set_character(&mut self, character: char)
        requires
            unicode_width_of(character) matches Some(w) && 1 <= w <= 2,
        ensures
            final(self).character == Some(character),
            Some(final(self).width as usize) == unicode_width_of(character),
            (character as int) >= 0x20 && (character as int) < 0x7f ==> *final(self) == blanked_to(
                *old(self),
                character,
            ),
            final(self).style == old(self).style,
            pixel_wf(*final(self)),
    {
        self.character = Some(character);
        self.width = match char_width(character) {
            Some(w) => w as u8,
            None => 1,
        };
    }

    /// Checks a character's width and stores it only when it fits in one
    /// or two columns; reports whether it did.
    pub fn try_set_character(&mut self, character: char) -> (r: bool)
        ensures
            r <==> (unicode_width_of(character) matches Some(w) && 1 <= w <= 2),
            r ==> final(self).character == Some(character) && Some(final(self).width as usize)
                == unicode_width_of(character) && final(self).style == old(self).style && pixel_wf(
                *final(self),
            ),
            !r ==> *final(self) == *old(self),
    {
        match char_width(character) {
            Some(w) => {
                if 1 <= w && w <= 2 {
                    self.set_character(character);
                    true
                } else {
                    false
                }
            },
            None => false,
        }
    }

    /// Blanks the cell to a spaced-out column, keeping its style; what a
    /// clear leaves behind.
    pub fn blank(&mut self)
        ensures
            *final(self) == blanked(*old(self)),
            pixel_wf(*final(self)),
    {
        self.character = Some(' ');
        self.width = 1;
    }

    pub fn width(&self) -> (w: u8)
        ensures
            w == self.width,
    {
        self.width
    }

    pub fn set_style(&mut self, style: Style)
        ensures
            *final(self) == (Pixel { style, ..*old(self) }),
    {
        self.style = style;
    }

    pub fn set_background(&mut self, background: Color)
        ensures
            final(self).style.background == Some(background),
            final(self).style.foreground == old(self).style.foreground,
            final(self).style.attributes == old(self).style.attributes,
            final(self).character == old(self).character,
            final(self).width == old(self).width,
    {
        self.style.background = Some(background);
    }

    /// Clears the character and the style.
    pub fn clear(&mut self)
        ensures
            *final(self) == blank_pixel(),
            pixel_wf(*final(self)),
    {
        self.character = None;
        self.width = 1;
        self.style = Style::new();
    }

    /// Clears the character only.
    pub fn clear_char(&mut self)
        ensures
            *final(self) == (Pixel { character: None::<char>, width: 1u8, style: old(self).style }),
            pixel_wf(*final(self)),
    {
        self.character = None;
        self.width = 1;
    }

    /// Marks the pixel as a continuation marker; used for the column after
    /// a two-column glyph.
    pub fn set_skip(&mut self)
        ensures
            *final(self) == skip_of(old(self).style),
            pixel_wf(*final(self)),
    {
        self.character = Some('\0');
        self.width = 0;
    }

    pub fn is_skip(&self) -> (r: bool)
        ensures
            r == is_skip_spec(*self),
    {
        match self.character {
            Some(c) => c == '\0',
            None => false,
        }
    }

    /// Writes another pixel over this one, following the compositing rule:
    /// a background paints opaquely, a bare character keeps this pixel's
    /// background.
    pub fn render(&mut self, pixel: &Pixel)
        ensures
            *final(self) == render_compose(*old(self), *pixel),
    {
        if pixel.style.background.is_some() {
            self.character = pixel.character;
            self.width = pixel.width;
            self.style = pixel.style;
        } else if pixel.character.is_some() {
            self.character = pixel.character;
            self.width = pixel.width;
            self.style.foreground = pixel.style.foreground;
            self.style.attributes = pixel.style.attributes;
        }
    }

    pub fn character(&self) -> (r: Option<char>)
        ensures
            r == self.character,
    {
        self.character
    }

    pub fn style(&self) -> (r: Style)
        ensures
            r == self.style,
    {
        self.style
    }

    pub fn style_ref(&self) -> (r: &Style)
        ensures
            *r == self.style,
    {
        &self.style
    }

    pub fn style_mut(&mut self) -> (r: &mut Style)
        ensures
            *r == old(self).style,
            *final(self) == (Pixel { style: *final(r), ..*old(self) }),
    {
        &mut self.style
    }
}

} // verus!
