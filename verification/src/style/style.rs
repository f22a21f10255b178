use vstd::prelude::*;

use crate::strnum::append_code;
use crate::strnum::join_codes;
use crate::style::attributes::attr_code_list;
use crate::style::attributes::Attributes;
use crate::style::color::spec_on_theme;
use crate::style::color::Color;
use crate::style::color::ColorSystem;
use crate::style::rgb::rgb_codes_spec;
use crate::style::theme::Theme;

verus! {

/// An optional foreground color, an optional background color, and a set
/// of attributes. Purely a value; copied freely.
#[derive(Debug, Clone, Copy, PartialEq, Eq, Structural)]
pub struct Style {
    pub foreground: Option<Color>,
    pub background: Option<Color>,
    pub attributes: Attributes,
}

/// The code strings one escape sequence carries for this style: foreground,
/// then background, then attributes.
pub open spec fn style_code_list(s: Style, system: ColorSystem, theme: Theme) -> Seq<Seq<char>> {
    let l: Seq<Seq<char>> = Seq::empty();
    let l = if !(system is Disabled) && s.foreground is Some {
        l.push(rgb_codes_spec(spec_on_theme(s.foreground->0, theme), system, true))
    } else {
        l
    };
    let l = if !(system is Disabled) && s.background is Some {
        l.push(rgb_codes_spec(spec_on_theme(s.background->0, theme), system, false))
    } else {
        l
    };
    if s.attributes.value != 0 {
        l.push(join_codes(attr_code_list(s.attributes)))
    } else {
        l
    }
}

/// The style an empty cell carries: no colors, no attributes.
pub open spec fn empty_style() -> Style {
    Style { foreground: None, background: None, attributes: Attributes { value: 0 } }
}

impl Style {
    /// The style text-bearing widgets start with: the semantic text color
    /// in the foreground, nothing else.
    pub open spec fn spec_text_default() -> Style {
        Style {
            foreground: Some(Color::Text),
            background: None,
            attributes: Attributes { value: 0 },
        }
    }

    /// An empty style.
    pub fn new() -> (r: Self)
        ensures
            r == (Style {
                foreground: None::<Color>,
                background: None::<Color>,
                attributes: Attributes { value: 0 },
            }),
    {
        Style { foreground: None, background: None, attributes: Attributes::new() }
    }

    /// A style with only a foreground color.
    pub fn from_foreground(foreground: Color) -> (r: Self)
        ensures
            r == (Style {
                foreground: Some(foreground),
                background: None::<Color>,
                attributes: Attributes { value: 0 },
            }),
    {
        Style { foreground: Some(foreground), background: None, attributes: Attributes::new() }
    }

    /// A style with only a background color.
    pub fn from_background(background: Color) -> (r: Self)
        ensures
            r == (Style {
                foreground: None::<Color>,
                background: Some(background),
                attributes: Attributes { value: 0 },
            }),
    {
        Style { foreground: None, background: Some(background), attributes: Attributes::new() }
    }

    pub fn clear(self) -> (r: Self)
        ensures
            r == (Style {
                foreground: None::<Color>,
                background: None::<Color>,
                attributes: Attributes { value: 0 },
            }),
    {
        Style { foreground: None, background: None, attributes: Attributes::new() }
    }

    pub fn foreground(self, color: Color) -> (r: Self)
        ensures
            r == (Style { foreground: Some(color), ..self }),
    {
        Style { foreground: Some(color), ..self }
    }

    pub fn background(self, color: Color) -> (r: Self)
        ensures
            r == (Style { background: Some(color), ..self }),
    {
        Style { background: Some(color), ..self }
    }

    pub fn attributes(self, attributes: Attributes) -> (r: Self)
        ensures
            r == (Style { attributes, ..self }),
    {
        Style { attributes, ..self }
    }

    pub fn bold(self) -> (r: Self)
        ensures
            r.attributes.value == self.attributes.value | 1,
            r.foreground == self.foreground,
            r.background == self.background,
    {
        let mut attributes = self.attributes;
        attributes.bold();
        Style { attributes, ..self }
    }

    pub fn dim(self) -> (r: Self)
        ensures
            r.attributes.value == self.attributes.value | 2,
            r.foreground == self.foreground,
            r.background == self.background,
    {
        let mut attributes = self.attributes;
        attributes.dim();
        Style { attributes, ..self }
    }

    pub fn italic(self) -> (r: Self)
        ensures
            r.attributes.value == self.attributes.value | 4,
            r.foreground == self.foreground,
            r.background == self.background,
    {
        let mut attributes = self.attributes;
        attributes.italic();
        Style { attributes, ..self }
    }

    pub fn underline(self) -> (r: Self)
        ensures
            r.attributes.value == self.attributes.value | 8,
            r.foreground == self.foreground,
            r.background == self.background,
    {
        let mut attributes = self.attributes;
        attributes.underline();
        Style { attributes, ..self }
    }

    pub fn blink(self) -> (r: Self)
        ensures
            r.attributes.value == self.attributes.value | 16,
            r.foreground == self.foreground,
            r.background == self.background,
    {
        let mut attributes = self.attributes;
        attributes.blink();
        Style { attributes, ..self }
    }

    pub fn reverse(self) -> (r: Self)
        ensures
            r.attributes.value == self.attributes.value | 32,
            r.foreground == self.foreground,
            r.background == self.background,
    {
        let mut attributes = self.attributes;
        attributes.reverse();
        Style { attributes, ..self }
    }

    pub fn conceal(self) -> (r: Self)
        ensures
            r.attributes.value == self.attributes.value | 64,
            r.foreground == self.foreground,
            r.background == self.background,
    {
        let mut attributes = self.attributes;
        attributes.conceal();
        Style { attributes, ..self }
    }

    pub fn strike(self) -> (r: Self)
        ensures
            r.attributes.value == self.attributes.value | 128,
            r.foreground == self.foreground,
            r.background == self.background,
    {
        let mut attributes = self.attributes;
        attributes.strike();
        Style { attributes, ..self }
    }

    pub fn frame(self) -> (r: Self)
        ensures
            r.attributes.value == self.attributes.value | 256,
            r.foreground == self.foreground,
            r.background == self.background,
    {
        let mut attributes = self.attributes;
        attributes.frame();
        Style { attributes, ..self }
    }

    pub fn encircle(self) -> (r: Self)
        ensures
            r.attributes.value == self.attributes.value | 512,
            r.foreground == self.foreground,
            r.background == self.background,
    {
        let mut attributes = self.attributes;
        attributes.encircle();
        Style { attributes, ..self }
    }

    pub fn overline(self) -> (r: Self)
        ensures
            r.attributes.value == self.attributes.value | 1024,
            r.foreground == self.foreground,
            r.background == self.background,
    {
        let mut attributes = self.attributes;
        attributes.overline();
        Style { attributes, ..self }
    }

    /// The full code list for one escape sequence: foreground, background,
    /// then attributes, joined by semicolons. Colors resolve through the
    /// theme; a disabled color system emits no color codes, but attributes
    /// still apply.
    pub fn ansi_codes(&self, system: ColorSystem, theme: &Theme) -> (r: String)
        ensures
            r@ == join_codes(style_code_list(*self, system, *theme)),
    {
        let mut out = String::new();
        let mut any = false;
        let ghost gl0: Seq<Seq<char>> = Seq::empty();
        let disabled = match system {
            ColorSystem::Disabled => true,
            _ => false,
        };
        if !disabled {
            if let Some(foreground) = self.foreground {
                let codes = foreground.on_theme(theme).ansi_codes(system, true);
                append_code(&mut out, codes.as_str(), any, Ghost(gl0));
                any = true;
            }
        }
        let ghost gl1 = if !(system is Disabled) && self.foreground is Some {
            gl0.push(rgb_codes_spec(spec_on_theme(self.foreground->0, *theme), system, true))
        } else {
            gl0
        };
        if !disabled {
            if let Some(background) = self.background {
                let codes = background.on_theme(theme).ansi_codes(system, false);
                append_code(&mut out, codes.as_str(), any, Ghost(gl1));
                any = true;
            }
        }
        let ghost gl2 = if !(system is Disabled) && self.background is Some {
            gl1.push(rgb_codes_spec(spec_on_theme(self.background->0, *theme), system, false))
        } else {
            gl1
        };
        if !self.attributes.is_empty() {
            let codes = self.attributes.ansi_codes();
            append_code(&mut out, codes.as_str(), any, Ghost(gl2));
            any = true;
        }
        proof {
            assert(style_code_list(*self, system, *theme) == if self.attributes.value != 0 {
                gl2.push(join_codes(attr_code_list(self.attributes)))
            } else {
                gl2
            });
        }
        out
    }
}

} // verus!
