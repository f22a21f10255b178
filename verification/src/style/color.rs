use vstd::prelude::*;

use crate::style::rgb::RGB;
use crate::style::theme::Theme;

verus! {

/// The terminal's color capability tier, which decides how a color is
/// encoded into escape codes.
#[derive(Debug, Clone, Copy, PartialEq, Eq, Structural)]
pub enum ColorSystem {
    Disabled,
    LegacyWindows,
    Standard,
    EightBit,
    TrueColor,
}

/// A semantic color token resolved through a `Theme`, or a direct RGB
/// triple. The semantic indirection lets a whole tree re-skin by swapping
/// the theme.
#[derive(Debug, Clone, Copy, PartialEq, Eq, Structural)]
pub enum Color {
    Text,
    Background,
    Primary,
    Success,
    Warning,
    Danger,
    RGB(RGB),
}

pub open spec fn spec_on_theme(c: Color, theme: Theme) -> RGB {
    match c {
        Color::Text => theme.text,
        Color::Background => theme.background,
        Color::Primary => theme.primary,
        Color::Success => theme.success,
        Color::Warning => theme.warning,
        Color::Danger => theme.danger,
        Color::RGB(rgb) => rgb,
    }
}

impl Color {
    /// The concrete color this token stands for under the given theme;
    /// direct RGB values pass through.
    pub fn on_theme(&self, theme: &Theme) -> (r: RGB)
        ensures
            r == spec_on_theme(*self, *theme),
    {
        match *self {
            Color::Text => theme.text,
            Color::Background => theme.background,
            Color::Primary => theme.primary,
            Color::Success => theme.success,
            Color::Warning => theme.warning,
            Color::Danger => theme.danger,
            Color::RGB(rgb) => rgb,
        }
    }
}

} // verus!
