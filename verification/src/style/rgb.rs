use vstd::arithmetic::div_mod::lemma_div_is_ordered;
use vstd::arithmetic::mul::lemma_mul_inequality;
use vstd::prelude::*;

use crate::strnum::spec_dec;
use crate::strnum::u64_to_string;
use crate::style::color::ColorSystem;
use crate::style::palette::eight_bit_colors;
use crate::style::palette::eight_bit_palette;
use crate::style::palette::legacy_windows_colors;
use crate::style::palette::legacy_windows_palette;
use crate::style::palette::nearest_spec;
use crate::style::palette::standard_colors;
use crate::style::palette::standard_palette;

verus! {

/// A concrete 8-bit-per-channel color.
#[derive(Debug, Clone, Copy, PartialEq, Eq, Structural)]
pub struct RGB {
    pub r: u8,
    pub g: u8,
    pub b: u8,
}

pub open spec fn spec_from_hex(hex: u32) -> RGB {
    RGB { r: (hex >> 16 & 0xff) as u8, g: (hex >> 8 & 0xff) as u8, b: (hex & 0xff) as u8 }
}

/// One channel of an alpha blend: `c` over `bg` at opacity `alpha`/255,
/// rounded to the nearest integer (ties up).
pub open spec fn blend_channel(c: u8, alpha: u8, bg: u8) -> u8 {
    (((c * alpha + bg * (255 - alpha)) * 2 + 255) / 510) as u8
}

pub open spec fn sq_diff(x: u8, y: u8) -> int {
    let d: int = if x >= y {
        x - y
    } else {
        y - x
    };
    d * d
}

/// The red-mean-weighted squared distance between two colors, scaled by a
/// fixed factor so that it stays an integer. Scaling and squaring preserve
/// the ranking that the red-mean distance induces, which is all the metric
/// is used for.
pub open spec fn spec_distance2(a: RGB, b: RGB) -> int {
    let rm: int = a.r + b.r;
    (1024 + rm) * sq_diff(a.r, b.r) + 2048 * sq_diff(a.g, b.g) + (1534 - rm) * sq_diff(a.b, b.b)
}

/// The classic SGR code for a 16-color palette index: 30-37 and 40-47 for
/// the dark half, with the documented offset into the bright range for
/// indices of 8 and above.
pub open spec fn classic_code(idx: int, foreground: bool) -> Seq<char> {
    let base: int = if idx < 8 {
        if foreground {
            30
        } else {
            40
        }
    } else {
        if foreground {
            82
        } else {
            92
        }
    };
    spec_dec(base + idx)
}

/// The escape-code payload a color produces under each color system.
pub open spec fn rgb_codes_spec(c: RGB, system: ColorSystem, foreground: bool) -> Seq<char> {
    match system {
        ColorSystem::Disabled => Seq::empty(),
        ColorSystem::LegacyWindows => classic_code(
            nearest_spec(legacy_windows_colors(), c),
            foreground,
        ),
        ColorSystem::Standard => classic_code(nearest_spec(standard_colors(), c), foreground),
        ColorSystem::EightBit => (if foreground {
            "38"@
        } else {
            "48"@
        }) + ";5;"@ + spec_dec(nearest_spec(eight_bit_colors(), c)),
        ColorSystem::TrueColor => (if foreground {
            "38"@
        } else {
            "48"@
        }) + ";2;"@ + spec_dec(c.r as int) + ";"@ + spec_dec(c.g as int) + ";"@ + spec_dec(
            c.b as int,
        ),
    }
}

impl RGB {
    pub fn from_rgb(r: u8, g: u8, b: u8) -> (c: Self)
        ensures
            c == (RGB { r, g, b }),
    {
        RGB { r, g, b }
    }

    /// The color packed as 0xRRGGBB; higher bits are ignored.
    pub fn from_hex(hex: u32) -> (c: Self)
        ensures
            c == spec_from_hex(hex),
    {
        proof {
            assert(hex >> 16 & 0xff < 256 && hex >> 8 & 0xff < 256 && hex & 0xff < 256)
                by (bit_vector);
        }
        RGB { r: (hex >> 16 & 0xff) as u8, g: (hex >> 8 & 0xff) as u8, b: (hex & 0xff) as u8 }
    }

    /// The color's appearance at the given transparency level over the given
    /// background: each channel is blended linearly by `alpha`/255 and
    /// rounded to the nearest integer.
    pub fn alpha_on(&mut self, alpha: u8, background: Self)
        ensures
            final(self).r == blend_channel(old(self).r, alpha, background.r),
            final(self).g == blend_channel(old(self).g, alpha, background.g),
            final(self).b == blend_channel(old(self).b, alpha, background.b),
    {
        self.r = Self::blend(self.r, alpha, background.r);
        self.g = Self::blend(self.g, alpha, background.g);
        self.b = Self::blend(self.b, alpha, background.b);
    }

    fn blend(c: u8, alpha: u8, bg: u8) -> (r: u8)
        ensures
            r == blend_channel(c, alpha, bg),
    {
        let inv: u32 = 255 - alpha as u32;
        proof {
            lemma_mul_inequality(c as int, 255, alpha as int);
            lemma_mul_inequality(bg as int, 255, 255 - alpha as int);
            assert(c as int * alpha as int <= 255 * alpha as int) by (nonlinear_arith)
                requires
                    0 <= c as int <= 255,
                    0 <= alpha as int,
            {
            }
            assert(bg as int * (255 - alpha as int) <= 255 * (255 - alpha as int))
                by (nonlinear_arith)
                requires
                    0 <= bg as int <= 255,
                    0 <= 255 - alpha as int,
            {
            }
            assert(((65025int * 2 + 255) / 510) == 255);
        }
        let num: u32 = c as u32 * alpha as u32 + bg as u32 * inv;
        proof {
            lemma_div_is_ordered((num * 2 + 255) as int, 130305int, 510);
        }
        ((num * 2 + 255) / 510) as u8
    }

    /// The scaled red-mean squared distance to another color; zero exactly
    /// when the colors are equal.
    pub fn distance2(&self, color: RGB) -> (d: u64)
        ensures
            d == spec_distance2(*self, color),
    {
        let rm: u64 = self.r as u64 + color.r as u64;
        let dr: u64 = if self.r >= color.r {
            (self.r - color.r) as u64
        } else {
            (color.r - self.r) as u64
        };
        let dg: u64 = if self.g >= color.g {
            (self.g - color.g) as u64
        } else {
            (color.g - self.g) as u64
        };
        let db: u64 = if self.b >= color.b {
            (self.b - color.b) as u64
        } else {
            (color.b - self.b) as u64
        };
        proof {
            assert(dr * dr <= 65025 && dg * dg <= 65025 && db * db <= 65025) by (nonlinear_arith)
                requires
                    0 <= dr <= 255,
                    0 <= dg <= 255,
                    0 <= db <= 255,
            {
            }
            assert((1024 + rm) * (dr * dr) <= 1534 * 65025) by (nonlinear_arith)
                requires
                    0 <= rm <= 510,
                    0 <= dr * dr <= 65025,
            {
            }
            assert((1534 - rm) * (db * db) <= 1534 * 65025) by (nonlinear_arith)
                requires
                    0 <= rm <= 510,
                    0 <= db * db <= 65025,
            {
            }
        }
        (1024 + rm) * (dr * dr) + 2048 * (dg * dg) + (1534 - rm) * (db * db)
    }

    /// The escape-code payload for this color under the given color system:
    /// nothing when colors are disabled, a palette match for the classic and
    /// eight-bit tiers, and the direct channel values for truecolor.
    pub fn ansi_codes(&self, system: ColorSystem, foreground: bool) -> (r: String)
        ensures
            r@ == rgb_codes_spec(*self, system, foreground),
    {
        match system {
            ColorSystem::Disabled => String::new(),
            ColorSystem::LegacyWindows => self.legacy_windows_ansi_codes(foreground),
            ColorSystem::Standard => self.standard_ansi_codes(foreground),
            ColorSystem::EightBit => self.eight_bit_ansi_colors(foreground),
            ColorSystem::TrueColor => self.true_color_ansi_codes(foreground),
        }
    }

    fn legacy_windows_ansi_codes(&self, foreground: bool) -> (r: String)
        ensures
            r@ == classic_code(nearest_spec(legacy_windows_colors(), *self), foreground),
    {
        let palette = legacy_windows_palette();
        let number = palette.nearest(*self);
        let base: u64 = if number < 8 {
            if foreground {
                30
            } else {
                40
            }
        } else {
            if foreground {
                82
            } else {
                92
            }
        };
        u64_to_string(base + number as u64)
    }

    fn standard_ansi_codes(&self, foreground: bool) -> (r: String)
        ensures
            r@ == classic_code(nearest_spec(standard_colors(), *self), foreground),
    {
        let palette = standard_palette();
        let number = palette.nearest(*self);
        let base: u64 = if number < 8 {
            if foreground {
                30
            } else {
                40
            }
        } else {
            if foreground {
                82
            } else {
                92
            }
        };
        u64_to_string(base + number as u64)
    }

    fn eight_bit_ansi_colors(&self, foreground: bool) -> (r: String)
        ensures
            r@ == rgb_codes_spec(*self, ColorSystem::EightBit, foreground),
    {
        let palette = eight_bit_palette();
        let number = palette.nearest(*self);
        let mut out = if foreground {
            String::from_str("38")
        } else {
            String::from_str("48")
        };
        out.append(";5;");
        let digits = u64_to_string(number as u64);
        out.append(digits.as_str());
        proof {
            reveal_strlit("38");
            reveal_strlit("48");
            reveal_strlit(";5;");
            assert(out@ =~= rgb_codes_spec(*self, ColorSystem::EightBit, foreground));
        }
        out
    }

    fn true_color_ansi_codes(&self, foreground: bool) -> (r: String)
        ensures
            r@ == rgb_codes_spec(*self, ColorSystem::TrueColor, foreground),
    {
        let mut out = if foreground {
            String::from_str("38")
        } else {
            String::from_str("48")
        };
        out.append(";2;");
        let rs = u64_to_string(self.r as u64);
        out.append(rs.as_str());
        out.append(";");
        let gs = u64_to_string(self.g as u64);
        out.append(gs.as_str());
        out.append(";");
        let bs = u64_to_string(self.b as u64);
        out.append(bs.as_str());
        proof {
            reveal_strlit("38");
            reveal_strlit("48");
            reveal_strlit(";2;");
            reveal_strlit(";");
            assert(out@ =~= rgb_codes_spec(*self, ColorSystem::TrueColor, foreground));
        }
        out
    }
}

/// The distance metric is zero exactly on equal colors.
pub proof fn lemma_distance2_zero(a: RGB, b: RGB)
    ensures
        spec_distance2(a, b) >= 0,
        spec_distance2(a, b) == 0 <==> a == b,
{
    let rm: int = a.r + b.r;
    assert(sq_diff(a.r, b.r) >= 0 && sq_diff(a.g, b.g) >= 0 && sq_diff(a.b, b.b) >= 0)
        by (nonlinear_arith);
    assert((1024 + rm) * sq_diff(a.r, b.r) >= 0) by (nonlinear_arith)
        requires
            rm >= 0,
            sq_diff(a.r, b.r) >= 0,
    {
    }
    assert(2048 * sq_diff(a.g, b.g) >= 0) by (nonlinear_arith)
        requires
            sq_diff(a.g, b.g) >= 0,
    {
    }
    assert((1534 - rm) * sq_diff(a.b, b.b) >= 0) by (nonlinear_arith)
        requires
            rm <= 510,
            sq_diff(a.b, b.b) >= 0,
    {
    }
    if a == b {
        assert(spec_distance2(a, b) == 0);
    }
    if spec_distance2(a, b) == 0 {
        assert((1024 + rm) * sq_diff(a.r, b.r) == 0 && 2048 * sq_diff(a.g, b.g) == 0 && (1534
            - rm) * sq_diff(a.b, b.b) == 0);
        assert(sq_diff(a.r, b.r) == 0 && sq_diff(a.g, b.g) == 0 && sq_diff(a.b, b.b) == 0)
            by (nonlinear_arith)
            requires
                (1024 + rm) * sq_diff(a.r, b.r) == 0,
                2048 * sq_diff(a.g, b.g) == 0,
                (1534 - rm) * sq_diff(a.b, b.b) == 0,
                0 <= rm <= 510,
                sq_diff(a.r, b.r) >= 0,
                sq_diff(a.g, b.g) >= 0,
                sq_diff(a.b, b.b) >= 0,
        {
        }
        assert(a.r == b.r && a.g == b.g && a.b == b.b) by (nonlinear_arith)
            requires
                sq_diff(a.r, b.r) == 0,
                sq_diff(a.g, b.g) == 0,
                sq_diff(a.b, b.b) == 0,
        {
        }
    }
}

} // verus!
