use vstd::prelude::*;

use crate::style::rgb::spec_from_hex;
use crate::style::rgb::RGB;

verus! {

/// A fixed mapping from semantic color token to concrete RGB value,
/// immutable for the lifetime of a render pass.
#[derive(Debug, Clone, PartialEq, Eq, Structural)]
pub struct Theme {
    pub text: RGB,
    pub background: RGB,
    pub primary: RGB,
    pub success: RGB,
    pub warning: RGB,
    pub danger: RGB,
}

impl Theme {
    /// The Tokyo Night color scheme.
    pub fn tokyo_night() -> (r: Self)
        ensures
            r.text == spec_from_hex(0xA9B1D6),
            r.background == spec_from_hex(0x1A1B26),
            r.primary == spec_from_hex(0xBB9AF7),
            r.success == spec_from_hex(0x9ECE6A),
            r.warning == spec_from_hex(0xE0AF68),
            r.danger == spec_from_hex(0xF7768E),
    {
        Theme {
            text: RGB::from_hex(0xA9B1D6),
            background: RGB::from_hex(0x1A1B26),
            primary: RGB::from_hex(0xBB9AF7),
            success: RGB::from_hex(0x9ECE6A),
            warning: RGB::from_hex(0xE0AF68),
            danger: RGB::from_hex(0xF7768E),
        }
    }
}

} // verus!
