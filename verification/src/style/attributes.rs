use vstd::prelude::*;

use crate::strnum::append_code;
use crate::strnum::join_codes;

verus! {

/// A bitset of text decorations, each an independent flag.
#[derive(Debug, Clone, Copy, PartialEq, Eq, Structural)]
pub struct Attributes {
    pub value: u16,
}

/// The SGR code strings of the set decorations, in the fixed canonical
/// order that the encoder emits them.
pub open spec fn attr_code_list(a: Attributes) -> Seq<Seq<char>> {
    let l: Seq<Seq<char>> = Seq::empty();
    let l = if a.value & 1 != 0 {
        l.push("1"@)
    } else {
        l
    };
    let l = if a.value & 2 != 0 {
        l.push("2"@)
    } else {
        l
    };
    let l = if a.value & 4 != 0 {
        l.push("3"@)
    } else {
        l
    };
    let l = if a.value & 8 != 0 {
        l.push("4"@)
    } else {
        l
    };
    let l = if a.value & 16 != 0 {
        l.push("5"@)
    } else {
        l
    };
    let l = if a.value & 32 != 0 {
        l.push("7"@)
    } else {
        l
    };
    let l = if a.value & 64 != 0 {
        l.push("8"@)
    } else {
        l
    };
    let l = if a.value & 128 != 0 {
        l.push("9"@)
    } else {
        l
    };
    let l = if a.value & 256 != 0 {
        l.push("51"@)
    } else {
        l
    };
    let l = if a.value & 512 != 0 {
        l.push("52"@)
    } else {
        l
    };
    if a.value & 1024 != 0 {
        l.push("53"@)
    } else {
        l
    }
}

impl Attributes {
    /// An empty set of attributes.
    pub fn new() -> (r: Self)
        ensures
            r.value == 0,
    {
        Attributes { value: 0 }
    }

    pub fn clear(&mut self) -> (r: Self)
        ensures
            final(self).value == 0,
            r == *final(self),
    {
        self.value = 0;
        *self
    }

    pub fn bold(&mut self) -> (r: Self)
        ensures
            final(self).value == old(self).value | 1,
            r == *final(self),
    {
        self.value = self.value | 1;
        *self
    }

    pub fn dim(&mut self) -> (r: Self)
        ensures
            final(self).value == old(self).value | 2,
            r == *final(self),
    {
        self.value = self.value | 2;
        *self
    }

    pub fn italic(&mut self) -> (r: Self)
        ensures
            final(self).value == old(self).value | 4,
            r == *final(self),
    {
        self.value = self.value | 4;
        *self
    }

    pub fn underline(&mut self) -> (r: Self)
        ensures
            final(self).value == old(self).value | 8,
            r == *final(self),
    {
        self.value = self.value | 8;
        *self
    }

    pub fn blink(&mut self) -> (r: Self)
        ensures
            final(self).value == old(self).value | 16,
            r == *final(self),
    {
        self.value = self.value | 16;
        *self
    }

    pub fn reverse(&mut self) -> (r: Self)
        ensures
            final(self).value == old(self).value | 32,
            r == *final(self),
    {
        self.value = self.value | 32;
        *self
    }

    pub fn conceal(&mut self) -> (r: Self)
        ensures
            final(self).value == old(self).value | 64,
            r == *final(self),
    {
        self.value = self.value | 64;
        *self
    }

    pub fn strike(&mut self) -> (r: Self)
        ensures
            final(self).value == old(self).value | 128,
            r == *final(self),
    {
        self.value = self.value | 128;
        *self
    }

    pub fn frame(&mut self) -> (r: Self)
        ensures
            final(self).value == old(self).value | 256,
            r == *final(self),
    {
        self.value = self.value | 256;
        *self
    }

    pub fn encircle(&mut self) -> (r: Self)
        ensures
            final(self).value == old(self).value | 512,
            r == *final(self),
    {
        self.value = self.value | 512;
        *self
    }

    pub fn overline(&mut self) -> (r: Self)
        ensures
            final(self).value == old(self).value | 1024,
            r == *final(self),
    {
        self.value = self.value | 1024;
        *self
    }

    pub fn is_empty(&self) -> (r: bool)
        ensures
            r == (self.value == 0),
    {
        self.value == 0
    }

    /// The SGR numeric code of every set decoration, joined by semicolons,
    /// in a fixed canonical order.
    pub fn ansi_codes(&self) -> (r: String)
        ensures
            r@ == join_codes(attr_code_list(*self)),
    {
        let mut out = String::new();
        let mut any = false;
        let ghost gl0: Seq<Seq<char>> = Seq::empty();
        if self.value & 1 != 0 {
            append_code(&mut out, "1", any, Ghost(gl0));
            any = true;
        }
        let ghost gl1 = if self.value & 1 != 0 {
            gl0.push("1"@)
        } else {
            gl0
        };
        if self.value & 2 != 0 {
            append_code(&mut out, "2", any, Ghost(gl1));
            any = true;
        }
        let ghost gl2 = if self.value & 2 != 0 {
            gl1.push("2"@)
        } else {
            gl1
        };
        if self.value & 4 != 0 {
            append_code(&mut out, "3", any, Ghost(gl2));
            any = true;
        }
        let ghost gl3 = if self.value & 4 != 0 {
            gl2.push("3"@)
        } else {
            gl2
        };
        if self.value & 8 != 0 {
            append_code(&mut out, "4", any, Ghost(gl3));
            any = true;
        }
        let ghost gl4 = if self.value & 8 != 0 {
            gl3.push("4"@)
        } else {
            gl3
        };
        if self.value & 16 != 0 {
            append_code(&mut out, "5", any, Ghost(gl4));
            any = true;
        }
        let ghost gl5 = if self.value & 16 != 0 {
            gl4.push("5"@)
        } else {
            gl4
        };
        if self.value & 32 != 0 {
            append_code(&mut out, "7", any, Ghost(gl5));
            any = true;
        }
        let ghost gl6 = if self.value & 32 != 0 {
            gl5.push("7"@)
        } else {
            gl5
        };
        if self.value & 64 != 0 {
            append_code(&mut out, "8", any, Ghost(gl6));
            any = true;
        }
        let ghost gl7 = if self.value & 64 != 0 {
            gl6.push("8"@)
        } else {
            gl6
        };
        if self.value & 128 != 0 {
            append_code(&mut out, "9", any, Ghost(gl7));
            any = true;
        }
        let ghost gl8 = if self.value & 128 != 0 {
            gl7.push("9"@)
        } else {
            gl7
        };
        if self.value & 256 != 0 {
            append_code(&mut out, "51", any, Ghost(gl8));
            any = true;
        }
        let ghost gl9 = if self.value & 256 != 0 {
            gl8.push("51"@)
        } else {
            gl8
        };
        if self.value & 512 != 0 {
            append_code(&mut out, "52", any, Ghost(gl9));
            any = true;
        }
        let ghost gl10 = if self.value & 512 != 0 {
            gl9.push("52"@)
        } else {
            gl9
        };
        if self.value & 1024 != 0 {
            append_code(&mut out, "53", any, Ghost(gl10));
            any = true;
        }
        proof {
            assert(attr_code_list(*self) == if self.value & 1024 != 0 {
                gl10.push("53"@)
            } else {
                gl10
            });
        }
        out
    }
}

} // verus!
