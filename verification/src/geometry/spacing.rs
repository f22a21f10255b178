use vstd::prelude::*;

verus! {

/// Four-sided padding applied to shrink an `Area`.
#[derive(Debug, Clone, Copy, PartialEq, Eq, Structural)]
pub struct Spacing {
    pub top: u16,
    pub right: u16,
    pub bottom: u16,
    pub left: u16,
}

impl Spacing {
    /// The horizontal and vertical extents must stay within `u16`, so that
    /// shrinking an `Area` by this spacing cannot overflow.
    pub open spec fn wf(self) -> bool {
        self.left + self.right <= u16::MAX && self.top + self.bottom <= u16::MAX
    }

    pub fn new(top: u16, right: u16, bottom: u16, left: u16) -> (r: Self)
        ensures
            r == (Spacing { top, right, bottom, left }),
    {
        Spacing { top, right, bottom, left }
    }

    pub fn axes(y: u16, x: u16) -> (r: Self)
        ensures
            r == (Spacing { top: y, right: x, bottom: y, left: x }),
    {
        Spacing { top: y, right: x, bottom: y, left: x }
    }

    pub fn vertical(y: u16) -> (r: Self)
        ensures
            r == (Spacing { top: y, right: 0u16, bottom: y, left: 0u16 }),
    {
        Spacing { top: y, right: 0, bottom: y, left: 0 }
    }

    pub fn horizontal(x: u16) -> (r: Self)
        ensures
            r == (Spacing { top: 0u16, right: x, bottom: 0u16, left: x }),
    {
        Spacing { top: 0, right: x, bottom: 0, left: x }
    }

    pub fn all(value: u16) -> (r: Self)
        ensures
            r == (Spacing { top: value, right: value, bottom: value, left: value }),
    {
        Spacing { top: value, right: value, bottom: value, left: value }
    }

    pub fn zeros() -> (r: Self)
        ensures
            r == (Spacing { top: 0u16, right: 0u16, bottom: 0u16, left: 0u16 }),
    {
        Spacing { top: 0, right: 0, bottom: 0, left: 0 }
    }
}

} // verus!
