use vstd::prelude::*;

use crate::geometry::length::Length;

verus! {

/// A (width, height) pair, generic over whether the payload is concrete cell
/// counts or declarative `Length` values.
#[derive(Debug, Clone, Copy, PartialEq, Eq)]
pub struct Size<T> {
    pub width: T,
    pub height: T,
}

impl<T> Size<T> {
    pub fn new(width: T, height: T) -> (r: Self)
        ensures
            r == (Size { width, height }),
    {
        Size { width, height }
    }
}

impl Size<Length> {
    pub fn fixed(width: u16, height: u16) -> (r: Self)
        ensures
            r == (Size { width: Length::Fixed(width), height: Length::Fixed(height) }),
    {
        Size { width: Length::Fixed(width), height: Length::Fixed(height) }
    }

    pub fn preferred() -> (r: Self)
        ensures
            r == (Size { width: Length::Preferred, height: Length::Preferred }),
    {
        Size { width: Length::Preferred, height: Length::Preferred }
    }
}

} // verus!
