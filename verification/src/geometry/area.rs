use vstd::math::max;
use vstd::math::min;
use vstd::prelude::*;

use crate::geometry::size::Size;
use crate::geometry::spacing::Spacing;

verus! {

/// An axis-aligned rectangle in cell coordinates. A zero-width or
/// zero-height area is the canonical "empty" value.
#[derive(Debug, Clone, Copy, PartialEq, Eq, Structural)]
pub struct Area {
    pub x: u16,
    pub y: u16,
    pub width: u16,
    pub height: u16,
}

impl Area {
    /// The far corner must stay within `u16`, so that corner arithmetic
    /// cannot overflow.
    pub open spec fn wf(self) -> bool {
        self.x + self.width <= u16::MAX && self.y + self.height <= u16::MAX
    }

    pub open spec fn spec_is_empty(self) -> bool {
        self.width == 0 || self.height == 0
    }

    /// Two areas overlap when they share at least one cell.
    pub open spec fn overlaps(self, other: Self) -> bool {
        &&& max(self.x as int, other.x as int) < min(
            self.x + self.width,
            other.x + other.width,
        )
        &&& max(self.y as int, other.y as int) < min(
            self.y + self.height,
            other.y + other.height,
        )
    }

    pub open spec fn spec_intersect(self, other: Self) -> Area {
        let x1 = max(self.x as int, other.x as int);
        let y1 = max(self.y as int, other.y as int);
        let x2 = min(self.x + self.width, other.x + other.width);
        let y2 = min(self.y + self.height, other.y + other.height);
        if x2 <= x1 || y2 <= y1 {
            Area { x: 0, y: 0, width: 0, height: 0 }
        } else {
            Area { x: x1 as u16, y: y1 as u16, width: (x2 - x1) as u16, height: (y2 - y1) as u16 }
        }
    }

    pub open spec fn spec_shrink(self, padding: Spacing) -> Area {
        Area {
            x: (self.x + padding.left) as u16,
            y: (self.y + padding.top) as u16,
            width: if self.width >= padding.left + padding.right {
                (self.width - (padding.left + padding.right)) as u16
            } else {
                0u16
            },
            height: if self.height >= padding.top + padding.bottom {
                (self.height - (padding.top + padding.bottom)) as u16
            } else {
                0u16
            },
        }
    }

    pub open spec fn from_wh_spec(width: u16, height: u16) -> Area {
        Area { x: 0, y: 0, width, height }
    }

    pub open spec fn spec_contains(self, x: u16, y: u16) -> bool {
        self.x <= x < self.x + self.width && self.y <= y < self.y + self.height
    }

    pub fn new(x: u16, y: u16, width: u16, height: u16) -> (r: Self)
        ensures
            r == (Area { x, y, width, height }),
    {
        Area { x, y, width, height }
    }

    pub fn zeros() -> (r: Self)
        ensures
            r == (Area { x: 0u16, y: 0u16, width: 0u16, height: 0u16 }),
    {
        Area { x: 0, y: 0, width: 0, height: 0 }
    }

    /// A new area with the given size, starting at the (0, 0) corner.
    pub fn from_size(size: Size<u16>) -> (r: Self)
        ensures
            r == (Area { x: 0u16, y: 0u16, width: size.width, height: size.height }),
    {
        Area { x: 0, y: 0, width: size.width, height: size.height }
    }

    pub fn from_wh(width: u16, height: u16) -> (r: Self)
        ensures
            r == (Area { x: 0u16, y: 0u16, width, height }),
    {
        Area { x: 0, y: 0, width, height }
    }

    pub fn is_empty(&self) -> (r: bool)
        ensures
            r == self.spec_is_empty(),
    {
        self.width == 0 || self.height == 0
    }

    /// The overlapping rectangle of two areas, or the canonical empty area
    /// when they do not overlap.
    pub fn intersect(&self, other: Self) -> (r: Self)
        requires
            self.wf(),
            other.wf(),
        ensures
            r == self.spec_intersect(other),
            r.spec_is_empty() <==> !self.overlaps(other),
            r.wf(),
    {
        let x1 = if self.x >= other.x { self.x } else { other.x };
        let y1 = if self.y >= other.y { self.y } else { other.y };
        let sx2 = self.x + self.width;
        let ox2 = other.x + other.width;
        let sy2 = self.y + self.height;
        let oy2 = other.y + other.height;
        let x2 = if sx2 <= ox2 { sx2 } else { ox2 };
        let y2 = if sy2 <= oy2 { sy2 } else { oy2 };

        if x2 <= x1 || y2 <= y1 {
            Area { x: 0, y: 0, width: 0, height: 0 }
        } else {
            Area { x: x1, y: y1, width: x2 - x1, height: y2 - y1 }
        }
    }

    /// (left, top, right, bottom) edges of the area.
    pub fn corners(&self) -> (r: (u16, u16, u16, u16))
        requires
            self.wf(),
        ensures
            r == (self.x, self.y, (self.x + self.width) as u16, (self.y + self.height) as u16),
    {
        (self.x, self.y, self.x + self.width, self.y + self.height)
    }

    /// Moves the origin in by (left, top) and reduces the size by the
    /// spacing's extents, saturating at zero: padding can never produce a
    /// negative size.
    pub fn shrink(&self, padding: Spacing) -> (r: Self)
        requires
            self.wf(),
            padding.wf(),
            self.x + padding.left <= u16::MAX,
            self.y + padding.top <= u16::MAX,
        ensures
            r == self.spec_shrink(padding),
    {
        let lr = padding.left + padding.right;
        let tb = padding.top + padding.bottom;
        Area {
            x: self.x + padding.left,
            y: self.y + padding.top,
            width: if self.width >= lr {
                self.width - lr
            } else {
                0
            },
            height: if self.height >= tb {
                self.height - tb
            } else {
                0
            },
        }
    }

    /// Half-open containment test.
    pub fn contains(&self, x: u16, y: u16) -> (r: bool)
        requires
            self.wf(),
        ensures
            r == self.spec_contains(x, y),
    {
        x >= self.x && x < self.x + self.width && y >= self.y && y < self.y + self.height
    }
}

/// Intersection is commutative, and the result is empty exactly when the two
/// areas do not overlap.
pub proof fn lemma_intersect_commutes(a: Area, b: Area)
    requires
        a.wf(),
        b.wf(),
    ensures
        a.spec_intersect(b) == b.spec_intersect(a),
        a.spec_intersect(b).spec_is_empty() <==> !a.overlaps(b),
{
}

/// Shrinking never produces a negative size: when the spacing fits, the new
/// size is the old size minus the spacing's extents, and otherwise the size
/// saturates at zero.
pub proof fn lemma_shrink_saturates(a: Area, s: Spacing)
    requires
        a.wf(),
        s.wf(),
    ensures
        s.left + s.right <= a.width ==> a.spec_shrink(s).width == a.width - s.left - s.right,
        s.top + s.bottom <= a.height ==> a.spec_shrink(s).height == a.height - s.top - s.bottom,
        s.left + s.right > a.width ==> a.spec_shrink(s).width == 0,
        s.top + s.bottom > a.height ==> a.spec_shrink(s).height == 0,
{
}

} // verus!
