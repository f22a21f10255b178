use vstd::prelude::*;

use crate::geometry::area::Area;
use crate::geometry::length::Length;
use crate::geometry::size::Size;
use crate::style::color::Color;
use crate::widget::element::Element;

verus! {

/// Where children sit on the cross axis of a vertical stack.
#[derive(Debug, Clone, Copy, PartialEq, Eq, Structural)]
pub enum HorizontalAlignment {
    Start,
    Center,
    End,
}

/// A container stacking its children top to bottom, separated by a
/// configured spacing, with a cross-axis alignment.
pub struct Vertical<Message> {
    pub children: Vec<Element<Message>>,
    pub alignment: HorizontalAlignment,
    pub background: Option<Color>,
    pub children_bounds: Vec<Area>,
    pub preferred_size: Size<u16>,
    pub size_hint: Size<Length>,
    pub spacing: u16,
}

/// The widest natural child width, capped at the largest cell count.
pub open spec fn spec_max_width<Message>(children: Seq<Element<Message>>) -> int
    decreases children.len(),
{
    if children.len() == 0 {
        0
    } else {
        let rest = spec_max_width(children.drop_last());
        let lastw = children.last().spec_size().width as int;
        if lastw >= rest {
            lastw
        } else {
            rest
        }
    }
}

/// The natural child heights summed, saturating at the largest cell count.
pub open spec fn spec_height_sum<Message>(children: Seq<Element<Message>>) -> int
    decreases children.len(),
{
    if children.len() == 0 {
        0
    } else {
        let s = spec_height_sum(children.drop_last()) + children.last().spec_size().height;
        if s > 65535 {
            65535
        } else {
            s
        }
    }
}

impl<Message: Copy> Vertical<Message> {
    /// An empty stack.
    pub fn new() -> (r: Self)
        ensures
            r.children@.len() == 0,
            r.children_bounds@.len() == 0,
            r.alignment == HorizontalAlignment::Start,
            r.background is None,
            r.preferred_size == (Size { width: 0u16, height: 0u16 }),
            r.size_hint == (Size { width: Length::Preferred, height: Length::Preferred }),
            r.spacing == 0,
    {
        Vertical {
            children: Vec::new(),
            alignment: HorizontalAlignment::Start,
            background: None,
            children_bounds: Vec::new(),
            preferred_size: Size::new(0, 0),
            size_hint: Size::preferred(),
            spacing: 0,
        }
    }

    /// A stack over the given children; its natural size is the widest
    /// child by the summed child heights, the sum saturating at the
    /// largest cell count.
    pub fn with_children(children: Vec<Element<Message>>) -> (r: Self)
        requires
            forall|i: int| 0 <= i < children@.len() ==> (#[trigger] children@[i]).wf(),
        ensures
            r.children@ == children@,
            r.children_bounds@.len() == children@.len(),
            forall|i: int|
                0 <= i < children@.len() ==> #[trigger] r.children_bounds@[i] == (Area {
                    x: 0u16,
                    y: 0u16,
                    width: 0u16,
                    height: 0u16,
                }),
            r.alignment == HorizontalAlignment::Start,
            r.background is None,
            r.preferred_size.width == spec_max_width(children@),
            r.preferred_size.height == spec_height_sum(children@),
            r.size_hint == (Size { width: Length::Preferred, height: Length::Preferred }),
            r.spacing == 0,
    {
        let mut children_bounds: Vec<Area> = Vec::new();
        let mut width: u16 = 0;
        let mut height: u16 = 0;
        let mut i: usize = 0;
        while i < children.len()
            invariant
                i <= children@.len(),
                forall|k: int| 0 <= k < children@.len() ==> (#[trigger] children@[k]).wf(),
                children_bounds@.len() == i,
                forall|k: int|
                    0 <= k < i ==> #[trigger] children_bounds@[k] == (Area {
                        x: 0u16,
                        y: 0u16,
                        width: 0u16,
                        height: 0u16,
                    }),
                width as int == spec_max_width(children@.take(i as int)),
                height as int == spec_height_sum(children@.take(i as int)),
            decreases children@.len() - i,
        {
            proof {
                assert(children@.take(i + 1).drop_last() =~= children@.take(i as int));
                assert(children@.take(i + 1).last() == children@[i as int]);
            }
            children_bounds.push(Area::zeros());
            let size = children[i].size();
            if size.width > width {
                width = size.width;
            }
            let sum: u32 = height as u32 + size.height as u32;
            height = if sum > 65535 {
                65535
            } else {
                sum as u16
            };
            i += 1;
        }
        proof {
            assert(children@.take(children@.len() as int) =~= children@);
        }
        Vertical {
            children,
            alignment: HorizontalAlignment::Start,
            background: None,
            children_bounds,
            preferred_size: Size::new(width, height),
            size_hint: Size::preferred(),
            spacing: 0,
        }
    }

    pub fn alignment(self, alignment: HorizontalAlignment) -> (r: Self)
        ensures
            r == (Vertical { alignment, ..self }),
    {
        Vertical { alignment, ..self }
    }

    pub fn background(self, background: Option<Color>) -> (r: Self)
        ensures
            r == (Vertical { background, ..self }),
    {
        Vertical { background, ..self }
    }

    pub fn width(self, width: Length) -> (r: Self)
        ensures
            r.size_hint.width == width,
            r.size_hint.height == self.size_hint.height,
            r == (Vertical { size_hint: r.size_hint, ..self }),
    {
        let mut this = self;
        this.size_hint = Size::new(width, this.size_hint.height);
        this
    }

    pub fn height(self, height: Length) -> (r: Self)
        ensures
            r.size_hint.height == height,
            r.size_hint.width == self.size_hint.width,
            r == (Vertical { size_hint: r.size_hint, ..self }),
    {
        let mut this = self;
        this.size_hint = Size::new(this.size_hint.width, height);
        this
    }

    pub fn spacing(self, spacing: u16) -> (r: Self)
        ensures
            r == (Vertical { spacing, ..self }),
    {
        Vertical { spacing, ..self }
    }
}

} // verus!
