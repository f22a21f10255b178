use vstd::prelude::*;

use crate::geometry::area::Area;
use crate::geometry::length::Length;
use crate::geometry::size::Size;
use crate::geometry::spacing::Spacing;
use crate::style::color::Color;
use crate::widget::element::Element;

verus! {

/// A wrapper that insets one child by a spacing, optionally painting a
/// background behind it.
pub struct Padding<Message> {
    pub element: Element<Message>,
    pub widget_bounds: Area,
    pub padding: Spacing,
    pub background: Option<Color>,
    pub size_hint: Size<Length>,
}

impl<Message: Copy> Padding<Message> {
    pub fn new(
        element: Element<Message>,
        padding_top: u16,
        padding_right: u16,
        padding_bottom: u16,
        padding_left: u16,
    ) -> (r: Self)
        ensures
            r.element == element,
            r.widget_bounds == (Area { x: 0u16, y: 0u16, width: 0u16, height: 0u16 }),
            r.padding == (Spacing {
                top: padding_top,
                right: padding_right,
                bottom: padding_bottom,
                left: padding_left,
            }),
            r.background is None,
            r.size_hint == (Size { width: Length::Preferred, height: Length::Preferred }),
    {
        Padding {
            element,
            widget_bounds: Area::zeros(),
            padding: Spacing::new(padding_top, padding_right, padding_bottom, padding_left),
            background: None,
            size_hint: Size::preferred(),
        }
    }

    pub fn axes(element: Element<Message>, padding_y: u16, padding_x: u16) -> (r: Self)
        ensures
            r.element == element,
            r.padding == (Spacing {
                top: padding_y,
                right: padding_x,
                bottom: padding_y,
                left: padding_x,
            }),
            r.background is None,
            r.widget_bounds == (Area { x: 0u16, y: 0u16, width: 0u16, height: 0u16 }),
            r.size_hint == (Size { width: Length::Preferred, height: Length::Preferred }),
    {
        Padding {
            element,
            widget_bounds: Area::zeros(),
            padding: Spacing::axes(padding_y, padding_x),
            background: None,
            size_hint: Size::preferred(),
        }
    }

    pub fn vertical(element: Element<Message>, padding_y: u16) -> (r: Self)
        ensures
            r.element == element,
            r.padding == (Spacing { top: padding_y, right: 0u16, bottom: padding_y, left: 0u16 }),
            r.background is None,
            r.widget_bounds == (Area { x: 0u16, y: 0u16, width: 0u16, height: 0u16 }),
            r.size_hint == (Size { width: Length::Preferred, height: Length::Preferred }),
    {
        Padding {
            element,
            widget_bounds: Area::zeros(),
            padding: Spacing::vertical(padding_y),
            background: None,
            size_hint: Size::preferred(),
        }
    }

    pub fn horizontal(element: Element<Message>, padding_x: u16) -> (r: Self)
        ensures
            r.element == element,
            r.padding == (Spacing { top: 0u16, right: padding_x, bottom: 0u16, left: padding_x }),
            r.background is None,
            r.widget_bounds == (Area { x: 0u16, y: 0u16, width: 0u16, height: 0u16 }),
            r.size_hint == (Size { width: Length::Preferred, height: Length::Preferred }),
    {
        Padding {
            element,
            widget_bounds: Area::zeros(),
            padding: Spacing::horizontal(padding_x),
            background: None,
            size_hint: Size::preferred(),
        }
    }

    pub fn background(self, background: Option<Color>) -> (r: Self)
        ensures
            r == (Padding { background, ..self }),
    {
        Padding { background, ..self }
    }

    pub fn width(self, width: Length) -> (r: Self)
        ensures
            r.size_hint.width == width,
            r.size_hint.height == self.size_hint.height,
            r == (Padding { size_hint: r.size_hint, ..self }),
    {
        let mut this = self;
        this.size_hint = Size::new(width, this.size_hint.height);
        this
    }

    pub fn height(self, height: Length) -> (r: Self)
        ensures
            r.size_hint.height == height,
            r.size_hint.width == self.size_hint.width,
            r == (Padding { size_hint: r.size_hint, ..self }),
    {
        let mut this = self;
        this.size_hint = Size::new(this.size_hint.width, height);
        this
    }
}

} // verus!
