use vstd::math::min;
use vstd::prelude::*;

use crate::buffer::buffer::bg_apply;
use crate::buffer::buffer::blank_grid;
use crate::buffer::buffer::comp_rows_seq;
use crate::buffer::buffer::view_rows_seq;
use crate::buffer::buffer::Buffer;
use crate::event::Event;
use crate::geometry::area::Area;
use crate::geometry::length::Length;
use crate::shell::Shell;
use crate::style::color::Color;
use crate::style::color::ColorSystem;
use crate::style::theme::Theme;
use crate::widget::element::Element;

verus! {

/// The bounds the root element is laid out into: fixed extents from its
/// size hint are taken as given, anything else fills the viewport.
pub open spec fn root_bounds<Message>(e: Element<Message>, viewport: Area) -> Area {
    Area {
        x: 0,
        y: 0,
        width: match e.spec_size_hint().width {
            Length::Fixed(w) => w,
            _ => viewport.width,
        },
        height: match e.spec_size_hint().height {
            Length::Fixed(h) => h,
            _ => viewport.height,
        },
    }
}

/// The root of a widget tree: one optional element, the frame buffer it is
/// rasterized into, and an optional backdrop color.
pub struct Screen<Message> {
    pub element: Option<Element<Message>>,
    pub widget_bounds: Area,
    pub buffer: Buffer,
    pub background: Option<Color>,
}

impl<Message: Copy> Screen<Message> {
    pub open spec fn wf(self) -> bool {
        &&& self.buffer.inv()
        &&& self.widget_bounds.wf()
        &&& (self.element matches Some(e) ==> e.wf())
    }

    /// An empty screen over a frame buffer of the given size.
    pub fn new(width: u16, height: u16) -> (r: Self)
        requires
            width * height <= u16::MAX,
        ensures
            r.wf(),
            r.element is None,
            r.buffer.width == width,
            r.buffer.height == height,
            r.buffer.pixels@ == blank_grid(width as int, height as int),
            r.background is None,
    {
        Screen {
            element: None,
            widget_bounds: Area::zeros(),
            buffer: Buffer::new(width, height),
            background: None,
        }
    }

    /// A screen holding the given element.
    pub fn with_element(element: Element<Message>, width: u16, height: u16) -> (r: Self)
        requires
            element.wf(),
            width * height <= u16::MAX,
        ensures
            r.wf(),
            r.element == Some(element),
            r.buffer.width == width,
            r.buffer.height == height,
            r.buffer.pixels@ == blank_grid(width as int, height as int),
            r.background is None,
    {
        Screen {
            element: Some(element),
            widget_bounds: Area::zeros(),
            buffer: Buffer::new(width, height),
            background: None,
        }
    }

    pub fn set_element(&mut self, element: Element<Message>)
        requires
            element.wf(),
        ensures
            final(self).element == Some(element),
            final(self).widget_bounds == old(self).widget_bounds,
            final(self).buffer == old(self).buffer,
            final(self).background == old(self).background,
    {
        self.element = Some(element);
    }

    pub fn drop_element(&mut self)
        ensures
            final(self).element is None,
            final(self).widget_bounds == old(self).widget_bounds,
            final(self).buffer == old(self).buffer,
            final(self).background == old(self).background,
    {
        self.element = None;
    }

    /// Replaces the frame buffer with one of the new size, repainted in
    /// the backdrop color.
    pub fn resize(&mut self, width: u16, height: u16)
        requires
            old(self).wf(),
            width * height <= u16::MAX,
        ensures
            final(self).wf(),
            final(self).buffer.width == width,
            final(self).buffer.height == height,
            final(self).buffer.pixels@ == bg_apply(
                blank_grid(width as int, height as int),
                width as int,
                height as int,
                Area::from_wh_spec(width, height),
                old(self).background,
            ),
            final(self).element == old(self).element,
            final(self).background == old(self).background,
            final(self).widget_bounds == old(self).widget_bounds,
    {
        self.buffer = Buffer::new(width, height);
        let full = Area::from_wh(width, height);
        self.buffer.render_background(full, self.background);
    }

    pub fn width(&self) -> (r: u16)
        ensures
            r == self.buffer.width,
    {
        self.buffer.width()
    }

    pub fn height(&self) -> (r: u16)
        ensures
            r == self.buffer.height,
    {
        self.buffer.height()
    }

    pub fn background(&self) -> (r: Option<Color>)
        ensures
            r == self.background,
    {
        self.background
    }

    /// Changes the backdrop color and repaints the frame buffer's
    /// background with it.
    pub fn set_background(&mut self, color: Option<Color>)
        requires
            old(self).wf(),
        ensures
            final(self).wf(),
            final(self).background == color,
            final(self).element == old(self).element,
            final(self).widget_bounds == old(self).widget_bounds,
            final(self).buffer.width == old(self).buffer.width,
            final(self).buffer.height == old(self).buffer.height,
            final(self).buffer.pixels@ == bg_apply(
                old(self).buffer.pixels@,
                old(self).buffer.width as int,
                old(self).buffer.height as int,
                Area::from_wh_spec(old(self).buffer.width, old(self).buffer.height),
                color,
            ),
    {
        self.background = color;
        let full = Area::from_wh(self.buffer.width(), self.buffer.height());
        self.buffer.render_background(full, color);
    }

    /// Computes the element's bounds from its size hint and lays it out:
    /// fixed extents are taken as given, anything else fills the viewport.
    pub fn layout(&mut self, viewport: Area)
        requires
            old(self).wf(),
            viewport.wf(),
        ensures
            final(self).wf(),
            final(self).background == old(self).background,
            final(self).buffer == old(self).buffer,
            old(self).element is None ==> *final(self) == *old(self),
            old(self).element is Some ==> final(self).widget_bounds == root_bounds(
                old(self).element->0,
                viewport,
            ) && final(self).element is Some && (old(self).element->0).layout_rel(
                root_bounds(old(self).element->0, viewport),
                final(self).element->0,
            ),
    {
        match self.element.take() {
            Some(e) => {
                let hint = e.size_hint();
                let width = match hint.width {
                    Length::Fixed(w) => w,
                    _ => viewport.width,
                };
                let height = match hint.height {
                    Length::Fixed(h) => h,
                    _ => viewport.height,
                };
                let bounds = Area::new(0, 0, width, height);
                let e2 = e.layout(bounds);
                self.element = Some(e2);
                self.widget_bounds = bounds;
            },
            None => {},
        }
    }

    /// Rasterizes the element into a scratch buffer over its cached
    /// bounds, composites that onto the frame buffer, and serializes the
    /// frame to escape sequences. Degenerate bounds draw nothing.
    pub fn draw(&mut self, system: ColorSystem, theme: &Theme) -> (r: String)
        requires
            old(self).wf(),
        ensures
            final(self).wf(),
            final(self).element == old(self).element,
            final(self).background == old(self).background,
            final(self).widget_bounds == old(self).widget_bounds,
            final(self).buffer.width == old(self).buffer.width,
            final(self).buffer.height == old(self).buffer.height,
            r@ == view_rows_seq(
                final(self).buffer.pixels@,
                old(self).buffer.width as int,
                old(self).buffer.height as int,
                0,
                system,
                *theme,
            ),
            old(self).element is Some && old(self).widget_bounds.width
                * old(self).widget_bounds.height <= u16::MAX && old(self).buffer.width > 0
                ==> final(self).buffer.pixels@ == comp_rows_seq(
                old(self).buffer.pixels@,
                old(self).buffer.width as int,
                old(self).buffer.height as int,
                (old(self).element->0).spec_render(
                    Area::from_wh_spec(old(self).widget_bounds.width, old(self).widget_bounds.height),
                    blank_grid(
                        old(self).widget_bounds.width as int,
                        old(self).widget_bounds.height as int,
                    ),
                    old(self).widget_bounds.width as int,
                    old(self).widget_bounds.height as int,
                    *theme,
                ),
                old(self).widget_bounds.width as int,
                0,
                0,
                min(old(self).widget_bounds.width as int, old(self).buffer.width as int),
                min(old(self).widget_bounds.height as int, old(self).buffer.height as int),
                0,
            ),
            !(old(self).element is Some && old(self).widget_bounds.width
                * old(self).widget_bounds.height <= u16::MAX && old(self).buffer.width > 0)
                ==> final(self).buffer.pixels@ == old(self).buffer.pixels@,
    {
        let wb = self.widget_bounds;
        proof {
            assert((wb.width as u64) * (wb.height as u64) < 0x1_0000_0000u64) by (nonlinear_arith)
                requires
                    0 <= wb.width <= 65535,
                    0 <= wb.height <= 65535,
            {
            }
        }
        let fits = (wb.width as u64) * (wb.height as u64) <= 65535 && self.buffer.width() > 0;
        match &self.element {
            Some(e) => {
                if fits {
                    proof {
                        assert(wb.width * wb.height <= u16::MAX);
                    }
                    let mut scratch = Buffer::new(wb.width, wb.height);
                    let full = Area::from_wh(wb.width, wb.height);
                    e.render(full, &mut scratch, theme);
                    self.buffer.render(0, 0, &scratch);
                }
            },
            None => {},
        }
        self.buffer.view(system, theme)
    }

    /// Hands one input event to the element, unless some earlier widget
    /// already captured it.
    pub fn process_event(&mut self, event: Event, shell: &mut Shell<Message>)
        requires
            old(self).wf(),
        ensures
            final(self).wf(),
            final(self).widget_bounds == old(self).widget_bounds,
            final(self).background == old(self).background,
            final(self).buffer == old(self).buffer,
            old(shell).event_captured ==> *final(self) == *old(self) && *final(shell) == *old(
                shell,
            ),
            !old(shell).event_captured && old(self).element is None ==> *final(self) == *old(self)
                && *final(shell) == *old(shell),
            !old(shell).event_captured && old(self).element is Some ==> final(shell).messages@
                == (old(self).element->0).spec_event_shell(
                event,
                old(shell).messages@,
                false,
            ).0 && final(shell).event_captured == (old(self).element->0).spec_event_shell(
                event,
                old(shell).messages@,
                false,
            ).1 && final(self).element is Some && (old(self).element->0).event_elem_rel(
                event,
                old(shell).messages@,
                false,
                final(self).element->0,
            ),
    {
        if shell.is_event_captured() {
            return ;
        }
        match self.element.take() {
            Some(e) => {
                let e2 = e.process_event(event, shell);
                self.element = Some(e2);
            },
            None => {},
        }
    }
}

} // verus!
