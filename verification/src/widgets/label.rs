use vstd::prelude::*;

use crate::buffer::buffer::rs_apply;
use crate::buffer::buffer::rs_lines_seq;
use crate::buffer::buffer::Buffer;
use crate::geometry::area::Area;
use crate::geometry::length::Length;
use crate::geometry::size::Size;
use crate::style::color::Color;
use crate::style::style::Style;
use crate::text::measurable;
use crate::text::spec_lines;
use crate::text::spec_text_size;
use crate::text::Text;

verus! {

/// A block of styled text, wrapped by default.
pub struct Label {
    pub text: Text,
    pub style: Style,
    pub wrap: bool,
    pub size_hint: Size<Length>,
}

pub fn label(content: &str) -> (r: Label)
    requires
        measurable(content@),
        spec_lines(content@).len() <= u16::MAX,
    ensures
        r.text.raw@ == content@,
        r.text.size == spec_text_size(content@),
        r.style == Style::spec_text_default(),
        r.wrap,
        r.size_hint == (Size { width: Length::Preferred, height: Length::Preferred }),
{
    Label::new(content)
}

impl Label {
    pub fn new(content: &str) -> (r: Self)
        requires
            measurable(content@),
            spec_lines(content@).len() <= u16::MAX,
        ensures
            r.text.raw@ == content@,
            r.text.size == spec_text_size(content@),
            r.style == Style::spec_text_default(),
            r.wrap,
            r.size_hint == (Size { width: Length::Preferred, height: Length::Preferred }),
    {
        Label {
            text: Text::new(content),
            style: Style::from_foreground(Color::Text),
            wrap: true,
            size_hint: Size::preferred(),
        }
    }

    pub fn content(self, content: &str) -> (r: Self)
        requires
            measurable(content@),
            spec_lines(content@).len() <= u16::MAX,
        ensures
            r.text.raw@ == content@,
            r.text.size == spec_text_size(content@),
            r.style == self.style,
            r.wrap == self.wrap,
            r.size_hint == self.size_hint,
    {
        let mut this = self;
        this.text.set(content);
        this
    }

    pub fn style(self, style: Style) -> (r: Self)
        ensures
            r == (Label { style, ..self }),
    {
        Label { style, ..self }
    }

    pub fn wrap(self, wrap: bool) -> (r: Self)
        ensures
            r == (Label { wrap, ..self }),
    {
        Label { wrap, ..self }
    }

    pub fn width(self, width: Length) -> (r: Self)
        ensures
            r.size_hint.width == width,
            r.size_hint.height == self.size_hint.height,
            r.text == self.text && r.style == self.style && r.wrap == self.wrap,
    {
        let mut this = self;
        this.size_hint = Size::new(width, this.size_hint.height);
        this
    }

    pub fn height(self, height: Length) -> (r: Self)
        ensures
            r.size_hint.height == height,
            r.size_hint.width == self.size_hint.width,
            r.text == self.text && r.style == self.style && r.wrap == self.wrap,
    {
        let mut this = self;
        this.size_hint = Size::new(this.size_hint.width, height);
        this
    }

    /// Lays the label's text into the area as a paragraph.
    pub fn render(&self, area: Area, buffer: &mut Buffer)
        requires
            old(buffer).inv(),
            area.wf(),
        ensures
            final(buffer).width == old(buffer).width,
            final(buffer).height == old(buffer).height,
            final(buffer).inv(),
            final(buffer).pixels@ == rs_apply(
                old(buffer).pixels@,
                old(buffer).width as int,
                old(buffer).height as int,
                spec_lines(self.text.raw@),
                area,
                self.style,
                self.wrap,
            ),
            Area::from_wh_spec(old(buffer).width, old(buffer).height).spec_intersect(
                area,
            ).spec_is_empty() ==> final(buffer).pixels@ == old(buffer).pixels@,
            !Area::from_wh_spec(old(buffer).width, old(buffer).height).spec_intersect(
                area,
            ).spec_is_empty() ==> final(buffer).pixels@ == rs_lines_seq(
                old(buffer).pixels@,
                old(buffer).width as int,
                old(buffer).height as int,
                spec_lines(self.text.raw@),
                0,
                Area::from_wh_spec(old(buffer).width, old(buffer).height).spec_intersect(
                    area,
                ).y as int,
                Area::from_wh_spec(old(buffer).width, old(buffer).height).spec_intersect(
                    area,
                ).x as int,
                Area::from_wh_spec(old(buffer).width, old(buffer).height).spec_intersect(area).x
                    + Area::from_wh_spec(old(buffer).width, old(buffer).height).spec_intersect(
                    area,
                ).width,
                Area::from_wh_spec(old(buffer).width, old(buffer).height).spec_intersect(area).y
                    + Area::from_wh_spec(old(buffer).width, old(buffer).height).spec_intersect(
                    area,
                ).height,
                self.style,
                self.wrap,
            ),
    {
        buffer.render_string(self.text.raw().as_str(), self.style, area, self.wrap);
    }

    /// The label's natural size: its text's displayed size.
    pub fn size(&self) -> (r: Size<u16>)
        ensures
            r == (Size { width: self.text.size.width, height: self.text.size.height }),
    {
        Size::new(self.text.size().width, self.text.size().height)
    }

    pub fn size_hint(&self) -> (r: Size<Length>)
        ensures
            r == self.size_hint,
    {
        self.size_hint
    }
}

} // verus!
