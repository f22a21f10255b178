use vstd::prelude::*;

use crate::buffer::buffer::rs_apply;
use crate::buffer::buffer::rs_lines_seq;
use crate::buffer::buffer::Buffer;
use crate::geometry::area::Area;
use crate::geometry::length::Length;
use crate::geometry::size::Size;
use crate::style::color::Color;
use crate::style::style::Style;
use crate::text::measurable;
use crate::text::spec_lines;
use crate::text::spec_text_size;
use crate::widget::element::Element;

verus! {

/// A fixed-size run of styled text that always reports its measured size.
pub struct Text {
    pub content: String,
    pub size: Size<u16>,
    pub style: Style,
    pub wrap: bool,
}

/// Wraps a text widget straight into an element.
pub fn text<Message>(content: &str) -> (r: Element<Message>)
    requires
        measurable(content@),
        spec_lines(content@).len() <= u16::MAX,
    ensures
        r matches Element::Text(t) && t.content@ == content@ && t.size == spec_text_size(
            content@,
        ),
{
    Element::Text(Text::new(content))
}

impl Text {
    pub fn new(content: &str) -> (r: Self)
        requires
            measurable(content@),
            spec_lines(content@).len() <= u16::MAX,
        ensures
            r.content@ == content@,
            r.size == spec_text_size(content@),
            r.style == Style::spec_text_default(),
            r.wrap,
    {
        let size = crate::text::Text::size_of(content);
        Text {
            content: content.to_owned(),
            size,
            style: Style::from_foreground(Color::Text),
            wrap: true,
        }
    }

    pub fn content(self, content: &str) -> (r: Self)
        requires
            measurable(content@),
            spec_lines(content@).len() <= u16::MAX,
        ensures
            r.content@ == content@,
            r.size == spec_text_size(content@),
            r.style == self.style,
            r.wrap == self.wrap,
    {
        let size = crate::text::Text::size_of(content);
        Text { content: content.to_owned(), size, style: self.style, wrap: self.wrap }
    }

    pub fn style(self, style: Style) -> (r: Self)
        ensures
            r == (Text { style, ..self }),
    {
        Text { style, ..self }
    }

    pub fn wrap(self, wrap: bool) -> (r: Self)
        ensures
            r == (Text { wrap, ..self }),
    {
        Text { wrap, ..self }
    }

    /// Lays the text into the whole destination buffer as a paragraph.
    pub fn render(&self, buffer: &mut Buffer)
        requires
            old(buffer).inv(),
        ensures
            final(buffer).width == old(buffer).width,
            final(buffer).height == old(buffer).height,
            final(buffer).inv(),
            final(buffer).pixels@ == rs_apply(
                old(buffer).pixels@,
                old(buffer).width as int,
                old(buffer).height as int,
                spec_lines(self.content@),
                Area::from_wh_spec(old(buffer).width, old(buffer).height),
                self.style,
                self.wrap,
            ),
            old(buffer).width == 0 || old(buffer).height == 0 ==> final(buffer).pixels@ == old(
                buffer,
            ).pixels@,
            old(buffer).width > 0 && old(buffer).height > 0 ==> final(buffer).pixels@
                == rs_lines_seq(
                old(buffer).pixels@,
                old(buffer).width as int,
                old(buffer).height as int,
                spec_lines(self.content@),
                0,
                0,
                0,
                old(buffer).width as int,
                old(buffer).height as int,
                self.style,
                self.wrap,
            ),
    {
        let area = Area::new(0, 0, buffer.width(), buffer.height());
        buffer.render_string(self.content.as_str(), self.style, area, self.wrap);
    }

    /// The size the widget claims in a layout: its measured size, fixed.
    pub fn size_hint(&self) -> (r: Size<Length>)
        ensures
            r == (Size {
                width: Length::Fixed(self.size.width),
                height: Length::Fixed(self.size.height),
            }),
    {
        Size::new(Length::Fixed(self.size.width), Length::Fixed(self.size.height))
    }
}

} // verus!
