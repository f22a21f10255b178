use vstd::prelude::*;

use crate::buffer::buffer::bg_apply;
use crate::buffer::buffer::rs_apply;
use crate::buffer::buffer::Buffer;
use crate::buffer::pixel::Pixel;
use crate::event::Event;
use crate::event::MouseButton;
use crate::event::MouseKind;
use crate::geometry::area::Area;
use crate::geometry::length::Length;
use crate::geometry::size::Size;
use crate::geometry::spacing::Spacing;
use crate::shell::Shell;
use crate::style::color::spec_on_theme;
use crate::style::color::Color;
use crate::style::rgb::blend_channel;
use crate::style::rgb::RGB;
use crate::style::style::Style;
use crate::style::theme::Theme;
use crate::text::lemma_unbroken_line;
use crate::text::measurable;
use crate::text::spec_lines;
use crate::text::spec_text_size;
use crate::text::Text;

verus! {

/// A clickable region holding a padded line of text over a background,
/// with a lit top edge and a shaded bottom edge.
pub struct Button<Message> {
    pub padding: Spacing,
    pub content: Text,
    pub content_style: Style,
    pub background: Option<Color>,
    pub bounds: Area,
    pub on_click: Option<Message>,
    pub hovering: bool,
    pub size_hint: Size<Length>,
}

pub fn button<Message: Copy>(content: &str) -> (r: Button<Message>)
    requires
        measurable(content@),
        spec_lines(content@).len() <= u16::MAX,
    ensures
        r.content.raw@ == content@,
        r.on_click is None,
{
    Button::new(content)
}

/// The button edge tints: the background mixed one fifth toward white for
/// the lit edge, and one fifth toward black for the shaded edge.
pub open spec fn spec_brighter(base: RGB) -> RGB {
    RGB {
        r: blend_channel(255, 51, base.r),
        g: blend_channel(255, 51, base.g),
        b: blend_channel(255, 51, base.b),
    }
}

pub open spec fn spec_darker(base: RGB) -> RGB {
    RGB {
        r: blend_channel(0, 51, base.r),
        g: blend_channel(0, 51, base.g),
        b: blend_channel(0, 51, base.b),
    }
}

/// Whether the event is a pointer event inside the button's cached bounds.
pub open spec fn button_hovers<Message>(b: Button<Message>, event: Event) -> bool {
    match event {
        Event::Mouse(me) => b.bounds.spec_contains(me.column, me.row),
        _ => false,
    }
}

/// Whether the event is a left press inside the bounds of a button that
/// has a click message to emit.
pub open spec fn button_press_emits<Message>(b: Button<Message>, event: Event) -> bool {
    match event {
        Event::Mouse(me) => b.bounds.spec_contains(me.column, me.row) && me.kind
            == MouseKind::Down(MouseButton::Left) && b.on_click is Some,
        _ => false,
    }
}

impl<Message> Button<Message> {
    /// What `render` leaves in the grid, stage by stage.
    pub open spec fn spec_render(
        this: Button<Message>,
        area: Area,
        pixels: Seq<Pixel>,
        w: int,
        h: int,
        theme: Theme,
    ) -> Seq<Pixel> {
        let after_bg = bg_apply(pixels, w, h, area, this.background);
        let inner = if area.x + this.padding.left <= u16::MAX && area.y + this.padding.top
            <= u16::MAX {
            area.spec_shrink(this.padding)
        } else {
            Area { x: 0, y: 0, width: 0, height: 0 }
        };
        let after_text = rs_apply(
            after_bg,
            w,
            h,
            spec_lines(this.content.raw@),
            inner,
            this.content_style,
            true,
        );
        if area.spec_is_empty() || this.background is None {
            after_text
        } else {
            let base = spec_on_theme(this.background->0, theme);
            let bottom_line = Seq::new(area.width as nat, |i: int| '\u{2581}');
            let top_line = Seq::new(area.width as nat, |i: int| '\u{2594}');
            let after_bottom = rs_apply(
                after_text,
                w,
                h,
                if area.width == 0 {
                    Seq::empty()
                } else {
                    seq![bottom_line]
                },
                Area {
                    x: area.x,
                    y: (area.y + area.height - 1) as u16,
                    width: area.width,
                    height: 1,
                },
                Style {
                    foreground: Some(Color::RGB(spec_darker(base))),
                    background: None,
                    attributes: crate::style::attributes::Attributes { value: 0 },
                },
                false,
            );
            rs_apply(
                after_bottom,
                w,
                h,
                if area.width == 0 {
                    Seq::empty()
                } else {
                    seq![top_line]
                },
                Area { x: area.x, y: area.y, width: area.width, height: 1 },
                Style {
                    foreground: Some(Color::RGB(spec_brighter(base))),
                    background: None,
                    attributes: crate::style::attributes::Attributes { value: 0 },
                },
                false,
            )
        }
    }
}

impl<Message: Copy> Button<Message> {
    pub fn new(content: &str) -> (r: Self)
        requires
            measurable(content@),
            spec_lines(content@).len() <= u16::MAX,
        ensures
            r.padding == (Spacing { top: 1u16, right: 2u16, bottom: 1u16, left: 2u16 }),
            r.content.raw@ == content@,
            r.content.size == spec_text_size(content@),
            r.content_style == Style::spec_text_default(),
            r.background == Some(Color::Background),
            r.bounds == (Area { x: 0u16, y: 0u16, width: 0u16, height: 0u16 }),
            r.on_click is None,
            !r.hovering,
            r.size_hint == (Size { width: Length::Preferred, height: Length::Preferred }),
    {
        Button {
            padding: Spacing::axes(1, 2),
            content: Text::new(content),
            content_style: Style::from_foreground(Color::Text),
            background: Some(Color::Background),
            bounds: Area::zeros(),
            on_click: None,
            hovering: false,
            size_hint: Size::preferred(),
        }
    }

    pub fn on_click(self, message: Message) -> (r: Self)
        ensures
            r == (Button { on_click: Some(message), ..self }),
    {
        Button { on_click: Some(message), ..self }
    }

    pub fn content(self, content: &str) -> (r: Self)
        requires
            measurable(content@),
            spec_lines(content@).len() <= u16::MAX,
        ensures
            r.content.raw@ == content@,
            r.content.size == spec_text_size(content@),
            r.padding == self.padding && r.content_style == self.content_style && r.background
                == self.background && r.bounds == self.bounds && r.hovering == self.hovering
                && r.size_hint == self.size_hint,
    {
        let mut this = self;
        this.content.set(content);
        this
    }

    pub fn padding(self, padding: Spacing) -> (r: Self)
        ensures
            r == (Button { padding, ..self }),
    {
        Button { padding, ..self }
    }

    pub fn width(self, width: Length) -> (r: Self)
        ensures
            r.size_hint.width == width,
            r.size_hint.height == self.size_hint.height,
            r == (Button { size_hint: r.size_hint, ..self }),
    {
        let mut this = self;
        this.size_hint = Size::new(width, this.size_hint.height);
        this
    }

    pub fn height(self, height: Length) -> (r: Self)
        ensures
            r.size_hint.height == height,
            r.size_hint.width == self.size_hint.width,
            r == (Button { size_hint: r.size_hint, ..self }),
    {
        let mut this = self;
        this.size_hint = Size::new(this.size_hint.width, height);
        this
    }

    /// Caches the allotted bounds for event hit-testing.
    pub fn layout(&mut self, viewport: Area)
        ensures
            *final(self) == (Button { bounds: viewport, ..*old(self) }),
    {
        self.bounds = viewport;
    }

    /// A pointer event inside the cached bounds marks the button hovered,
    /// and a left press emits the click message, if one is set.
    pub fn process_event(&mut self, event: Event, shell: &mut Shell<Message>)
        requires
            old(self).bounds.wf(),
        ensures
            final(shell).event_captured == old(shell).event_captured,
            old(shell).event_captured ==> *final(self) == *old(self) && *final(shell) == *old(
                shell,
            ),
            !old(shell).event_captured ==> (match event {
                Event::Mouse(m) => {
                    &&& (old(self).bounds.spec_contains(m.column, m.row) ==> *final(self)
                        == (Button { hovering: true, ..*old(self) }))
                    &&& (!old(self).bounds.spec_contains(m.column, m.row) ==> *final(self)
                        == *old(self))
                    &&& (if old(self).bounds.spec_contains(m.column, m.row) && m.kind
                        == MouseKind::Down(MouseButton::Left) && old(self).on_click is Some {
                        final(shell).messages@ == old(shell).messages@.push(
                            old(self).on_click->0,
                        )
                    } else {
                        final(shell).messages@ == old(shell).messages@
                    })
                },
                _ => *final(self) == *old(self) && *final(shell) == *old(shell),
            }),
    {
        if shell.is_event_captured() {
            return ;
        }
        match event {
            Event::Mouse(m) => {
                if self.bounds.contains(m.column, m.row) {
                    self.hovering = true;
                    match m.kind {
                        MouseKind::Down(MouseButton::Left) => {
                            match self.on_click {
                                Some(message) => {
                                    shell.push(message);
                                },
                                None => {},
                            }
                        },
                        _ => {},
                    }
                }
            },
            _ => {},
        }
    }

    /// Paints the background over the whole area, lays the padded content
    /// over it, then draws the shaded bottom edge and the lit top edge.
    pub fn render(&self, area: Area, buffer: &mut Buffer, theme: &Theme)
        requires
            old(buffer).inv(),
            area.wf(),
            self.padding.wf(),
        ensures
            final(buffer).width == old(buffer).width,
            final(buffer).height == old(buffer).height,
            final(buffer).inv(),
            final(buffer).pixels@ == Self::spec_render(
                *self,
                area,
                old(buffer).pixels@,
                old(buffer).width as int,
                old(buffer).height as int,
                *theme,
            ),
    {
        let ghost w = old(buffer).width as int;
        let ghost h = old(buffer).height as int;
        buffer.render_background(area, self.background);
        let fits = (area.x as u32) + (self.padding.left as u32) <= 65535 && (area.y as u32)
            + (self.padding.top as u32) <= 65535;
        let inner = if fits {
            area.shrink(self.padding)
        } else {
            Area::zeros()
        };
        buffer.render_string(self.content.raw().as_str(), self.content_style, inner, true);
        if !area.is_empty() {
            match self.background {
                Some(background) => {
                    let base = background.on_theme(theme);
                    let mut highlight = RGB::from_rgb(255, 255, 255);
                    highlight.alpha_on(51, base);
                    let mut shadow = RGB::from_rgb(0, 0, 0);
                    shadow.alpha_on(51, base);
                    let bottom = crate::strnum::repeat_char('\u{2581}', area.width as usize);
                    let top = crate::strnum::repeat_char('\u{2594}', area.width as usize);
                    proof {
                        lemma_unbroken_line(bottom@);
                        lemma_unbroken_line(top@);
                    }
                    buffer.render_string(
                        bottom.as_str(),
                        Style::from_foreground(Color::RGB(shadow)),
                        Area::new(area.x, area.y + area.height - 1, area.width, 1),
                        false,
                    );
                    buffer.render_string(
                        top.as_str(),
                        Style::from_foreground(Color::RGB(highlight)),
                        Area::new(area.x, area.y, area.width, 1),
                        false,
                    );
                },
                None => {},
            }
        }
    }

    /// The button's natural size: its content plus its padding.
    pub fn size(&self) -> (r: Size<u16>)
        requires
            self.content.size.width + self.padding.left + self.padding.right <= u16::MAX,
            self.content.size.height + self.padding.top + self.padding.bottom <= u16::MAX,
        ensures
            r.width == self.content.size.width + self.padding.left + self.padding.right,
            r.height == self.content.size.height + self.padding.top + self.padding.bottom,
    {
        Size::new(
            self.content.size().width + self.padding.left + self.padding.right,
            self.content.size().height + self.padding.top + self.padding.bottom,
        )
    }

    pub fn size_hint(&self) -> (r: Size<Length>)
        ensures
            r == self.size_hint,
    {
        self.size_hint
    }
}

} // verus!
