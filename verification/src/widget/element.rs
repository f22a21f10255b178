use vstd::math::min;
use vstd::prelude::*;

use crate::buffer::buffer::bg_apply;
use crate::buffer::buffer::rs_apply;
use crate::buffer::buffer::Buffer;
use crate::buffer::pixel::Pixel;
use crate::event::Event;
use crate::geometry::area::Area;
use crate::geometry::length::resolve_spec;
use crate::geometry::length::seq_sum;
use crate::geometry::length::Length;
use crate::geometry::size::Size;
use crate::geometry::spacing::Spacing;
use crate::shell::Shell;
use crate::style::theme::Theme;
use crate::text::spec_lines;
use crate::widgets::button::button_hovers;
use crate::widgets::button::button_press_emits;
use crate::widgets::button::Button;
use crate::widgets::label::Label;
use crate::widgets::padding::Padding;
use crate::widgets::text::Text;
use crate::widgets::vertical::HorizontalAlignment;
use crate::widgets::vertical::Vertical;

verus! {

/// An owned handle to exactly one widget. The widget set is closed, so the
/// type-erased handle is a tagged variant over the known widget kinds.
pub enum Element<Message> {
    Button(Button<Message>),
    Label(Label),
    Text(Text),
    Vertical(Vertical<Message>),
    Padding(Box<Padding<Message>>),
}

pub open spec fn clamp_u16(v: int) -> u16 {
    if v > 65535 {
        65535u16
    } else if v < 0 {
        0u16
    } else {
        v as u16
    }
}

pub open spec fn sat_sub(a: int, b: int) -> int {
    if a >= b {
        a - b
    } else {
        0
    }
}

/// A child's cross-axis width in a vertical stack: preferred and fixed
/// widths are capped at the viewport, anything else fills it.
pub open spec fn child_width(hint: Length, natural: u16, vp: Area) -> u16 {
    match hint {
        Length::Preferred => if natural <= vp.width {
            natural
        } else {
            vp.width
        },
        Length::Fixed(fw) => if fw <= vp.width {
            fw
        } else {
            vp.width
        },
        _ => vp.width,
    }
}

/// A child's cross-axis position under a stack alignment.
pub open spec fn child_x(alignment: HorizontalAlignment, vp: Area, width: u16) -> u16 {
    match alignment {
        HorizontalAlignment::Start => vp.x,
        HorizontalAlignment::Center => (clamp_u16(vp.x + sat_sub(vp.width as int, width as int))
            / 2) as u16,
        HorizontalAlignment::End => clamp_u16(
            sat_sub(clamp_u16(vp.x + vp.width) as int, width as int),
        ),
    }
}

/// Where child i of a vertical stack starts: the viewport's top, plus the
/// heights of the children above it, plus one spacing per gap.
pub open spec fn child_y(vp: Area, heights: Seq<u16>, spacing: u16, i: int) -> int {
    vp.y + seq_sum(heights.take(i)) + i * spacing
}

/// The main-axis heights a vertical stack gives its children: their height
/// hints resolved jointly against the viewport's height, each child's
/// natural height standing in for its preferred size.
pub open spec fn layout_heights<Message>(v: Vertical<Message>, vp: Area) -> Seq<u16> {
    resolve_spec(
        vp.height,
        Seq::new(v.children@.len(), |i: int| v.children@[i].spec_size_hint().height),
        Seq::new(v.children@.len(), |i: int| v.children@[i].spec_size().height),
    )
}

/// The bounds child i of a vertical stack is laid out into: placed at its
/// row, aligned on the cross axis, and clipped to the viewport's trailing
/// edge.
pub open spec fn layout_bound<Message>(v: Vertical<Message>, vp: Area, i: int) -> Area {
    let heights = layout_heights(v, vp);
    let cy = child_y(vp, heights, v.spacing, i);
    let cw = child_width(
        v.children@[i].spec_size_hint().width,
        v.children@[i].spec_size().width,
        vp,
    );
    Area {
        x: child_x(v.alignment, vp, cw),
        y: clamp_u16(cy),
        width: cw,
        height: clamp_u16(min(heights[i] as int, sat_sub(vp.y + vp.height, cy))),
    }
}

/// The area a wrapper insets its child into: the viewport shrunk by the
/// padding, or the canonical empty area when the inset origin would leave
/// the coordinate range.
pub open spec fn pad_inner(area: Area, padding: Spacing) -> Area {
    if area.x + padding.left <= u16::MAX && area.y + padding.top <= u16::MAX {
        area.spec_shrink(padding)
    } else {
        Area { x: 0, y: 0, width: 0, height: 0 }
    }
}

/// Children of a vertical stack sit top to bottom: each child's row starts
/// exactly one spacing below the previous child's end, and the laid-out
/// bounds show it whenever the rows stay within coordinate range.
pub proof fn lemma_stacked_rows<Message>(v: Vertical<Message>, vp: Area, i: int)
    requires
        0 <= i,
        i + 1 < v.children@.len(),
    ensures
        child_y(vp, layout_heights(v, vp), v.spacing, i + 1) == child_y(
            vp,
            layout_heights(v, vp),
            v.spacing,
            i,
        ) + layout_heights(v, vp)[i] + v.spacing,
        child_y(vp, layout_heights(v, vp), v.spacing, i + 1) <= u16::MAX ==> layout_bound(
            v,
            vp,
            i + 1,
        ).y as int == layout_bound(v, vp, i).y + layout_heights(v, vp)[i] + v.spacing,
{
    let gh = layout_heights(v, vp);
    crate::geometry::length::lemma_resolve_spec_len(
        vp.height,
        Seq::new(v.children@.len(), |k: int| v.children@[k].spec_size_hint().height),
        Seq::new(v.children@.len(), |k: int| v.children@[k].spec_size().height),
    );
    assert(gh.take(i + 1).drop_last() =~= gh.take(i));
    assert(gh.take(i + 1).last() == gh[i]);
    assert((i + 1) * v.spacing == i * v.spacing + v.spacing) by (nonlinear_arith);
    lemma_seq_sum_u16_nonneg(gh.take(i));
    assert(i * v.spacing >= 0) by (nonlinear_arith)
        requires
            i >= 0,
    {
    }
}

/// How child i of a stack relates to its processed version, given the
/// shell state the whole stack started from.
pub open spec fn rel_at<Message>(
    v: Vertical<Message>,
    event: Event,
    m0: Seq<Message>,
    i: int,
    r: Element<Message>,
) -> bool
    decreases Element::Vertical(v), 2int, 0int,
    via rel_at_decreases::<Message>
{
    if i < 0 || i >= v.children@.len() {
        true
    } else {
        let s = Element::shell_after_down_to(v, i + 1, event, m0, false);
        if s.1 {
            r == v.children@[i]
        } else {
            v.children@[i].event_elem_rel(event, s.0, s.1, r)
        }
    }
}

#[via_fn]
proof fn rel_at_decreases<Message>(
    v: Vertical<Message>,
    event: Event,
    m0: Seq<Message>,
    i: int,
    r: Element<Message>,
) {
    if 0 <= i < v.children@.len() {
        lemma_child_decreases(Element::Vertical(v), i);
    }
}

/// The first k children of a processed stack each stand in `rel_at` to
/// their originals.
pub open spec fn rels_prefix<Message>(
    v: Vertical<Message>,
    event: Event,
    m0: Seq<Message>,
    k: int,
    rs: Seq<Element<Message>>,
) -> bool
    decreases Element::Vertical(v), 3int, k,
{
    if k <= 0 {
        true
    } else {
        rels_prefix(v, event, m0, k - 1, rs) && rel_at(v, event, m0, k - 1, rs[k - 1])
    }
}

proof fn lemma_rels_prefix_intro<Message>(
    v: Vertical<Message>,
    event: Event,
    m0: Seq<Message>,
    k: int,
    rs: Seq<Element<Message>>,
)
    requires
        forall|j: int| 0 <= j < k ==> #[trigger] rel_at(v, event, m0, j, rs[j]),
    ensures
        rels_prefix(v, event, m0, k, rs),
    decreases k,
{
    if k > 0 {
        lemma_rels_prefix_intro(v, event, m0, k - 1, rs);
        assert(rel_at(v, event, m0, k - 1, rs[k - 1]));
        assert(rels_prefix(v, event, m0, k, rs) == (rels_prefix(v, event, m0, k - 1, rs)
            && rel_at(v, event, m0, k - 1, rs[k - 1])));
    } else {
        assert(rels_prefix(v, event, m0, k, rs));
    }
}

/// A stack's child sits structurally below the stack itself.
proof fn lemma_child_decreases<Message>(s: Element<Message>, i: int)
    requires
        s is Vertical,
        0 <= i < s->Vertical_0.children@.len(),
    ensures
        decreases_to!(s => s->Vertical_0.children@[i]),
{
    let v = s->Vertical_0;
    assert(decreases_to!(s => s->Vertical_0));
    assert(decreases_to!(v => v.children));
    assert(decreases_to!(v.children => v.children@));
    assert(decreases_to!(v.children@ => v.children@[i]));
}

impl<Message> Element<Message> {
    /// The structural conditions every widget in a tree keeps: cached
    /// bounds and paddings stay within coordinate range, and a stack's
    /// cached bounds stay paired with its children.
    pub open spec fn wf(self) -> bool
        decreases self,
    {
        match self {
            Element::Button(b) => {
                &&& b.bounds.wf()
                &&& b.padding.wf()
                &&& b.content.size.width + b.padding.left + b.padding.right <= u16::MAX
                &&& b.content.size.height + b.padding.top + b.padding.bottom <= u16::MAX
            },
            Element::Label(_) => true,
            Element::Text(_) => true,
            Element::Vertical(v) => {
                &&& v.children_bounds@.len() == v.children@.len()
                &&& v.children@.len() <= 0xffff_ffff
                &&& forall|i: int|
                    0 <= i < v.children@.len() ==> (#[trigger] v.children@[i]).wf()
                &&& forall|i: int|
                    0 <= i < v.children_bounds@.len() ==> (#[trigger] v.children_bounds@[i]).wf()
            },
            Element::Padding(p) => {
                &&& p.padding.wf()
                &&& p.widget_bounds.wf()
                &&& p.element.wf()
            },
        }
    }

    /// The widget's natural concrete size.
    pub open spec fn spec_size(self) -> Size<u16>
        decreases self,
    {
        match self {
            Element::Button(b) => Size {
                width: (b.content.size.width + b.padding.left + b.padding.right) as u16,
                height: (b.content.size.height + b.padding.top + b.padding.bottom) as u16,
            },
            Element::Label(l) => Size { width: l.text.size.width, height: l.text.size.height },
            Element::Text(t) => t.size,
            Element::Vertical(v) => Size {
                width: v.preferred_size.width,
                height: clamp_u16(
                    v.preferred_size.height + v.spacing * (if v.children@.len() > 0 {
                        v.children@.len() - 1
                    } else {
                        0
                    }),
                ),
            },
            Element::Padding(p) => p.element.spec_size(),
        }
    }

    /// The widget's declarative size hint.
    pub open spec fn spec_size_hint(self) -> Size<Length> {
        match self {
            Element::Button(b) => b.size_hint,
            Element::Label(l) => l.size_hint,
            Element::Text(t) => Size {
                width: Length::Fixed(t.size.width),
                height: Length::Fixed(t.size.height),
            },
            Element::Vertical(v) => v.size_hint,
            Element::Padding(p) => p.size_hint,
        }
    }

    /// What the layout pass leaves in the tree: a button caches the
    /// viewport, a stack caches one `layout_bound` per child and lays each
    /// child out into it, and a wrapper insets its child. The relation
    /// determines the laid-out tree completely.
    pub open spec fn layout_rel(self, viewport: Area, r: Element<Message>) -> bool
        decreases self,
    {
        match self {
            Element::Button(b) => r == Element::Button(Button { bounds: viewport, ..b }),
            Element::Label(_) => r == self,
            Element::Text(_) => r == self,
            Element::Vertical(v) => {
                &&& r is Vertical
                &&& r->Vertical_0.alignment == v.alignment
                &&& r->Vertical_0.background == v.background
                &&& r->Vertical_0.spacing == v.spacing
                &&& r->Vertical_0.preferred_size == v.preferred_size
                &&& r->Vertical_0.size_hint == v.size_hint
                &&& r->Vertical_0.children@.len() == v.children@.len()
                &&& r->Vertical_0.children_bounds@.len() == v.children@.len()
                &&& forall|i: int|
                    0 <= i < v.children@.len() ==> #[trigger] r->Vertical_0.children_bounds@[i]
                        == layout_bound(v, viewport, i)
                &&& forall|i: int|
                    0 <= i < v.children@.len() ==> (#[trigger] v.children@[i]).layout_rel(
                        layout_bound(v, viewport, i),
                        r->Vertical_0.children@[i],
                    )
            },
            Element::Padding(p) => {
                &&& r is Padding
                &&& r->Padding_0.padding == p.padding
                &&& r->Padding_0.background == p.background
                &&& r->Padding_0.size_hint == p.size_hint
                &&& r->Padding_0.widget_bounds == pad_inner(viewport, p.padding)
                &&& p.element.layout_rel(pad_inner(viewport, p.padding), r->Padding_0.element)
            },
        }
    }

    /// What rendering leaves in a grid: leaves lay their text, a button
    /// paints per its own render spec, a stack paints its background and
    /// then each child over its cached bounds in child order, and a
    /// wrapper paints its background and then its inset child.
    pub open spec fn spec_render(
        self,
        area: Area,
        pixels: Seq<Pixel>,
        w: int,
        h: int,
        theme: Theme,
    ) -> Seq<Pixel>
        decreases self, 1int, 0int,
    {
        match self {
            Element::Button(b) => Button::spec_render(b, area, pixels, w, h, theme),
            Element::Label(l) => rs_apply(
                pixels,
                w,
                h,
                spec_lines(l.text.raw@),
                area,
                l.style,
                l.wrap,
            ),
            Element::Text(t) => rs_apply(
                pixels,
                w,
                h,
                spec_lines(t.content@),
                Area::from_wh_spec(w as u16, h as u16),
                t.style,
                t.wrap,
            ),
            Element::Vertical(v) => Self::spec_render_children(
                v,
                0,
                bg_apply(pixels, w, h, area, v.background),
                w,
                h,
                theme,
            ),
            Element::Padding(p) => p.element.spec_render(
                pad_inner(area, p.padding),
                bg_apply(pixels, w, h, area, p.background),
                w,
                h,
                theme,
            ),
        }
    }

    /// The children of a stack painted over their cached bounds, from
    /// child i on, in child order: later children paint over earlier ones.
    pub open spec fn spec_render_children(
        v: Vertical<Message>,
        i: int,
        pixels: Seq<Pixel>,
        w: int,
        h: int,
        theme: Theme,
    ) -> Seq<Pixel>
        decreases Element::Vertical(v), 0int, v.children@.len() - i,
        via Self::spec_render_children_decreases
    {
        if i < 0 || i >= v.children@.len() {
            pixels
        } else {
            Self::spec_render_children(
                v,
                i + 1,
                v.children@[i].spec_render(v.children_bounds@[i], pixels, w, h, theme),
                w,
                h,
                theme,
            )
        }
    }

    #[via_fn]
    proof fn spec_render_children_decreases(
        v: Vertical<Message>,
        i: int,
        pixels: Seq<Pixel>,
        w: int,
        h: int,
        theme: Theme,
    ) {
        if 0 <= i < v.children@.len() {
            lemma_child_decreases(Element::Vertical(v), i);
        }
    }

    /// The shell after one event dispatch into this widget, started from
    /// the given messages and capture flag: a button emits its click
    /// message on a left press inside its bounds, a stack visits its
    /// children in reverse paint order checking the capture flag before
    /// each, and a wrapper passes the event through.
    pub open spec fn spec_event_shell(self, event: Event, m: Seq<Message>, c: bool) -> (
        Seq<Message>,
        bool,
    )
        decreases self, 1int, 0int,
    {
        match self {
            Element::Button(b) => (
                if !c && button_press_emits(b, event) {
                    m.push(b.on_click->0)
                } else {
                    m
                },
                c,
            ),
            Element::Label(_) => (m, c),
            Element::Text(_) => (m, c),
            Element::Vertical(v) => if c {
                (m, c)
            } else {
                Self::shell_after_down_to(v, 0, event, m, c)
            },
            Element::Padding(p) => p.element.spec_event_shell(event, m, c),
        }
    }

    /// The shell after the stack's children with indices at or above i
    /// have seen the event, topmost-painted (last) first; a child whose
    /// turn comes once the event stands captured is skipped.
    pub open spec fn shell_after_down_to(
        v: Vertical<Message>,
        i: int,
        event: Event,
        m: Seq<Message>,
        c: bool,
    ) -> (Seq<Message>, bool)
        decreases Element::Vertical(v), 0int, v.children@.len() - i,
        via Self::shell_after_down_to_decreases
    {
        if i < 0 || i >= v.children@.len() {
            (m, c)
        } else {
            let s = Self::shell_after_down_to(v, i + 1, event, m, c);
            if s.1 {
                s
            } else {
                v.children@[i].spec_event_shell(event, s.0, s.1)
            }
        }
    }

    #[via_fn]
    proof fn shell_after_down_to_decreases(
        v: Vertical<Message>,
        i: int,
        event: Event,
        m: Seq<Message>,
        c: bool,
    ) {
        if 0 <= i < v.children@.len() {
            lemma_child_decreases(Element::Vertical(v), i);
        }
    }

    /// What one event dispatch leaves of the tree, started from the given
    /// shell state: a button inside whose bounds a pointer event landed is
    /// marked hovered, a stack's children change per the same dispatch in
    /// reverse paint order, and everything else stays as it was. Together
    /// with `spec_event_shell` this determines the dispatch completely.
    pub open spec fn event_elem_rel(
        self,
        event: Event,
        m: Seq<Message>,
        c: bool,
        r: Element<Message>,
    ) -> bool
        decreases self, 4int, 0int,
    {
        match self {
            Element::Button(b) => r == Element::Button(
                if !c && button_hovers(b, event) {
                    Button { hovering: true, ..b }
                } else {
                    b
                },
            ),
            Element::Label(_) => r == self,
            Element::Text(_) => r == self,
            Element::Vertical(v) => {
                &&& r is Vertical
                &&& r->Vertical_0.alignment == v.alignment
                &&& r->Vertical_0.background == v.background
                &&& r->Vertical_0.spacing == v.spacing
                &&& r->Vertical_0.preferred_size == v.preferred_size
                &&& r->Vertical_0.size_hint == v.size_hint
                &&& r->Vertical_0.children_bounds@ == v.children_bounds@
                &&& r->Vertical_0.children@.len() == v.children@.len()
                &&& if c {
                    r->Vertical_0.children@ == v.children@
                } else {
                    rels_prefix(v, event, m, v.children@.len() as int, r->Vertical_0.children@)
                }
            },
            Element::Padding(p) => {
                &&& r is Padding
                &&& r->Padding_0.padding == p.padding
                &&& r->Padding_0.widget_bounds == p.widget_bounds
                &&& r->Padding_0.background == p.background
                &&& r->Padding_0.size_hint == p.size_hint
                &&& p.element.event_elem_rel(event, m, c, r->Padding_0.element)
            },
        }
    }
}

impl<Message: Copy> Element<Message> {
    pub fn size(&self) -> (r: Size<u16>)
        requires
            self.wf(),
        ensures
            r == self.spec_size(),
        decreases self,
    {
        match self {
            Element::Button(b) => b.size(),
            Element::Label(l) => l.size(),
            Element::Text(t) => t.size,
            Element::Vertical(v) => {
                let gaps: u64 = if v.children.len() > 0 {
                    (v.children.len() - 1) as u64
                } else {
                    0
                };
                proof {
                    assert(gaps <= 0xffff_ffff);
                    assert(v.spacing as u64 * gaps <= 65535 * 0xffff_ffffu64) by (nonlinear_arith)
                        requires
                            0 <= v.spacing <= 65535,
                            0 <= gaps <= 0xffff_ffff,
                    {
                    }
                }
                let total: u64 = v.preferred_size.height as u64 + v.spacing as u64 * gaps;
                Size::new(
                    v.preferred_size.width,
                    if total > 65535 {
                        65535
                    } else {
                        total as u16
                    },
                )
            },
            Element::Padding(p) => {
                proof {
                    assert(decreases_to!(self => p.element));
                }
                p.element.size()
            },
        }
    }

    pub fn size_hint(&self) -> (r: Size<Length>)
        ensures
            r == self.spec_size_hint(),
    {
        match self {
            Element::Button(b) => b.size_hint(),
            Element::Label(l) => l.size_hint(),
            Element::Text(t) => t.size_hint(),
            Element::Vertical(v) => v.size_hint,
            Element::Padding(p) => p.size_hint,
        }
    }

    /// The layout pass: the widget caches whatever bounds it or its
    /// children need at render and event time. A vertical stack resolves
    /// its children's heights jointly and places them top to bottom,
    /// separated by its spacing and clipped to the viewport.
    pub fn layout(self, viewport: Area) -> (r: Self)
        requires
            self.wf(),
            viewport.wf(),
        ensures
            r.wf(),
            self.layout_rel(viewport, r),
            r.spec_size() == self.spec_size(),
            r.spec_size_hint() == self.spec_size_hint(),
            self is Button ==> r == Element::Button(
                Button { bounds: viewport, ..self->Button_0 },
            ),
            self is Label ==> r == self,
            self is Text ==> r == self,
            self is Vertical ==> r is Vertical && r->Vertical_0.children@.len()
                == self->Vertical_0.children@.len() && r->Vertical_0.children_bounds@.len()
                == self->Vertical_0.children@.len() && r->Vertical_0.alignment
                == self->Vertical_0.alignment && r->Vertical_0.background
                == self->Vertical_0.background && r->Vertical_0.spacing
                == self->Vertical_0.spacing && r->Vertical_0.preferred_size
                == self->Vertical_0.preferred_size && r->Vertical_0.size_hint
                == self->Vertical_0.size_hint && forall|i: int|
                0 <= i < self->Vertical_0.children@.len()
                    ==> #[trigger] r->Vertical_0.children_bounds@[i] == layout_bound(
                    self->Vertical_0,
                    viewport,
                    i,
                ),
        decreases self, 1int,
    {
        match self {
            Element::Button(mut b) => {
                b.layout(viewport);
                Element::Button(b)
            },
            Element::Label(l) => Element::Label(l),
            Element::Text(t) => Element::Text(t),
            Element::Vertical(v) => Element::Vertical(Self::layout_vertical(v, viewport)),
            Element::Padding(p) => {
                let ghost s0 = self;
                let boxed = p;
                let mut pw = *boxed;
                let fits = (viewport.x as u32) + (pw.padding.left as u32) <= 65535 && (viewport.y
                    as u32) + (pw.padding.top as u32) <= 65535;
                let inner_bounds = if fits {
                    viewport.shrink(pw.padding)
                } else {
                    Area::zeros()
                };
                proof {
                    assert(inner_bounds == pad_inner(viewport, pw.padding));
                    assert(inner_bounds.wf());
                    assert(decreases_to!(s0 => pw.element));
                }
                pw.widget_bounds = inner_bounds;
                let inner = pw.element;
                let inner2 = inner.layout(inner_bounds);
                pw.element = inner2;
                Element::Padding(Box::new(pw))
            },
        }
    }

    /// Lays out a vertical stack's children.
    #[verifier::loop_isolation(false)]
    #[verifier::rlimit(100)]
    #[verifier::spinoff_prover]
    fn layout_vertical(v: Vertical<Message>, viewport: Area) -> (r: Vertical<Message>)
        requires
            Element::Vertical(v).wf(),
            viewport.wf(),
        ensures
            Element::Vertical(r).wf(),
            r.children@.len() == v.children@.len(),
            r.children_bounds@.len() == v.children@.len(),
            r.alignment == v.alignment,
            r.background == v.background,
            r.spacing == v.spacing,
            r.preferred_size == v.preferred_size,
            r.size_hint == v.size_hint,
            forall|i: int|
                0 <= i < v.children@.len() ==> #[trigger] r.children_bounds@[i] == layout_bound(
                    v,
                    viewport,
                    i,
                ),
            forall|i: int|
                0 <= i < v.children@.len() ==> (#[trigger] v.children@[i]).layout_rel(
                    layout_bound(v, viewport, i),
                    r.children@[i],
                ),
        decreases Element::Vertical(v), 0int,
    {
        let ghost gv = v;
        let n = v.children.len();
        let mut hints: Vec<Length> = Vec::new();
        let mut sizes: Vec<u16> = Vec::new();
        let mut widths: Vec<u16> = Vec::new();
        let mut i: usize = 0;
        while i < n
            invariant
                n == v.children@.len(),
                Element::Vertical(v).wf(),
                viewport.wf(),
                i <= n,
                hints@.len() == i,
                sizes@.len() == i,
                widths@.len() == i,
                forall|k: int|
                    0 <= k < i ==> #[trigger] hints@[k] == v.children@[k].spec_size_hint().height,
                forall|k: int|
                    0 <= k < i ==> #[trigger] sizes@[k] == v.children@[k].spec_size().height,
                forall|k: int|
                    0 <= k < i ==> #[trigger] widths@[k] == child_width(
                        v.children@[k].spec_size_hint().width,
                        v.children@[k].spec_size().width,
                        viewport,
                    ),
            decreases n - i,
        {
            let hint = v.children[i].size_hint();
            let size = v.children[i].size();
            hints.push(hint.height);
            sizes.push(size.height);
            let cw = match hint.width {
                Length::Preferred => if size.width <= viewport.width {
                    size.width
                } else {
                    viewport.width
                },
                Length::Fixed(fw) => if fw <= viewport.width {
                    fw
                } else {
                    viewport.width
                },
                _ => viewport.width,
            };
            widths.push(cw);
            i += 1;
        }
        proof {
            assert(hints@ =~= Seq::new(
                gv.children@.len(),
                |k: int| gv.children@[k].spec_size_hint().height,
            ));
            assert(sizes@ =~= Seq::new(
                gv.children@.len(),
                |k: int| gv.children@[k].spec_size().height,
            ));
        }
        let heights = Length::resolve(viewport.height, hints, sizes);
        let ghost gh = layout_heights(gv, viewport);
        proof {
            assert(heights@ == gh);
        }
        let Vertical {
            children,
            alignment,
            background,
            children_bounds: _,
            preferred_size,
            size_hint,
            spacing,
        } = v;
        let mut kids = children;
        let mut rev: Vec<Element<Message>> = Vec::new();
        let ghost orig = kids@;
        while kids.len() > 0
            invariant
                kids@ + rev@.reverse() =~= orig,
            decreases kids@.len(),
        {
            match kids.pop() {
                Some(k) => {
                    rev.push(k);
                    proof {
                        assert(kids@ + rev@.reverse() =~= orig);
                    }
                },
                None => {},
            }
        }
        proof {
            assert(kids@ + rev@.reverse() =~= rev@.reverse());
            assert(rev@.reverse() =~= orig);
            assert(rev@.len() == orig.len());
        }
        let mut new_children: Vec<Element<Message>> = Vec::new();
        let mut new_bounds: Vec<Area> = Vec::new();
        let mut ycur: u32 = viewport.y as u32;
        let edge: u32 = viewport.y as u32 + viewport.height as u32;
        while rev.len() > 0
            invariant
                Element::Vertical(gv).wf(),
                viewport.wf(),
                orig == gv.children@,
                gh == layout_heights(gv, viewport),
                gh.len() == orig.len(),
                heights@ == gh,
                rev@.reverse() =~= orig.skip(new_children@.len() as int),
                new_children@.len() + rev@.len() == orig.len(),
                new_bounds@.len() == new_children@.len(),
                widths@.len() == orig.len(),
                forall|k: int|
                    0 <= k < orig.len() ==> #[trigger] widths@[k] == child_width(
                        orig[k].spec_size_hint().width,
                        orig[k].spec_size().width,
                        viewport,
                    ),
                forall|k: int|
                    0 <= k < new_children@.len() ==> (#[trigger] new_children@[k]).wf(),
                forall|k: int|
                    0 <= k < new_children@.len() ==> (#[trigger] orig[k]).layout_rel(
                        layout_bound(gv, viewport, k),
                        new_children@[k],
                    ),
                forall|k: int|
                    0 <= k < new_bounds@.len() ==> #[trigger] new_bounds@[k] == layout_bound(
                        gv,
                        viewport,
                        k,
                    ),
                edge == viewport.y + viewport.height,
                ycur == min(child_y(viewport, gh, spacing, new_children@.len() as int), 65536),
                spacing == gv.spacing,
                ycur >= viewport.y,
            decreases rev@.len(),
        {
            match rev.pop() {
                Some(k) => {
                    let i = new_children.len();
                    proof {
                        assert(rev@.push(k).reverse() =~= orig.skip(i as int));
                        assert(orig.skip(i as int)[0] == orig[i as int]);
                        assert(k == orig[i as int]);
                        assert(rev@.reverse() =~= orig.skip(i as int).skip(1));
                        assert(orig.skip(i as int).skip(1) =~= orig.skip(i + 1));
                        assert(orig[i as int].wf());
                        lemma_child_decreases(Element::Vertical(gv), i as int);
                    }
                    let by: u16 = if ycur > 65535 {
                        65535
                    } else {
                        ycur as u16
                    };
                    let avail: u16 = if edge > ycur {
                        (edge - ycur) as u16
                    } else {
                        0
                    };
                    let hi = heights[i];
                    let bh: u16 = if hi <= avail {
                        hi
                    } else {
                        avail
                    };
                    let cw = widths[i];
                    let bx: u16 = match alignment {
                        HorizontalAlignment::Start => viewport.x,
                        HorizontalAlignment::Center => {
                            let slack: u16 = if viewport.width >= cw {
                                viewport.width - cw
                            } else {
                                0
                            };
                            let shifted: u32 = viewport.x as u32 + slack as u32;
                            let capped: u16 = if shifted > 65535 {
                                65535
                            } else {
                                shifted as u16
                            };
                            capped / 2
                        },
                        HorizontalAlignment::End => {
                            let reach: u32 = viewport.x as u32 + viewport.width as u32;
                            let capped: u16 = if reach > 65535 {
                                65535
                            } else {
                                reach as u16
                            };
                            if capped >= cw {
                                capped - cw
                            } else {
                                0
                            }
                        },
                    };
                    let bound = Area::new(bx, by, cw, bh);
                    proof {
                        assert(bound == layout_bound(gv, viewport, i as int));
                        assert(bound.wf());
                    }
                    let k2 = k.layout(bound);
                    new_children.push(k2);
                    new_bounds.push(bound);
                    let step: u32 = ycur + hi as u32 + spacing as u32;
                    ycur = if step > 65536 {
                        65536
                    } else {
                        step
                    };
                    proof {
                        assert(gh.take(i + 1).drop_last() =~= gh.take(i as int));
                        assert(gh.take(i + 1).last() == gh[i as int]);
                        assert((i + 1) * spacing == i * spacing + spacing) by (nonlinear_arith);
                        lemma_seq_sum_u16_nonneg(gh.take(i as int));
                        assert(ycur == min(
                            child_y(viewport, gh, spacing, new_children@.len() as int),
                            65536,
                        ));
                    }
                },
                None => {},
            }
        }
        proof {
            assert(rev@.reverse() =~= Seq::<Element<Message>>::empty());
            assert(orig.skip(new_children@.len() as int).len() == 0);
            assert(new_children@.len() == orig.len());
        }
        Vertical {
            children: new_children,
            alignment,
            background,
            children_bounds: new_bounds,
            preferred_size,
            size_hint,
            spacing,
        }
    }

    /// Renders the widget into the caller-owned buffer region. A container
    /// paints its own background across the area first, then its children
    /// over their previously computed bounds in child order, so later
    /// children paint over earlier ones.
    #[verifier::loop_isolation(false)]
    pub fn render(&self, area: Area, buffer: &mut Buffer, theme: &Theme)
        requires
            self.wf(),
            old(buffer).inv(),
            area.wf(),
        ensures
            final(buffer).width == old(buffer).width,
            final(buffer).height == old(buffer).height,
            final(buffer).inv(),
            final(buffer).pixels@ == self.spec_render(
                area,
                old(buffer).pixels@,
                old(buffer).width as int,
                old(buffer).height as int,
                *theme,
            ),
        decreases self,
    {
        let ghost w = old(buffer).width as int;
        let ghost h = old(buffer).height as int;
        match self {
            Element::Button(b) => {
                b.render(area, buffer, theme);
            },
            Element::Label(l) => {
                l.render(area, buffer);
            },
            Element::Text(t) => {
                t.render(buffer);
                proof {
                    assert(Area::from_wh_spec(old(buffer).width, old(buffer).height)
                        == Area::from_wh_spec(w as u16, h as u16));
                }
            },
            Element::Vertical(v) => {
                buffer.render_background(area, v.background);
                let ghost goal = self.spec_render(area, old(buffer).pixels@, w, h, *theme);
                proof {
                    assert(goal == Self::spec_render_children(*v, 0, buffer.pixels@, w, h, *theme));
                }
                let mut i: usize = 0;
                while i < v.children.len()
                    invariant
                        i <= v.children@.len(),
                        buffer.inv(),
                        buffer.width == old(buffer).width,
                        buffer.height == old(buffer).height,
                        goal == Self::spec_render_children(*v, i as int, buffer.pixels@, w, h, *theme),
                    decreases v.children@.len() - i,
                {
                    proof {
                        assert(v.children@[i as int].wf());
                        assert(v.children_bounds@[i as int].wf());
                        assert(decreases_to!(self => v.children@[i as int]));
                    }
                    let child = &v.children[i];
                    let bounds = v.children_bounds[i];
                    child.render(bounds, buffer, theme);
                    i += 1;
                }
            },
            Element::Padding(p) => {
                buffer.render_background(area, p.background);
                let fits = (area.x as u32) + (p.padding.left as u32) <= 65535 && (area.y as u32)
                    + (p.padding.top as u32) <= 65535;
                let inner_area = if fits {
                    area.shrink(p.padding)
                } else {
                    Area::zeros()
                };
                proof {
                    assert(inner_area == pad_inner(area, p.padding));
                    assert(decreases_to!(self => p.element));
                }
                p.element.render(inner_area, buffer, theme);
            },
        }
    }

    /// Dispatches one input event: a button reacts to pointer events in
    /// its cached bounds, a container visits its children in reverse paint
    /// order so whatever was drawn on top sees the event first, checking
    /// before each child whether the event stands captured, and a wrapper
    /// passes the event through. Messages already in the shell stay in
    /// place.
    #[verifier::loop_isolation(false)]
    pub fn process_event(self, event: Event, shell: &mut Shell<Message>) -> (r: Self)
        requires
            self.wf(),
        ensures
            r.wf(),
            r.spec_size() == self.spec_size(),
            r.spec_size_hint() == self.spec_size_hint(),
            final(shell).messages@ == self.spec_event_shell(
                event,
                old(shell).messages@,
                old(shell).event_captured,
            ).0,
            final(shell).event_captured == self.spec_event_shell(
                event,
                old(shell).messages@,
                old(shell).event_captured,
            ).1,
            self.event_elem_rel(
                event,
                old(shell).messages@,
                old(shell).event_captured,
                r,
            ),
        decreases self,
    {
        let ghost m0 = old(shell).messages@;
        let ghost c0 = old(shell).event_captured;
        match self {
            Element::Button(mut b) => {
                b.process_event(event, shell);
                Element::Button(b)
            },
            Element::Label(l) => Element::Label(l),
            Element::Text(t) => Element::Text(t),
            Element::Vertical(v) => {
                let ghost s0 = self;
                let ghost gv = v;
                if shell.is_event_captured() {
                    return Element::Vertical(v);
                }
                let Vertical {
                    children,
                    alignment,
                    background,
                    children_bounds,
                    preferred_size,
                    size_hint,
                    spacing,
                } = v;
                let ghost orig = children@;
                let ghost n = orig.len() as int;
                let mut kids = children;
                let mut done_rev: Vec<Element<Message>> = Vec::new();
                while kids.len() > 0
                    invariant
                        s0 == Element::Vertical(gv),
                        orig == gv.children@,
                        n == orig.len(),
                        !c0,
                        kids@.len() + done_rev@.len() == n,
                        forall|j: int| 0 <= j < kids@.len() ==> #[trigger] kids@[j] == orig[j],
                        forall|j: int| 0 <= j < n ==> (#[trigger] orig[j]).wf(),
                        forall|j: int|
                            0 <= j < done_rev@.len() ==> (#[trigger] done_rev@[j]).wf(),
                        forall|j: int|
                            0 <= j < done_rev@.len() ==> (#[trigger] done_rev@[j]).spec_size()
                                == orig[n - 1 - j].spec_size() && done_rev@[j].spec_size_hint()
                                == orig[n - 1 - j].spec_size_hint(),
                        shell.messages@ == Self::shell_after_down_to(
                            gv,
                            kids@.len() as int,
                            event,
                            m0,
                            false,
                        ).0,
                        shell.event_captured == Self::shell_after_down_to(
                            gv,
                            kids@.len() as int,
                            event,
                            m0,
                            false,
                        ).1,
                        forall|j: int|
                            0 <= j < done_rev@.len() ==> #[trigger] rel_at(
                                gv,
                                event,
                                m0,
                                n - 1 - j,
                                done_rev@[j],
                            ),
                    decreases kids@.len(),
                {
                    match kids.pop() {
                        Some(k) => {
                            let ghost idx = kids@.len() as int;
                            proof {
                                assert(k == orig[idx]);
                                lemma_child_decreases(s0, idx);
                            }
                            let k2 = if shell.is_event_captured() {
                                k
                            } else {
                                k.process_event(event, shell)
                            };
                            done_rev.push(k2);
                            proof {
                                assert(rel_at(gv, event, m0, idx, k2));
                            }
                        },
                        None => {},
                    }
                }
                let ghost done0 = done_rev@;
                let mut restored: Vec<Element<Message>> = Vec::new();
                while done_rev.len() > 0
                    invariant
                        done0.len() == n,
                        restored@.len() + done_rev@.len() == n,
                        done_rev@ == done0.take(done_rev@.len() as int),
                        forall|k: int|
                            0 <= k < restored@.len() ==> #[trigger] restored@[k] == done0[n - 1
                                - k],
                    decreases done_rev@.len(),
                {
                    match done_rev.pop() {
                        Some(k) => {
                            restored.push(k);
                            proof {
                                assert(done_rev@ =~= done0.take(done_rev@.len() as int));
                            }
                        },
                        None => {},
                    }
                }
                let r = Vertical {
                    children: restored,
                    alignment,
                    background,
                    children_bounds,
                    preferred_size,
                    size_hint,
                    spacing,
                };
                proof {
                    assert(gv.children_bounds@.len() == n);
                    assert forall|i: int| 0 <= i < n implies #[trigger] rel_at(
                        gv,
                        event,
                        m0,
                        i,
                        r.children@[i],
                    ) by {
                        assert(r.children@[i] == done0[n - 1 - i]);
                        assert(rel_at(gv, event, m0, n - 1 - (n - 1 - i), done0[n - 1 - i]));
                    }
                    assert forall|i: int| 0 <= i < n implies (#[trigger] r.children@[i]).wf()
                        && r.children@[i].spec_size() == gv.children@[i].spec_size()
                        && r.children@[i].spec_size_hint() == gv.children@[
                        i
                    ].spec_size_hint() by {
                        assert(r.children@[i] == done0[n - 1 - i]);
                        assert(done0[n - 1 - i].wf());
                        assert(done0[n - 1 - i].spec_size() == orig[n - 1 - (n - 1 - i)]
                            .spec_size());
                    }
                    assert forall|i: int| 0 <= i < n implies #[trigger] rel_at(
                        gv,
                        event,
                        m0,
                        i,
                        r.children@[i],
                    ) by {
                        assert(r.children@[i] == done0[n - 1 - i]);
                        assert(rel_at(gv, event, m0, n - 1 - (n - 1 - i), done0[n - 1 - i]));
                    }
                    lemma_rels_prefix_intro(gv, event, m0, n, r.children@);
                    assert(self == Element::Vertical(gv));
                }
                Element::Vertical(r)
            },
            Element::Padding(p) => {
                let ghost s0 = self;
                let mut pw = *p;
                proof {
                    assert(decreases_to!(s0 => pw.element));
                }
                let inner = pw.element;
                let inner2 = inner.process_event(event, shell);
                pw.element = inner2;
                Element::Padding(Box::new(pw))
            },
        }
    }
}

proof fn lemma_seq_sum_u16_nonneg(s: Seq<u16>)
    ensures
        seq_sum(s) >= 0,
    decreases s.len(),
{
    if s.len() > 0 {
        lemma_seq_sum_u16_nonneg(s.drop_last());
    }
}

} // verus!
