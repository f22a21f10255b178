use vstd::arithmetic::div_mod::lemma_fundamental_div_mod;
use vstd::arithmetic::div_mod::lemma_mod_division_less_than_divisor;
use vstd::arithmetic::div_mod::lemma_mod_pos_bound;
use vstd::math::min;
use vstd::prelude::*;

use crate::buffer::pixel::blank_pixel;
use crate::buffer::pixel::blanked;
use crate::buffer::pixel::is_skip_spec;
use crate::buffer::pixel::pixel_wf;
use crate::buffer::pixel::render_compose;
use crate::buffer::pixel::skip_of;
use crate::buffer::pixel::Pixel;
use crate::geometry::area::Area;
use crate::strnum::join_codes;
use crate::style::color::Color;
use crate::style::color::ColorSystem;
use crate::style::style::empty_style;
use crate::style::style::style_code_list;
use crate::style::style::Style;
use crate::style::theme::Theme;
use crate::text::char_width;
use crate::text::is_control_char;
use crate::text::spec_lines;
use crate::text::split_lines;
use crate::text::unicode_width_of;

verus! {

/// Whether cell (i, j) lies in the area, in cell coordinates.
pub open spec fn in_area(a: Area, i: int, j: int) -> bool {
    a.x <= i < a.x + a.width && a.y <= j < a.y + a.height
}

/// A pixel with only its background color changed.
pub open spec fn with_background(p: Pixel, c: Color) -> Pixel {
    Pixel {
        character: p.character,
        width: p.width,
        style: Style {
            foreground: p.style.foreground,
            background: Some(c),
            attributes: p.style.attributes,
        },
    }
}

/// What one extracted cell holds: the source cell, with a continuation
/// marker at the new left edge and a split two-column glyph at the new
/// right edge each repaired to a blank.
pub open spec fn cut_cell(p: Pixel, x: int, aw: int) -> Pixel {
    let q = if x == 0 && is_skip_spec(p) {
        blanked(p)
    } else {
        p
    };
    if x == aw - 1 && q.width == 2 {
        blanked(q)
    } else {
        q
    }
}

/// The pixel a row-major grid holds at (x, y).
pub open spec fn cat(pixels: Seq<Pixel>, w: int, x: int, y: int) -> Pixel {
    pixels[y * w + x]
}

/// The grid's glyph bookkeeping: every cell is well formed, every
/// two-column glyph is immediately followed by its continuation marker, and
/// every continuation marker immediately follows a two-column glyph.
pub open spec fn grid_inv(pixels: Seq<Pixel>, w: int, h: int) -> bool {
    &&& pixels.len() == w * h
    &&& forall|x: int, y: int|
        0 <= x < w && 0 <= y < h ==> pixel_wf(#[trigger] cat(pixels, w, x, y))
    &&& forall|x: int, y: int|
        0 <= x < w && 0 <= y < h && #[trigger] cat(pixels, w, x, y).width == 2 ==> x + 1 < w
            && cat(pixels, w, x + 1, y).width == 0
    &&& forall|x: int, y: int|
        0 <= x < w && 0 <= y < h && #[trigger] cat(pixels, w, x, y).width == 0 ==> x >= 1 && cat(
            pixels,
            w,
            x - 1,
            y,
        ).width == 2
}

/// Writing one cell changes that cell and nothing else.
proof fn lemma_cell_update(pixels: Seq<Pixel>, w: int, h: int, x: int, y: int, p: Pixel)
    requires
        pixels.len() == w * h,
        0 <= x < w,
        0 <= y < h,
    ensures
        0 <= y * w + x < pixels.len(),
        cat(pixels.update(y * w + x, p), w, x, y) == p,
        forall|i: int, j: int|
            0 <= i < w && 0 <= j < h && !(i == x && j == y) ==> #[trigger] cat(
                pixels.update(y * w + x, p),
                w,
                i,
                j,
            ) == cat(pixels, w, i, j),
{
    assert(0 <= y * w + x < w * h) by (nonlinear_arith)
        requires
            0 <= x < w,
            0 <= y < h,
    {
    }
    assert forall|i: int, j: int|
        0 <= i < w && 0 <= j < h && !(i == x && j == y) implies #[trigger] cat(
        pixels.update(y * w + x, p),
        w,
        i,
        j,
    ) == cat(pixels, w, i, j) by {
        assert(j * w + i != y * w + x) by (nonlinear_arith)
            requires
                0 <= i < w,
                0 <= x < w,
                !(i == x && j == y),
        {
        }
        assert(0 <= j * w + i < w * h) by (nonlinear_arith)
            requires
                0 <= i < w,
                0 <= j < h,
        {
        }
    }
}

/// One flat index names one cell.
proof fn lemma_idx_eq(w: int, h: int, i: int, j: int, c: int, y: int)
    requires
        0 <= i < w,
        0 <= j < h,
        0 <= c < w,
        0 <= y < h,
    ensures
        (j * w + i == y * w + c) <==> (i == c && j == y),
{
    assert((j * w + i == y * w + c) <==> (i == c && j == y)) by (nonlinear_arith)
        requires
            0 <= i < w,
            0 <= c < w,
    {
    }
}

/// Two grids equal cell by cell are equal.
proof fn lemma_grid_ext(a: Seq<Pixel>, b: Seq<Pixel>, w: int, h: int)
    requires
        a.len() == w * h,
        b.len() == w * h,
        w >= 0,
        h >= 0,
        forall|i: int, j: int|
            0 <= i < w && 0 <= j < h ==> #[trigger] cat(a, w, i, j) == cat(b, w, i, j),
    ensures
        a == b,
{
    if w > 0 {
        assert forall|n: int| 0 <= n < a.len() implies a[n] == b[n] by {
            let j = n / w;
            let i = n % w;
            lemma_fundamental_div_mod(n, w);
            lemma_mod_division_less_than_divisor(n, w);
            lemma_mod_pos_bound(n, w);
            assert(0 <= j < h) by (nonlinear_arith)
                requires
                    0 <= n < w * h,
                    n == w * j + i,
                    0 <= i < w,
            {
            }
            assert(j * w + i == n) by (nonlinear_arith)
                requires
                    n == w * j + i,
            {
            }
            assert(cat(a, w, i, j) == cat(b, w, i, j));
        }
    }
    assert(a =~= b);
}

/// The grid after a clear at (x, y): the glyph's cells, marker included,
/// blanked in place.
pub open spec fn clear_at_seq(pixels: Seq<Pixel>, w: int, x: int, y: int) -> Seq<Pixel> {
    let p = cat(pixels, w, x, y);
    let a = if p.width == 2 {
        pixels.update(y * w + x + 1, blanked(cat(pixels, w, x + 1, y)))
    } else if is_skip_spec(p) {
        pixels.update(y * w + x - 1, blanked(cat(pixels, w, x - 1, y)))
    } else {
        pixels
    };
    if p.character is Some {
        a.update(y * w + x, blanked(p))
    } else {
        a
    }
}

/// The grid after one bounds-checked pixel write at (x, y).
pub open spec fn render_pixel_seq(
    olds: Seq<Pixel>,
    w: int,
    h: int,
    x: int,
    y: int,
    src: Pixel,
) -> Seq<Pixel> {
    if !(0 <= y < h && 0 <= x && x + src.width <= w) {
        olds
    } else {
        let o0 = cat(olds, w, x, y);
        let o1 = if x + 1 < w {
            cat(olds, w, x + 1, y)
        } else {
            blank_pixel()
        };
        Seq::new(
            olds.len(),
            |n: int|
                if n == y * w + x {
                    render_pixel_target(o0, src)
                } else if src.width == 2 && n == y * w + x + 1 {
                    skip_of(src.style)
                } else if src.width != 2 && o0.width == 2 && n == y * w + x + 1 {
                    blanked(o1)
                } else if is_skip_spec(o0) && n == y * w + x - 1 {
                    blanked(cat(olds, w, x - 1, y))
                } else if src.width == 2 && o1.width == 2 && n == y * w + x + 2 {
                    blanked(cat(olds, w, x + 2, y))
                } else {
                    olds[n]
                },
        )
    }
}

/// Blanks a continuation marker left dangling at column x, together with
/// its glyph; the cleanup step that ends each row of a tiling or a
/// composite.
pub open spec fn row_cleanup_seq(pixels: Seq<Pixel>, w: int, x: int, y: int) -> Seq<Pixel> {
    if x < w && is_skip_spec(cat(pixels, w, x, y)) {
        clear_at_seq(pixels, w, x, y)
    } else {
        pixels
    }
}

/// One row of a tiling: the pixel is stamped left to right while the next
/// copy still fits within the area, then a dangling marker past the
/// stopping point is blanked.
pub open spec fn fill_row_seq(
    pixels: Seq<Pixel>,
    w: int,
    h: int,
    ca: Area,
    y: int,
    x: int,
    p: Pixel,
) -> Seq<Pixel>
    decreases ca.x + ca.width - x,
{
    if p.width >= 1 && x < ca.x + ca.width && x + p.width <= ca.x + ca.width {
        fill_row_seq(render_pixel_seq(pixels, w, h, x, y, p), w, h, ca, y, x + p.width, p)
    } else {
        row_cleanup_seq(pixels, w, x, y)
    }
}

/// The whole tiling, row by row.
pub open spec fn fill_rows_seq(
    pixels: Seq<Pixel>,
    w: int,
    h: int,
    ca: Area,
    y: int,
    p: Pixel,
) -> Seq<Pixel>
    decreases ca.y + ca.height - y,
{
    if y < ca.y + ca.height {
        fill_rows_seq(fill_row_seq(pixels, w, h, ca, y, ca.x as int, p), w, h, ca, y + 1, p)
    } else {
        pixels
    }
}

/// One row of a composite: cells of the source row are copied left to
/// right, stopping before any cell whose width would cross the clip
/// boundary, and a marker left dangling past the stopping point is blanked.
/// A zero-width source cell never starts a copy in a well-kept source; the
/// copy stops there.
pub open spec fn comp_row_seq(
    pixels: Seq<Pixel>,
    w: int,
    h: int,
    other: Seq<Pixel>,
    ow: int,
    sx: int,
    sy: int,
    cw: int,
    y: int,
    x: int,
) -> Seq<Pixel>
    decreases sx + cw - x,
{
    if x < sx + cw {
        let p = cat(other, ow, x - sx, y - sy);
        if p.width < 1 || p.width + x > sx + cw {
            row_cleanup_seq(pixels, w, x, y)
        } else {
            comp_row_seq(
                render_pixel_seq(pixels, w, h, x, y, p),
                w,
                h,
                other,
                ow,
                sx,
                sy,
                cw,
                y,
                x + p.width,
            )
        }
    } else {
        row_cleanup_seq(pixels, w, x, y)
    }
}

/// The whole composite: for each destination row, the starting cell is
/// cleared, then the source row is copied over it.
pub open spec fn comp_rows_seq(
    pixels: Seq<Pixel>,
    w: int,
    h: int,
    other: Seq<Pixel>,
    ow: int,
    sx: int,
    sy: int,
    cw: int,
    ch: int,
    y: int,
) -> Seq<Pixel>
    decreases sy + ch - y,
{
    if y < sy + ch {
        let a = clear_at_seq(pixels, w, sx, y);
        comp_rows_seq(
            comp_row_seq(a, w, h, other, ow, sx, sy, cw, y, sx),
            w,
            h,
            other,
            ow,
            sx,
            sy,
            cw,
            ch,
            y + 1,
        )
    } else {
        pixels
    }
}

/// A blank cell carrying the paragraph's style; the padding written where
/// a character no longer fits.
pub open spec fn blank_of(style: Style) -> Pixel {
    Pixel { character: Some(' '), width: 1, style }
}

/// One character of a paragraph, at its displayed width, in the
/// paragraph's style.
pub open spec fn glyph_of(c: char, cw: int, style: Style) -> Pixel {
    Pixel { character: Some(c), width: cw as u8, style }
}

/// The width at which the paragraph layout places a character: control
/// characters, zero-width characters, and characters wider than a cell
/// pair are skipped.
pub open spec fn rs_char_width(c: char) -> int {
    if is_control_char(c) {
        0
    } else {
        match unicode_width_of(c) {
            Some(wd) => if 1 <= wd <= 2 {
                wd as int
            } else {
                0
            },
            None => 0,
        }
    }
}

/// One source line of the paragraph layout, from character k at cursor
/// (x, y): characters go into successive columns; a character wider than
/// the whole line abandons the line after one padding blank; one that
/// crosses the right edge pads the row and either wraps to the next row
/// inside the area or ends the line. The result is the grid and the row
/// the next line starts on.
pub open spec fn rs_line_seq(
    pixels: Seq<Pixel>,
    w: int,
    h: int,
    line: Seq<char>,
    k: int,
    x: int,
    y: int,
    sx: int,
    ex: int,
    ey: int,
    style: Style,
    wrap: bool,
) -> (Seq<Pixel>, int)
    decreases line.len() - k,
{
    if k < 0 || k >= line.len() {
        (pixels, y + 1)
    } else {
        let c = line[k];
        let cw = rs_char_width(c);
        if cw == 0 {
            rs_line_seq(pixels, w, h, line, k + 1, x, y, sx, ex, ey, style, wrap)
        } else if sx + cw > ex {
            (render_pixel_seq(pixels, w, h, sx, y, blank_of(style)), y + 1)
        } else if x + cw > ex {
            let a = if ex - x > 0 {
                render_pixel_seq(pixels, w, h, x, y, blank_of(style))
            } else {
                pixels
            };
            if wrap && y + 1 < ey {
                let b = render_pixel_seq(a, w, h, sx, y + 1, glyph_of(c, cw, style));
                rs_line_seq(b, w, h, line, k + 1, sx + cw, y + 1, sx, ex, ey, style, wrap)
            } else {
                (a, y + 1)
            }
        } else {
            rs_line_seq(
                render_pixel_seq(pixels, w, h, x, y, glyph_of(c, cw, style)),
                w,
                h,
                line,
                k + 1,
                x + cw,
                y,
                sx,
                ex,
                ey,
                style,
                wrap,
            )
        }
    }
}

/// The whole paragraph: source lines go into successive rows; lines past
/// the area's last row are dropped.
pub open spec fn rs_lines_seq(
    pixels: Seq<Pixel>,
    w: int,
    h: int,
    lines: Seq<Seq<char>>,
    li: int,
    y: int,
    sx: int,
    ex: int,
    ey: int,
    style: Style,
    wrap: bool,
) -> Seq<Pixel>
    decreases lines.len() - li,
{
    if li < 0 || li >= lines.len() {
        pixels
    } else {
        let r = rs_line_seq(pixels, w, h, lines[li], 0, sx, y, sx, ex, ey, style, wrap);
        if r.1 >= ey {
            r.0
        } else {
            rs_lines_seq(r.0, w, h, lines, li + 1, r.1, sx, ex, ey, style, wrap)
        }
    }
}

/// The grid with the background color of every cell of the clipped area
/// set.
pub open spec fn background_seq(
    pixels: Seq<Pixel>,
    w: int,
    h: int,
    ca: Area,
    c: Color,
) -> Seq<Pixel> {
    Seq::new(
        pixels.len(),
        |n: int|
            if w > 0 && in_area(ca, n % w, n / w) {
                with_background(pixels[n], c)
            } else {
                pixels[n]
            },
    )
}

/// The all-blank grid a new buffer starts as.
pub open spec fn blank_grid(w: int, h: int) -> Seq<Pixel> {
    Seq::new((w * h) as nat, |n: int| blank_pixel())
}

/// The grid after a whole background pass: unchanged for an unset color,
/// every cell of the clipped area recolored otherwise.
pub open spec fn bg_apply(
    pixels: Seq<Pixel>,
    w: int,
    h: int,
    area: Area,
    background: Option<Color>,
) -> Seq<Pixel> {
    match background {
        Some(c) => background_seq(
            pixels,
            w,
            h,
            Area::from_wh_spec(w as u16, h as u16).spec_intersect(area),
            c,
        ),
        None => pixels,
    }
}

/// The grid after a whole paragraph pass over the given area.
pub open spec fn rs_apply(
    pixels: Seq<Pixel>,
    w: int,
    h: int,
    lines: Seq<Seq<char>>,
    area: Area,
    style: Style,
    wrap: bool,
) -> Seq<Pixel> {
    let ca = Area::from_wh_spec(w as u16, h as u16).spec_intersect(area);
    if ca.spec_is_empty() {
        pixels
    } else {
        rs_lines_seq(
            pixels,
            w,
            h,
            lines,
            0,
            ca.y as int,
            ca.x as int,
            ca.x + ca.width,
            ca.y + ca.height,
            style,
            wrap,
        )
    }
}

/// What one cell displays: its character, a space for an empty cell, and
/// nothing at all for a continuation marker.
pub open spec fn view_cell_text(p: Pixel) -> Seq<char> {
    match p.character {
        Some(c) => if c == '\0' {
            Seq::empty()
        } else {
            seq![c]
        },
        None => seq![' '],
    }
}

/// The escape sequence emitted before a cell whose resolved style differs
/// from the previous cell's: a full reset, then the new style's codes.
/// Runs of the same style are not re-emitted.
pub open spec fn style_prefix(p: Pixel, last: Style, system: ColorSystem, theme: Theme) -> Seq<
    char,
> {
    if p.style != last {
        "\x1b[0m\x1b["@ + join_codes(style_code_list(p.style, system, theme)) + "m"@
    } else {
        Seq::empty()
    }
}

/// One serialized row from column x, given the style the previous cell
/// carried.
pub open spec fn view_row_seq(
    pixels: Seq<Pixel>,
    w: int,
    y: int,
    x: int,
    last: Style,
    system: ColorSystem,
    theme: Theme,
) -> Seq<char>
    decreases w - x,
{
    if x >= w {
        Seq::empty()
    } else {
        let p = cat(pixels, w, x, y);
        style_prefix(p, last, system, theme) + view_cell_text(p) + view_row_seq(
            pixels,
            w,
            y,
            x + 1,
            p.style,
            system,
            theme,
        )
    }
}

/// The whole grid serialized: every row ends in a full reset, and a row
/// break follows every row but the last.
pub open spec fn view_rows_seq(
    pixels: Seq<Pixel>,
    w: int,
    h: int,
    y: int,
    system: ColorSystem,
    theme: Theme,
) -> Seq<char>
    decreases h - y,
{
    if y >= h {
        Seq::empty()
    } else {
        view_row_seq(pixels, w, y, 0, empty_style(), system, theme) + "\x1b[0m"@ + (if y < h - 1 {
            seq!['\n']
        } else {
            Seq::empty()
        }) + view_rows_seq(pixels, w, h, y + 1, system, theme)
    }
}

/// A clear keeps the glyph bookkeeping intact: it only blanks whole
/// glyphs, marker included.
proof fn lemma_clear_preserves_inv(
    olds: Seq<Pixel>,
    news: Seq<Pixel>,
    w: int,
    h: int,
    x: int,
    y: int,
)
    requires
        grid_inv(olds, w, h),
        news.len() == olds.len(),
        0 <= x < w,
        0 <= y < h,
        forall|i: int, j: int|
            0 <= i < w && 0 <= j < h && !(j == y && Buffer::clear_touches(
                cat(olds, w, x, y),
                x,
                i,
            )) ==> #[trigger] cat(news, w, i, j) == cat(olds, w, i, j),
        cat(olds, w, x, y).character is Some ==> cat(news, w, x, y) == blanked(
            cat(olds, w, x, y),
        ),
        cat(olds, w, x, y).character is None ==> news == olds,
        cat(olds, w, x, y).width == 2 ==> cat(news, w, x + 1, y) == blanked(
            cat(olds, w, x + 1, y),
        ),
        is_skip_spec(cat(olds, w, x, y)) ==> cat(news, w, x - 1, y) == blanked(
            cat(olds, w, x - 1, y),
        ),
    ensures
        grid_inv(news, w, h),
{
    let p0 = cat(olds, w, x, y);
    if p0.character is None {
        assert(news =~= olds);
    } else {
        assert forall|i: int, j: int| 0 <= i < w && 0 <= j < h implies pixel_wf(
            #[trigger] cat(news, w, i, j),
        ) by {
            assert(pixel_wf(cat(olds, w, i, j)));
        }
        assert forall|i: int, j: int|
            0 <= i < w && 0 <= j < h && #[trigger] cat(news, w, i, j).width == 2 implies i + 1 < w
            && cat(news, w, i + 1, j).width == 0 by {
            assert(pixel_wf(p0));
            assert(cat(news, w, i, j) == cat(olds, w, i, j));
            assert(pixel_wf(cat(olds, w, i + 1, j)));
            if j == y {
                if i + 1 == x {
                    assert(cat(olds, w, x, y).width == 0);
                }
                if is_skip_spec(p0) {
                    assert(cat(olds, w, x, y).width == 0);
                    assert(x >= 1 && cat(olds, w, x - 1, y).width == 2);
                }
            }
        }
        assert forall|i: int, j: int|
            0 <= i < w && 0 <= j < h && #[trigger] cat(news, w, i, j).width == 0 implies i >= 1
            && cat(news, w, i - 1, j).width == 2 by {
            assert(pixel_wf(p0));
            assert(cat(news, w, i, j) == cat(olds, w, i, j));
            assert(cat(olds, w, i - 1, j).width == 2);
            if j == y {
                if i - 1 == x {
                    assert(is_skip_spec(cat(olds, w, x + 1, y)));
                }
                if p0.width == 2 && i - 1 == x + 1 {
                    assert(cat(olds, w, x + 1, y).width == 0);
                }
                if is_skip_spec(p0) && i - 1 == x - 1 {
                    assert(cat(olds, w, x, y).width == 0);
                }
            }
        }
    }
}

/// The cells a pixel write at column x may touch.
pub open spec fn render_pixel_touches(o0: Pixel, o1: Pixel, src: Pixel, x: int, i: int) -> bool {
    ||| i == x
    ||| (is_skip_spec(o0) && i == x - 1)
    ||| ((o0.width == 2 || src.width == 2) && i == x + 1)
    ||| (src.width == 2 && o1.width == 2 && i == x + 2)
}

/// The cell left where the pixel lands: the old glyph is cleared first,
/// then the new pixel composites over the blank.
pub open spec fn render_pixel_target(o0: Pixel, src: Pixel) -> Pixel {
    render_compose(
        if o0.character is Some {
            blanked(o0)
        } else {
            o0
        },
        src,
    )
}

/// Writing one pixel, clearing what it lands on and placing a continuation
/// marker after a two-column glyph, keeps the glyph bookkeeping intact.
proof fn lemma_render_pixel_inv(
    olds: Seq<Pixel>,
    news: Seq<Pixel>,
    w: int,
    h: int,
    x: int,
    y: int,
    src: Pixel,
)
    requires
        grid_inv(olds, w, h),
        news.len() == olds.len(),
        0 <= x < w,
        0 <= y < h,
        pixel_wf(src),
        1 <= src.width,
        x + src.width <= w,
        forall|i: int, j: int|
            0 <= i < w && 0 <= j < h && !(j == y && render_pixel_touches(
                cat(olds, w, x, y),
                if x + 1 < w {
                    cat(olds, w, x + 1, y)
                } else {
                    blank_pixel()
                },
                src,
                x,
                i,
            )) ==> #[trigger] cat(news, w, i, j) == cat(olds, w, i, j),
        cat(news, w, x, y) == render_pixel_target(cat(olds, w, x, y), src),
        is_skip_spec(cat(olds, w, x, y)) ==> cat(news, w, x - 1, y) == blanked(
            cat(olds, w, x - 1, y),
        ),
        src.width == 2 ==> cat(news, w, x + 1, y) == skip_of(src.style),
        src.width != 2 && cat(olds, w, x, y).width == 2 ==> cat(news, w, x + 1, y) == blanked(
            cat(olds, w, x + 1, y),
        ),
        src.width == 2 && x + 1 < w && cat(olds, w, x + 1, y).width == 2 ==> cat(news, w, x + 2, y)
            == blanked(cat(olds, w, x + 2, y)),
    ensures
        grid_inv(news, w, h),
{
    let o0 = cat(olds, w, x, y);
    let o1 = if x + 1 < w {
        cat(olds, w, x + 1, y)
    } else {
        blank_pixel()
    };
    assert(pixel_wf(o0));
    assert forall|i: int, j: int| 0 <= i < w && 0 <= j < h implies pixel_wf(
        #[trigger] cat(news, w, i, j),
    ) by {
        assert(pixel_wf(cat(olds, w, i, j)));
        if j == y && i == x {
            assert(cat(news, w, x, y) == render_pixel_target(o0, src));
        }
    }
    assert forall|i: int, j: int|
        0 <= i < w && 0 <= j < h && #[trigger] cat(news, w, i, j).width == 2 implies i + 1 < w
        && cat(news, w, i + 1, j).width == 0 by {
        assert(pixel_wf(cat(olds, w, i, j)));
        if j != y {
            assert(cat(news, w, i, j) == cat(olds, w, i, j));
            assert(cat(news, w, i + 1, j) == cat(olds, w, i + 1, j));
        } else {
            if is_skip_spec(o0) {
                assert(o0.width == 0);
                assert(x >= 1 && cat(olds, w, x - 1, y).width == 2);
            }
            if i == x {
                // the new glyph: two columns only when the source is
                assert(src.width == 2);
            } else if !(render_pixel_touches(o0, o1, src, x, i)) {
                assert(cat(news, w, i, j) == cat(olds, w, i, j));
                assert(cat(olds, w, i + 1, j).width == 0);
                if i + 1 == x {
                    assert(o0.width == 0);
                }
                if i + 1 == x - 1 && is_skip_spec(o0) {
                    assert(cat(olds, w, x - 1, y).width == 2);
                }
                if i + 1 == x + 1 {
                    assert(i == x);
                }
                if i + 1 == x + 2 && src.width == 2 && o1.width == 2 {
                    assert(cat(olds, w, x + 1, y).width == 2 && cat(olds, w, x + 2, y).width
                        == 0);
                }
            }
        }
    }
    assert forall|i: int, j: int|
        0 <= i < w && 0 <= j < h && #[trigger] cat(news, w, i, j).width == 0 implies i >= 1
        && cat(news, w, i - 1, j).width == 2 by {
        assert(pixel_wf(cat(olds, w, i, j)));
        if j != y {
            assert(cat(news, w, i, j) == cat(olds, w, i, j));
            assert(cat(news, w, i - 1, j) == cat(olds, w, i - 1, j));
        } else {
            if is_skip_spec(o0) {
                assert(o0.width == 0);
                assert(x >= 1 && cat(olds, w, x - 1, y).width == 2);
            }
            if i == x + 1 && src.width == 2 {
                // the marker just placed follows the new two-column glyph
                assert(cat(news, w, x, y) == render_pixel_target(o0, src));
                assert(cat(news, w, x, y).width == 2);
            } else if i == x {
                assert(cat(news, w, x, y) == render_pixel_target(o0, src));
            } else if !(render_pixel_touches(o0, o1, src, x, i)) {
                assert(cat(news, w, i, j) == cat(olds, w, i, j));
                assert(i >= 1 && cat(olds, w, i - 1, j).width == 2);
                if i - 1 == x {
                    assert(o0.width == 2);
                    assert(cat(olds, w, x + 1, y).width == 0);
                    assert(i == x + 1);
                }
                if i - 1 == x - 1 && is_skip_spec(o0) {
                    assert(cat(olds, w, x - 1, y).width == 2 && o0.width == 0);
                }
                if i - 1 == x + 1 && (o0.width == 2 || src.width == 2) {
                    if src.width == 2 {
                        assert(i == x + 2);
                        assert(cat(olds, w, x + 1, y).width == 2);
                    } else {
                        assert(o0.width == 2);
                        assert(cat(olds, w, x + 1, y).width == 0);
                        assert(cat(olds, w, i, j).width == 0);
                        assert(cat(olds, w, x + 2, y).width == 0 ==> cat(olds, w, x + 1, y).width
                            == 2);
                    }
                }
                if i - 1 == x + 2 && src.width == 2 && o1.width == 2 {
                    assert(cat(olds, w, x + 2, y).width == 0);
                    assert(cat(olds, w, i, j).width == 0 && cat(olds, w, i - 1, j).width == 2);
                }
            }
        }
    }
}

/// Copying a rectangle out of a well-kept grid and repairing the two cut
/// edges leaves the glyph bookkeeping intact.
proof fn lemma_cut_inv(src: &Buffer, dst: &Buffer, ca: Area)
    requires
        src.inv(),
        dst.sized(),
        dst.width == ca.width,
        dst.height == ca.height,
        0 < ca.width,
        0 < ca.height,
        ca.x + ca.width <= src.width,
        ca.y + ca.height <= src.height,
        forall|i: int, j: int|
            0 <= i < dst.width && 0 <= j < dst.height ==> #[trigger] cat(
                dst.pixels@,
                dst.width as int,
                i,
                j,
            ) == cut_cell(src.spec_at(ca.x + i, ca.y + j), i, dst.width as int),
    ensures
        dst.inv(),
        forall|j: int|
            0 <= j < dst.height ==> !is_skip_spec(#[trigger] dst.spec_at(0, j)) && dst.spec_at(
                dst.width as int - 1,
                j,
            ).width != 2,
{
    let w2 = dst.width as int;
    let h2 = dst.height as int;
    assert forall|i: int, j: int| 0 <= i < w2 && 0 <= j < h2 implies pixel_wf(
        #[trigger] cat(dst.pixels@, w2, i, j),
    ) by {
        assert(pixel_wf(src.spec_at(ca.x + i, ca.y + j)));
    }
    assert forall|i: int, j: int|
        0 <= i < w2 && 0 <= j < h2 && #[trigger] cat(dst.pixels@, w2, i, j).width == 2 implies i
        + 1 < w2 && cat(dst.pixels@, w2, i + 1, j).width == 0 by {
        let p = src.spec_at(ca.x + i, ca.y + j);
        assert(pixel_wf(p));
        assert(p.width == 2);
        assert(cat(src.pixels@, src.width as int, ca.x + i, ca.y + j).width == 2);
        assert(cat(src.pixels@, src.width as int, ca.x + i + 1, ca.y + j).width == 0);
        assert(pixel_wf(src.spec_at(ca.x + i + 1, ca.y + j)));
    }
    assert forall|i: int, j: int|
        0 <= i < w2 && 0 <= j < h2 && #[trigger] cat(dst.pixels@, w2, i, j).width == 0 implies i
        >= 1 && cat(dst.pixels@, w2, i - 1, j).width == 2 by {
        let p = src.spec_at(ca.x + i, ca.y + j);
        assert(pixel_wf(p));
        assert(is_skip_spec(p));
        assert(i >= 1);
        assert(cat(src.pixels@, src.width as int, ca.x + i, ca.y + j).width == 0);
        assert(cat(src.pixels@, src.width as int, ca.x + i - 1, ca.y + j).width == 2);
        assert(pixel_wf(src.spec_at(ca.x + i - 1, ca.y + j)));
    }
    assert forall|j: int| 0 <= j < h2 implies !is_skip_spec(#[trigger] dst.spec_at(0, j))
        && dst.spec_at(w2 - 1, j).width != 2 by {
        assert(pixel_wf(cat(dst.pixels@, w2, 0, j)));
        if cat(dst.pixels@, w2, 0, j).width == 0 {
        }
        if cat(dst.pixels@, w2, w2 - 1, j).width == 2 {
        }
    }
}

/// Rendering a two-column glyph and then clearing either of its cells
/// blanks both the glyph cell and its continuation marker: no dangling
/// half-glyph survives a clear.
pub proof fn lemma_clear_after_wide_render(
    pixels: Seq<Pixel>,
    w: int,
    h: int,
    x: int,
    y: int,
    src: Pixel,
    cx: int,
)
    requires
        grid_inv(pixels, w, h),
        pixel_wf(src),
        src.width == 2,
        0 <= x,
        x + 2 <= w,
        0 <= y < h,
        cx == x || cx == x + 1,
    ensures
        cat(
            clear_at_seq(render_pixel_seq(pixels, w, h, x, y, src), w, cx, y),
            w,
            x,
            y,
        ).character == Some(' '),
        cat(clear_at_seq(render_pixel_seq(pixels, w, h, x, y, src), w, cx, y), w, x, y).width
            == 1,
        cat(
            clear_at_seq(render_pixel_seq(pixels, w, h, x, y, src), w, cx, y),
            w,
            x + 1,
            y,
        ).character == Some(' '),
        cat(clear_at_seq(render_pixel_seq(pixels, w, h, x, y, src), w, cx, y), w, x + 1, y).width
            == 1,
{
    let rp = render_pixel_seq(pixels, w, h, x, y, src);
    assert(0 <= y * w + x && y * w + x + 1 < w * h) by (nonlinear_arith)
        requires
            0 <= x,
            x + 2 <= w,
            0 <= y < h,
    {
    }
    assert(cat(rp, w, x, y) == render_pixel_target(cat(pixels, w, x, y), src));
    assert(cat(rp, w, x + 1, y) == skip_of(src.style));
    assert(cat(rp, w, x, y).width == 2);
    assert(cat(rp, w, x, y).character is Some);
    let cleared = clear_at_seq(rp, w, cx, y);
    if cx == x {
        assert(cleared == rp.update(y * w + x + 1, blanked(cat(rp, w, x + 1, y))).update(
            y * w + x,
            blanked(cat(rp, w, x, y)),
        ));
    } else {
        assert(is_skip_spec(cat(rp, w, x + 1, y)));
        assert(cleared == rp.update(y * w + x, blanked(cat(rp, w, x, y))).update(
            y * w + x + 1,
            blanked(cat(rp, w, x + 1, y)),
        ));
    }
}

/// A fixed-size row-major grid of pixels; the rasterized frame.
#[derive(Debug, Clone)]
pub struct Buffer {
    pub pixels: Vec<Pixel>,
    pub width: u16,
    pub height: u16,
}

impl Buffer {
    /// The pixel storage matches the stated dimensions.
    pub open spec fn sized(self) -> bool {
        &&& self.pixels@.len() == self.width * self.height
        &&& self.width * self.height <= u16::MAX
    }

    pub open spec fn inv(self) -> bool {
        &&& self.sized()
        &&& grid_inv(self.pixels@, self.width as int, self.height as int)
    }

    pub open spec fn spec_at(self, x: int, y: int) -> Pixel {
        cat(self.pixels@, self.width as int, x, y)
    }

    /// The cells a clear at column x may touch: the cell itself, a
    /// two-column glyph's continuation to its right, or a continuation
    /// marker's glyph to its left.
    pub open spec fn clear_touches(p: Pixel, x: int, i: int) -> bool {
        i == x || (p.width == 2 && i == x + 1) || (is_skip_spec(p) && i == x - 1)
    }

    /// A buffer with the given size, every cell blank.
    pub fn new(width: u16, height: u16) -> (b: Buffer)
        requires
            width * height <= u16::MAX,
        ensures
            b.width == width,
            b.height == height,
            b.inv(),
            forall|x: int, y: int|
                0 <= x < width && 0 <= y < height ==> #[trigger] b.spec_at(x, y)
                    == crate::buffer::pixel::blank_pixel(),
            b.pixels@ == blank_grid(width as int, height as int),
    {
        let n: usize = width as usize * height as usize;
        let mut pixels: Vec<Pixel> = Vec::with_capacity(n);
        let mut k: usize = 0;
        while k < n
            invariant
                k <= n,
                pixels@.len() == k,
                forall|t: int|
                    0 <= t < k ==> #[trigger] pixels@[t] == crate::buffer::pixel::blank_pixel(),
            decreases n - k,
        {
            pixels.push(Pixel::new());
            k += 1;
        }
        let b = Buffer { pixels, width, height };
        proof {
            assert(b.pixels@ =~= blank_grid(width as int, height as int));
            assert forall|x: int, y: int| 0 <= x < width && 0 <= y < height implies #[trigger] cat(
                b.pixels@,
                width as int,
                x,
                y,
            ) == crate::buffer::pixel::blank_pixel() by {
                assert(0 <= y * width + x < width * height) by (nonlinear_arith)
                    requires
                        0 <= x < width as int,
                        0 <= y < height as int,
                {
                }
            }
        }
        b
    }

    pub fn width(&self) -> (w: u16)
        ensures
            w == self.width,
    {
        self.width
    }

    pub fn height(&self) -> (h: u16)
        ensures
            h == self.height,
    {
        self.height
    }

    fn index(&self, x: u16, y: u16) -> (i: usize)
        requires
            self.sized(),
            x < self.width,
            y < self.height,
        ensures
            i == y * self.width + x,
            i < self.pixels@.len(),
    {
        proof {
            assert(0 <= y * self.width + x < self.width * self.height) by (nonlinear_arith)
                requires
                    0 <= x < self.width as int,
                    0 <= y < self.height as int,
            {
            }
        }
        y as usize * self.width as usize + x as usize
    }

    /// The pixel at (x, y). Callers must pre-clip: coordinates outside the
    /// buffer are a contract violation.
    pub fn get(&self, x: u16, y: u16) -> (p: &Pixel)
        requires
            self.sized(),
            x < self.width,
            y < self.height,
        ensures
            *p == self.spec_at(x as int, y as int),
    {
        let i = self.index(x, y);
        &self.pixels[i]
    }

    /// A mutable handle to the pixel at (x, y), with no glyph bookkeeping:
    /// the caller answers for any two-column glyph or continuation marker a
    /// write through it splits. Coordinates outside the buffer are a
    /// contract violation.
    pub fn get_mut(&mut self, x: u16, y: u16) -> (p: &mut Pixel)
        requires
            old(self).sized(),
            x < old(self).width,
            y < old(self).height,
        ensures
            *p == old(self).spec_at(x as int, y as int),
            final(self).width == old(self).width,
            final(self).height == old(self).height,
            final(self).pixels@ == old(self).pixels@.update(
                y as int * old(self).width as int + x as int,
                *final(p),
            ),
    {
        let i = self.index(x, y);
        &mut self.pixels[i]
    }

    /// Replaces the pixel at (x, y) outright, with no glyph bookkeeping:
    /// the caller answers for any two-column glyph or continuation marker
    /// this splits.
    pub fn replace_at(&mut self, x: u16, y: u16, pixel: Pixel)
        requires
            old(self).sized(),
            x < old(self).width,
            y < old(self).height,
        ensures
            final(self).width == old(self).width,
            final(self).height == old(self).height,
            final(self).pixels@ == old(self).pixels@.update(
                y as int * old(self).width as int + x as int,
                pixel,
            ),
            final(self).sized(),
    {
        let i = self.index(x, y);
        self.pixels.set(i, pixel);
    }

    /// Erases the glyph occupying (x, y): a continuation marker's glyph to
    /// the left and a two-column glyph's continuation to the right are
    /// blanked along with the cell, so no half glyph survives. The target
    /// cell's style is kept; an already-empty cell is left alone.
    pub fn clear_at(&mut self, x: u16, y: u16)
        requires
            old(self).sized(),
            x < old(self).width,
            y < old(self).height,
            pixel_wf(old(self).spec_at(x as int, y as int)),
            old(self).spec_at(x as int, y as int).width == 2 ==> x + 1 < old(self).width,
            is_skip_spec(old(self).spec_at(x as int, y as int)) ==> x >= 1,
        ensures
            old(self).inv() ==> final(self).inv(),
            final(self).width == old(self).width,
            final(self).height == old(self).height,
            final(self).sized(),
            final(self).pixels@ == clear_at_seq(
                old(self).pixels@,
                old(self).width as int,
                x as int,
                y as int,
            ),
            forall|i: int, j: int|
                0 <= i < old(self).width && 0 <= j < old(self).height && !(j == y
                    && Self::clear_touches(old(self).spec_at(x as int, y as int), x as int, i))
                    ==> #[trigger] final(self).spec_at(i, j) == old(self).spec_at(i, j),
            old(self).spec_at(x as int, y as int).character is Some ==> final(self).spec_at(
                x as int,
                y as int,
            ) == blanked(old(self).spec_at(x as int, y as int)),
            old(self).spec_at(x as int, y as int).character is None ==> final(self).pixels@ == old(
                self,
            ).pixels@,
            old(self).spec_at(x as int, y as int).width == 2 ==> final(self).spec_at(
                x as int + 1,
                y as int,
            ) == blanked(old(self).spec_at(x as int + 1, y as int)),
            is_skip_spec(old(self).spec_at(x as int, y as int)) ==> final(self).spec_at(
                x as int - 1,
                y as int,
            ) == blanked(old(self).spec_at(x as int - 1, y as int)),
    {
        let ghost w = old(self).width as int;
        let ghost h = old(self).height as int;
        let target = *self.get(x, y);
        if target.width() == 2 {
            let mut n = *self.get(x + 1, y);
            n.blank();
            proof {
                lemma_cell_update(self.pixels@, w, h, x + 1, y as int, n);
            }
            self.replace_at(x + 1, y, n);
        } else if target.is_skip() {
            let mut n = *self.get(x - 1, y);
            n.blank();
            proof {
                lemma_cell_update(self.pixels@, w, h, x as int - 1, y as int, n);
            }
            self.replace_at(x - 1, y, n);
        }
        if target.character().is_some() {
            let mut n = *self.get(x, y);
            n.blank();
            proof {
                lemma_cell_update(self.pixels@, w, h, x as int, y as int, n);
            }
            self.replace_at(x, y, n);
        }
        proof {
            if old(self).inv() {
                lemma_clear_preserves_inv(
                    old(self).pixels@,
                    self.pixels@,
                    w,
                    h,
                    x as int,
                    y as int,
                );
            }
        }
    }

    /// Writes one pixel at (x, y), bounds-checked: whatever glyph occupied
    /// the cell is cleared first, the pixel composites over the blank, and
    /// a two-column pixel marks the next column as its continuation. A
    /// pixel that would not fit leaves the buffer unchanged.
    pub fn render_pixel(&mut self, x: u16, y: u16, pixel: &Pixel)
        requires
            old(self).inv(),
            pixel_wf(*pixel),
            1 <= pixel.width,
        ensures
            final(self).width == old(self).width,
            final(self).height == old(self).height,
            final(self).inv(),
            final(self).pixels@ == render_pixel_seq(
                old(self).pixels@,
                old(self).width as int,
                old(self).height as int,
                x as int,
                y as int,
                *pixel,
            ),
            !(y < old(self).height && x + pixel.width <= old(self).width) ==> final(self).pixels@
                == old(self).pixels@,
            y < old(self).height && x + pixel.width <= old(self).width ==> forall|i: int, j: int|
                0 <= i < old(self).width && 0 <= j < old(self).height && !(j == y
                    && render_pixel_touches(
                    old(self).spec_at(x as int, y as int),
                    if x + 1 < old(self).width {
                        old(self).spec_at(x as int + 1, y as int)
                    } else {
                        blank_pixel()
                    },
                    *pixel,
                    x as int,
                    i,
                )) ==> #[trigger] final(self).spec_at(i, j) == old(self).spec_at(i, j),
            y < old(self).height && x + pixel.width <= old(self).width ==> final(self).spec_at(
                x as int,
                y as int,
            ) == render_pixel_target(old(self).spec_at(x as int, y as int), *pixel),
            y < old(self).height && x + pixel.width <= old(self).width && is_skip_spec(
                old(self).spec_at(x as int, y as int),
            ) ==> final(self).spec_at(x as int - 1, y as int) == blanked(
                old(self).spec_at(x as int - 1, y as int),
            ),
            y < old(self).height && x + pixel.width <= old(self).width && pixel.width == 2
                ==> final(self).spec_at(x as int + 1, y as int) == skip_of(pixel.style),
            y < old(self).height && x + pixel.width <= old(self).width && pixel.width != 2
                && old(self).spec_at(x as int, y as int).width == 2 ==> final(self).spec_at(
                x as int + 1,
                y as int,
            ) == blanked(old(self).spec_at(x as int + 1, y as int)),
            y < old(self).height && x + pixel.width <= old(self).width && pixel.width == 2 && x + 1
                < old(self).width && old(self).spec_at(x as int + 1, y as int).width == 2
                ==> final(self).spec_at(x as int + 2, y as int) == blanked(
                old(self).spec_at(x as int + 2, y as int),
            ),
    {
        let ghost w = old(self).width as int;
        let ghost h = old(self).height as int;
        let ghost o0 = old(self).spec_at(x as int, y as int);
        let ghost o1 = if x + 1 < old(self).width {
            old(self).spec_at(x as int + 1, y as int)
        } else {
            blank_pixel()
        };
        if y < self.height && x as u32 + pixel.width() as u32 <= self.width as u32 {
            proof {
                assert(pixel_wf(o0));
                if o0.width == 2 {
                    assert(cat(old(self).pixels@, w, x as int, y as int).width == 2);
                }
                if is_skip_spec(o0) {
                    assert(cat(old(self).pixels@, w, x as int, y as int).width == 0);
                }
            }
            self.clear_at(x, y);
            let ghost ba = *self;
            let mut cell = *self.get(x, y);
            cell.render(pixel);
            proof {
                lemma_cell_update(self.pixels@, w, h, x as int, y as int, cell);
            }
            self.replace_at(x, y, cell);
            let ghost bb = *self;
            if pixel.width() == 2 {
                proof {
                    assert(x + 1 < old(self).width);
                    assert(bb.spec_at(x + 1, y as int) == ba.spec_at(x + 1, y as int));
                    if o0.width == 2 {
                        assert(ba.spec_at(x + 1, y as int) == blanked(o1));
                    } else {
                        assert(ba.spec_at(x + 1, y as int) == o1);
                        assert(pixel_wf(cat(old(self).pixels@, w, x + 1, y as int)));
                        if is_skip_spec(o1) {
                            assert(cat(old(self).pixels@, w, x + 1, y as int).width == 0);
                            assert(cat(old(self).pixels@, w, x as int, y as int).width == 2);
                        }
                        if o1.width == 2 {
                            assert(cat(old(self).pixels@, w, x + 1, y as int).width == 2);
                            assert(x + 2 < old(self).width);
                        }
                    }
                    assert(!is_skip_spec(bb.spec_at(x + 1, y as int)));
                    assert(pixel_wf(bb.spec_at(x + 1, y as int)));
                }
                self.clear_at(x + 1, y);
                let ghost bc = *self;
                let mut m = *self.get(x + 1, y);
                m.set_style(pixel.style());
                m.set_skip();
                proof {
                    lemma_cell_update(self.pixels@, w, h, x as int + 1, y as int, m);
                }
                self.replace_at(x + 1, y, m);
                proof {
                    assert forall|i: int, j: int|
                        0 <= i < w && 0 <= j < h && !(j == y && render_pixel_touches(
                            o0,
                            o1,
                            *pixel,
                            x as int,
                            i,
                        )) implies #[trigger] self.spec_at(i, j) == old(self).spec_at(i, j) by {
                        assert(ba.spec_at(i, j) == old(self).spec_at(i, j));
                        assert(bb.spec_at(i, j) == ba.spec_at(i, j));
                        assert(bc.spec_at(i, j) == bb.spec_at(i, j));
                        assert(self.spec_at(i, j) == bc.spec_at(i, j));
                    }
                    assert(self.spec_at(x as int, y as int) == bb.spec_at(x as int, y as int));
                    assert(self.spec_at(x as int + 1, y as int) == skip_of(pixel.style));
                    if is_skip_spec(o0) {
                        assert(ba.spec_at(x as int - 1, y as int) == blanked(
                            old(self).spec_at(x as int - 1, y as int),
                        ));
                        assert(bb.spec_at(x as int - 1, y as int) == ba.spec_at(
                            x as int - 1,
                            y as int,
                        ));
                        assert(bc.spec_at(x as int - 1, y as int) == bb.spec_at(
                            x as int - 1,
                            y as int,
                        ));
                        assert(self.spec_at(x as int - 1, y as int) == bc.spec_at(
                            x as int - 1,
                            y as int,
                        ));
                    }
                    if o1.width == 2 {
                        assert(cat(old(self).pixels@, w, x + 1, y as int).width == 2);
                        assert(x + 2 < w);
                        assert(ba.spec_at(x as int + 2, y as int) == old(self).spec_at(
                            x as int + 2,
                            y as int,
                        ));
                        assert(bb.spec_at(x as int + 2, y as int) == ba.spec_at(
                            x as int + 2,
                            y as int,
                        ));
                        assert(bc.spec_at(x as int + 2, y as int) == blanked(
                            bb.spec_at(x as int + 2, y as int),
                        ));
                        assert(self.spec_at(x as int + 2, y as int) == bc.spec_at(
                            x as int + 2,
                            y as int,
                        ));
                    }
                }
            } else {
                proof {
                    assert forall|i: int, j: int|
                        0 <= i < w && 0 <= j < h && !(j == y && render_pixel_touches(
                            o0,
                            o1,
                            *pixel,
                            x as int,
                            i,
                        )) implies #[trigger] self.spec_at(i, j) == old(self).spec_at(i, j) by {
                        assert(ba.spec_at(i, j) == old(self).spec_at(i, j));
                        assert(self.spec_at(i, j) == ba.spec_at(i, j));
                    }
                    if is_skip_spec(o0) {
                        assert(ba.spec_at(x as int - 1, y as int) == blanked(
                            old(self).spec_at(x as int - 1, y as int),
                        ));
                        assert(self.spec_at(x as int - 1, y as int) == ba.spec_at(
                            x as int - 1,
                            y as int,
                        ));
                    }
                    if o0.width == 2 {
                        assert(ba.spec_at(x as int + 1, y as int) == blanked(o1));
                        assert(self.spec_at(x as int + 1, y as int) == ba.spec_at(
                            x as int + 1,
                            y as int,
                        ));
                    }
                }
            }
            proof {
                assert forall|i: int, j: int|
                    0 <= i < w && 0 <= j < h && !(j == y && render_pixel_touches(
                        o0,
                        o1,
                        *pixel,
                        x as int,
                        i,
                    )) implies #[trigger] cat(self.pixels@, w, i, j) == cat(
                    old(self).pixels@,
                    w,
                    i,
                    j,
                ) by {
                    assert(self.spec_at(i, j) == old(self).spec_at(i, j));
                }
                lemma_render_pixel_inv(
                    old(self).pixels@,
                    self.pixels@,
                    w,
                    h,
                    x as int,
                    y as int,
                    *pixel,
                );
                let rp = render_pixel_seq(
                    old(self).pixels@,
                    w,
                    h,
                    x as int,
                    y as int,
                    *pixel,
                );
                assert(rp.len() == old(self).pixels@.len());
                assert forall|i: int, j: int| 0 <= i < w && 0 <= j < h implies #[trigger] cat(
                    self.pixels@,
                    w,
                    i,
                    j,
                ) == cat(rp, w, i, j) by {
                    lemma_idx_eq(w, h, i, j, x as int, y as int);
                    if x + 1 < w {
                        lemma_idx_eq(w, h, i, j, x as int + 1, y as int);
                    }
                    if x + 2 < w {
                        lemma_idx_eq(w, h, i, j, x as int + 2, y as int);
                    }
                    if x >= 1 {
                        lemma_idx_eq(w, h, i, j, x as int - 1, y as int);
                    }
                    if pixel.width == 2 {
                        assert(x + 1 < w);
                    }
                    if o0.width == 2 {
                        assert(x + 1 < w);
                    }
                    if is_skip_spec(o0) {
                        assert(x >= 1);
                    }
                    if pixel.width == 2 && o1.width == 2 {
                        assert(x + 2 < w);
                    }
                    assert(0 <= j * w + i < w * h) by (nonlinear_arith)
                        requires
                            0 <= i < w,
                            0 <= j < h,
                    {
                    }
                }
                lemma_grid_ext(self.pixels@, rp, w, h);
            }
        } else {
            proof {
                assert(self.pixels@ == render_pixel_seq(
                    old(self).pixels@,
                    w,
                    h,
                    x as int,
                    y as int,
                    *pixel,
                ));
            }
        }
    }

    /// Resets every cell to blank.
    pub fn clear(&mut self)
        requires
            old(self).sized(),
        ensures
            final(self).width == old(self).width,
            final(self).height == old(self).height,
            final(self).inv(),
            forall|i: int, j: int|
                0 <= i < old(self).width && 0 <= j < old(self).height
                    ==> #[trigger] final(self).spec_at(i, j) == blank_pixel(),
    {
        let ghost w = old(self).width as int;
        let ghost h = old(self).height as int;
        let n = self.pixels.len();
        let mut k: usize = 0;
        while k < n
            invariant
                n == self.pixels@.len(),
                self.width == old(self).width,
                self.height == old(self).height,
                k <= n,
                forall|t: int| 0 <= t < k ==> #[trigger] self.pixels@[t] == blank_pixel(),
            decreases n - k,
        {
            let mut p = self.pixels[k];
            p.clear();
            self.pixels.set(k, p);
            k += 1;
        }
        proof {
            assert forall|i: int, j: int|
                0 <= i < w && 0 <= j < h implies #[trigger] cat(self.pixels@, w, i, j)
                == blank_pixel() by {
                assert(0 <= j * w + i < w * h) by (nonlinear_arith)
                    requires
                        0 <= i < w,
                        0 <= j < h,
                {
                }
            }
        }
    }

    /// Sets only the background color of every cell in the clipped area;
    /// an unset color leaves the buffer alone.
    pub fn render_background(&mut self, area: Area, background: Option<Color>)
        requires
            old(self).inv(),
            area.wf(),
        ensures
            final(self).width == old(self).width,
            final(self).height == old(self).height,
            final(self).inv(),
            final(self).pixels@ == bg_apply(
                old(self).pixels@,
                old(self).width as int,
                old(self).height as int,
                area,
                background,
            ),
            background is None ==> final(self).pixels@ == old(self).pixels@,
            background matches Some(c) ==> final(self).pixels@ == background_seq(
                old(self).pixels@,
                old(self).width as int,
                old(self).height as int,
                Area::from_wh_spec(old(self).width, old(self).height).spec_intersect(area),
                c,
            ),
            background matches Some(c) ==> forall|i: int, j: int|
                0 <= i < old(self).width && 0 <= j < old(self).height
                    ==> #[trigger] final(self).spec_at(i, j) == (if in_area(
                    Area::from_wh_spec(old(self).width, old(self).height).spec_intersect(area),
                    i,
                    j,
                ) {
                    with_background(old(self).spec_at(i, j), c)
                } else {
                    old(self).spec_at(i, j)
                }),
    {
        let ghost w = old(self).width as int;
        let ghost h = old(self).height as int;
        let bg = match background {
            Some(c) => c,
            None => {
                return ;
            },
        };
        let clipped = Area::from_wh(self.width, self.height).intersect(area);
        let ghost ca = clipped;
        let mut y = clipped.y;
        while y < clipped.y + clipped.height
            invariant
                self.width == old(self).width,
                self.height == old(self).height,
                old(self).inv(),
                self.sized(),
                ca == clipped,
                ca == Area::from_wh_spec(old(self).width, old(self).height).spec_intersect(area),
                ca.y <= y <= ca.y + ca.height,
                ca.wf(),
                ca.y + ca.height <= old(self).height,
                ca.x + ca.width <= old(self).width,
                w == old(self).width as int,
                h == old(self).height as int,
                forall|i: int, j: int|
                    0 <= i < w && 0 <= j < h ==> #[trigger] self.spec_at(i, j) == (if in_area(
                        ca,
                        i,
                        j,
                    ) && j < y {
                        with_background(old(self).spec_at(i, j), bg)
                    } else {
                        old(self).spec_at(i, j)
                    }),
            decreases ca.y + ca.height - y,
        {
            let mut x = clipped.x;
            while x < clipped.x + clipped.width
                invariant
                    self.width == old(self).width,
                    self.height == old(self).height,
                    old(self).inv(),
                    self.sized(),
                    ca == clipped,
                    ca.wf(),
                    ca == clipped,
                    ca.y <= y < ca.y + ca.height,
                    ca.x <= x <= ca.x + ca.width,
                    ca.y + ca.height <= old(self).height,
                    ca.x + ca.width <= old(self).width,
                    w == old(self).width as int,
                    h == old(self).height as int,
                    forall|i: int, j: int|
                        0 <= i < w && 0 <= j < h ==> #[trigger] self.spec_at(i, j) == (if in_area(
                            ca,
                            i,
                            j,
                        ) && (j < y || (j == y && i < x)) {
                            with_background(old(self).spec_at(i, j), bg)
                        } else {
                            old(self).spec_at(i, j)
                        }),
                decreases ca.x + ca.width - x,
            {
                let ghost pre = *self;
                let mut p = *self.get(x, y);
                p.set_background(bg);
                proof {
                    lemma_cell_update(self.pixels@, w, h, x as int, y as int, p);
                }
                self.replace_at(x, y, p);
                x += 1;
                proof {
                    assert(self.spec_at(x - 1, y as int) == p);
                    assert(p == with_background(old(self).spec_at(x - 1, y as int), bg));
                    assert forall|i: int, j: int|
                        0 <= i < w && 0 <= j < h && !(i == x - 1 && j == y) implies #[trigger] self
                        .spec_at(i, j) == pre.spec_at(i, j) by {
                    }
                }
            }
            y += 1;
            proof {
                assert forall|i: int, j: int| 0 <= i < w && 0 <= j < h implies #[trigger] self
                    .spec_at(i, j) == (if in_area(ca, i, j) && j < y {
                    with_background(old(self).spec_at(i, j), bg)
                } else {
                    old(self).spec_at(i, j)
                }) by {
                }
            }
        }
        proof {
            assert forall|i: int, j: int| 0 <= i < w && 0 <= j < h implies pixel_wf(
                #[trigger] cat(self.pixels@, w, i, j),
            ) && cat(self.pixels@, w, i, j).width == cat(old(self).pixels@, w, i, j).width by {
                assert(pixel_wf(cat(old(self).pixels@, w, i, j)));
                assert(self.spec_at(i, j) == (if in_area(ca, i, j) {
                    with_background(old(self).spec_at(i, j), bg)
                } else {
                    old(self).spec_at(i, j)
                }));
            }
            assert forall|i: int, j: int|
                0 <= i < w && 0 <= j < h && #[trigger] cat(self.pixels@, w, i, j).width
                    == 2 implies i + 1 < w && cat(self.pixels@, w, i + 1, j).width == 0 by {
                assert(cat(old(self).pixels@, w, i, j).width == 2);
            }
            assert forall|i: int, j: int|
                0 <= i < w && 0 <= j < h && #[trigger] cat(self.pixels@, w, i, j).width
                    == 0 implies i >= 1 && cat(self.pixels@, w, i - 1, j).width == 2 by {
                assert(cat(old(self).pixels@, w, i, j).width == 0);
            }
            let bs = background_seq(old(self).pixels@, w, h, ca, bg);
            assert forall|i: int, j: int| 0 <= i < w && 0 <= j < h implies #[trigger] cat(
                self.pixels@,
                w,
                i,
                j,
            ) == cat(bs, w, i, j) by {
                assert(0 <= j * w + i < w * h) by (nonlinear_arith)
                    requires
                        0 <= i < w,
                        0 <= j < h,
                {
                }
                assert((j * w + i) % w == i && (j * w + i) / w == j) by (nonlinear_arith)
                    requires
                        0 <= i < w,
                        0 <= j,
                {
                }
                assert(self.spec_at(i, j) == (if in_area(ca, i, j) {
                    with_background(old(self).spec_at(i, j), bg)
                } else {
                    old(self).spec_at(i, j)
                }));
            }
            lemma_grid_ext(self.pixels@, bs, w, h);
        }
    }

    /// Extracts a deep copy of the intersection of `area` with the buffer.
    /// A continuation marker cut off at the new left edge, or a two-column
    /// glyph cut off at the new right edge, is repaired to a blank, so the
    /// extracted buffer never shows a truncated wide glyph.
    pub fn cut(&self, area: Area) -> (r: Buffer)
        requires
            self.inv(),
            area.wf(),
        ensures
            r.inv(),
            Area::from_wh_spec(self.width, self.height).spec_intersect(area).spec_is_empty()
                ==> r.width == 0 && r.height == 0,
            !Area::from_wh_spec(self.width, self.height).spec_intersect(area).spec_is_empty()
                ==> r.width == Area::from_wh_spec(self.width, self.height).spec_intersect(
                area,
            ).width && r.height == Area::from_wh_spec(self.width, self.height).spec_intersect(
                area,
            ).height,
            forall|i: int, j: int|
                0 <= i < r.width && 0 <= j < r.height ==> #[trigger] r.spec_at(i, j) == cut_cell(
                    self.spec_at(
                        Area::from_wh_spec(self.width, self.height).spec_intersect(area).x + i,
                        Area::from_wh_spec(self.width, self.height).spec_intersect(area).y + j,
                    ),
                    i,
                    r.width as int,
                ),
            forall|j: int|
                0 <= j < r.height ==> !is_skip_spec(#[trigger] r.spec_at(0, j)) && r.spec_at(
                    r.width as int - 1,
                    j,
                ).width != 2,
    {
        let clipped = Area::from_wh(self.width, self.height).intersect(area);
        if clipped.is_empty() {
            return Buffer::new(0, 0);
        }
        let ghost ca = clipped;
        let aw = clipped.width;
        let ah = clipped.height;
        proof {
            assert(aw * ah <= self.width * self.height) by (nonlinear_arith)
                requires
                    0 <= aw <= self.width,
                    0 <= ah <= self.height,
            {
            }
        }
        let mut buffer = Buffer::new(aw, ah);
        let ghost w2 = aw as int;
        let ghost h2 = ah as int;
        let mut y: u16 = 0;
        while y < ah
            invariant
                self.inv(),
                ca == clipped,
                buffer.width == aw,
                buffer.height == ah,
                buffer.sized(),
                0 < aw <= self.width,
                0 < ah <= self.height,
                ca.x + aw <= self.width,
                ca.y + ah <= self.height,
                y <= ah,
                w2 == aw as int,
                h2 == ah as int,
                forall|i: int, j: int|
                    0 <= i < aw && 0 <= j < y ==> #[trigger] cat(buffer.pixels@, w2, i, j)
                        == cut_cell(self.spec_at(ca.x + i, ca.y + j), i, w2),
            decreases ah - y,
        {
            let mut x: u16 = 0;
            while x < aw
                invariant
                    self.inv(),
                    ca == clipped,
                    buffer.width == aw,
                    buffer.height == ah,
                    buffer.sized(),
                    0 < aw <= self.width,
                    0 < ah <= self.height,
                    ca.x + aw <= self.width,
                    ca.y + ah <= self.height,
                    y < ah,
                    x <= aw,
                    w2 == aw as int,
                    h2 == ah as int,
                    forall|i: int, j: int|
                        0 <= i < aw && 0 <= j < y ==> #[trigger] cat(buffer.pixels@, w2, i, j)
                            == cut_cell(self.spec_at(ca.x + i, ca.y + j), i, w2),
                    forall|i: int|
                        0 <= i < x ==> #[trigger] cat(buffer.pixels@, w2, i, y as int)
                            == self.spec_at(ca.x + i, ca.y + y),
                decreases aw - x,
            {
                let p = *self.get(clipped.x + x, clipped.y + y);
                proof {
                    lemma_cell_update(buffer.pixels@, w2, h2, x as int, y as int, p);
                }
                buffer.replace_at(x, y, p);
                x += 1;
            }
            // repair a continuation marker cut off at the new left edge
            if buffer.get(0, y).is_skip() {
                let mut p = *buffer.get(0, y);
                p.blank();
                proof {
                    lemma_cell_update(buffer.pixels@, w2, h2, 0, y as int, p);
                }
                buffer.replace_at(0, y, p);
            }
            // repair a two-column glyph cut off at the new right edge
            if buffer.get(aw - 1, y).width() == 2 {
                let mut p = *buffer.get(aw - 1, y);
                p.blank();
                proof {
                    lemma_cell_update(buffer.pixels@, w2, h2, aw as int - 1, y as int, p);
                }
                buffer.replace_at(aw - 1, y, p);
            }
            proof {
                assert forall|i: int|
                    0 <= i < aw implies #[trigger] cat(buffer.pixels@, w2, i, y as int)
                    == cut_cell(self.spec_at(ca.x + i, ca.y + y), i, w2) by {
                    assert(pixel_wf(self.spec_at(ca.x + i, ca.y + y)));
                }
            }
            y += 1;
        }
        proof {
            lemma_cut_inv(self, &buffer, ca);
        }
        buffer
    }

    /// Blanks the continuation marker at column x when one dangles there,
    /// glyph included; the cleanup step that ends each row of `fill` and
    /// `render`.
    fn row_cleanup(&mut self, x: u16, y: u16)
        requires
            old(self).inv(),
            y < old(self).height,
        ensures
            final(self).width == old(self).width,
            final(self).height == old(self).height,
            final(self).inv(),
            final(self).pixels@ == row_cleanup_seq(
                old(self).pixels@,
                old(self).width as int,
                x as int,
                y as int,
            ),
    {
        if x < self.width {
            let skip_here = self.get(x, y).is_skip();
            if skip_here {
                self.clear_at(x, y);
            }
        }
    }

    /// Tiles the pixel across the clipped area, left to right and top to
    /// bottom; each row stops before any tile that would cross the area's
    /// right edge, and a continuation marker left dangling past the
    /// stopping point is blanked along with its glyph.
    pub fn fill(&mut self, area: Area, pixel: Pixel)
        requires
            old(self).inv(),
            area.wf(),
            pixel_wf(pixel),
            1 <= pixel.width,
        ensures
            final(self).width == old(self).width,
            final(self).height == old(self).height,
            final(self).inv(),
            final(self).pixels@ == fill_rows_seq(
                old(self).pixels@,
                old(self).width as int,
                old(self).height as int,
                Area::from_wh_spec(old(self).width, old(self).height).spec_intersect(area),
                Area::from_wh_spec(old(self).width, old(self).height).spec_intersect(area).y as int,
                pixel,
            ),
    {
        let ghost w = old(self).width as int;
        let ghost h = old(self).height as int;
        let clipped = Area::new(0, 0, self.width, self.height).intersect(area);
        let ghost ca = clipped;
        let ghost goal = fill_rows_seq(old(self).pixels@, w, h, ca, ca.y as int, pixel);
        let mut y = clipped.y;
        while y < clipped.y + clipped.height
            invariant
                self.width == old(self).width,
                self.height == old(self).height,
                self.inv(),
                ca == clipped,
                ca.wf(),
                ca.y <= y <= ca.y + ca.height,
                ca.y + ca.height <= old(self).height,
                ca.x + ca.width <= old(self).width,
                w == old(self).width as int,
                h == old(self).height as int,
                pixel_wf(pixel),
                1 <= pixel.width,
                goal == fill_rows_seq(self.pixels@, w, h, ca, y as int, pixel),
            decreases ca.y + ca.height - y,
        {
            let mut x = clipped.x;
            let ghost row_goal = fill_row_seq(self.pixels@, w, h, ca, y as int, ca.x as int, pixel);
            while (x as u32) + (pixel.width() as u32) <= (clipped.x as u32) + (clipped.width as u32)
                invariant
                    self.width == old(self).width,
                    self.height == old(self).height,
                    self.inv(),
                    ca == clipped,
                    ca.wf(),
                    ca.y <= y < ca.y + ca.height,
                    ca.x <= x,
                    x as int <= ca.x + ca.width,
                    ca.y + ca.height <= old(self).height,
                    ca.x + ca.width <= old(self).width,
                    w == old(self).width as int,
                    h == old(self).height as int,
                    pixel_wf(pixel),
                    1 <= pixel.width,
                    row_goal == fill_row_seq(self.pixels@, w, h, ca, y as int, x as int, pixel),
                decreases ca.x + ca.width - x,
            {
                self.render_pixel(x, y, &pixel);
                x += pixel.width() as u16;
            }
            self.row_cleanup(x, y);
            proof {
                assert(self.pixels@ == row_goal);
            }
            y += 1;
        }
        proof {
            assert(self.pixels@ == goal);
        }
    }

    /// Lays out one source line from row y0, and reports the row the next
    /// line starts on.
    #[verifier::rlimit(100)]
    #[verifier::spinoff_prover]
    fn render_line(
        &mut self,
        line: &Vec<char>,
        style: Style,
        sx: u16,
        ex: u16,
        ey: u16,
        wrap: bool,
        y0: u16,
    ) -> (r: u16)
        requires
            old(self).inv(),
            sx <= ex,
            y0 < ey,
            ey <= old(self).height,
            ex <= old(self).width,
        ensures
            final(self).width == old(self).width,
            final(self).height == old(self).height,
            final(self).inv(),
            final(self).pixels@ == rs_line_seq(
                old(self).pixels@,
                old(self).width as int,
                old(self).height as int,
                line@,
                0,
                sx as int,
                y0 as int,
                sx as int,
                ex as int,
                ey as int,
                style,
                wrap,
            ).0,
            r as int == rs_line_seq(
                old(self).pixels@,
                old(self).width as int,
                old(self).height as int,
                line@,
                0,
                sx as int,
                y0 as int,
                sx as int,
                ex as int,
                ey as int,
                style,
                wrap,
            ).1,
    {
        let ghost w = old(self).width as int;
        let ghost h = old(self).height as int;
        let ghost goal = rs_line_seq(
            old(self).pixels@,
            w,
            h,
            line@,
            0,
            sx as int,
            y0 as int,
            sx as int,
            ex as int,
            ey as int,
            style,
            wrap,
        );
        let mut x = sx;
        let mut y = y0;
        let mut k: usize = 0;
        let mut done = false;
        let n = line.len();
        while k < n && !done
            invariant
                n == line@.len(),
                k <= n,
                self.width == old(self).width,
                self.height == old(self).height,
                self.inv(),
                w == old(self).width as int,
                h == old(self).height as int,
                sx <= ex,
                ex <= old(self).width,
                ey <= old(self).height,
                y < ey,
                sx <= x <= ex,
                !done ==> goal == rs_line_seq(
                    self.pixels@,
                    w,
                    h,
                    line@,
                    k as int,
                    x as int,
                    y as int,
                    sx as int,
                    ex as int,
                    ey as int,
                    style,
                    wrap,
                ),
                done ==> goal.0 == self.pixels@ && goal.1 == y + 1,
            decreases n - k + (if done {
                0int
            } else {
                1int
            }),
        {
            let c = line[k];
            let control = c < ' ' || ('\u{7f}' <= c && c < '\u{a0}');
            let cw: u16 = if control {
                0
            } else {
                match char_width(c) {
                    Some(wd) => if 1 <= wd && wd <= 2 {
                        wd as u16
                    } else {
                        0
                    },
                    None => 0,
                }
            };
            proof {
                assert(control == is_control_char(c));
                assert(cw as int == rs_char_width(line@[k as int]));
            }
            if cw == 0 {
                k += 1;
                continue ;
            }
            if (sx as u32) + (cw as u32) > ex as u32 {
                let mut pad = Pixel::from_charw(' ', 1);
                pad.set_style(style);
                proof {
                    assert(pad == blank_of(style));
                }
                self.render_pixel(sx, y, &pad);
                done = true;
            } else if (x as u32) + (cw as u32) > ex as u32 {
                if ex - x > 0 {
                    let mut pad = Pixel::from_charw(' ', 1);
                    pad.set_style(style);
                    proof {
                        assert(pad == blank_of(style));
                    }
                    self.render_pixel(x, y, &pad);
                }
                if wrap && y + 1 < ey {
                    x = sx;
                    y = y + 1;
                    let mut g = Pixel::from_charw(c, cw as u8);
                    g.set_style(style);
                    proof {
                        assert(g == glyph_of(line@[k as int], cw as int, style));
                    }
                    self.render_pixel(x, y, &g);
                    x = x + cw;
                    k += 1;
                } else {
                    done = true;
                }
            } else {
                let mut g = Pixel::from_charw(c, cw as u8);
                g.set_style(style);
                proof {
                    assert(g == glyph_of(line@[k as int], cw as int, style));
                }
                self.render_pixel(x, y, &g);
                x = x + cw;
                k += 1;
            }
        }
        y + 1
    }

    /// The paragraph layout: splits the text on line breaks and lays each
    /// line into successive rows of the clipped area, walking characters
    /// left to right. A character that cannot fit within the line at all
    /// abandons the line after one padding blank; one that would cross the
    /// right edge pads the row, then continues on the next row when `wrap`
    /// is set and a further row exists within the area, and otherwise ends
    /// the line. Lines beyond the area's height are dropped.
    pub fn render_string(&mut self, string: &str, style: Style, area: Area, wrap: bool)
        requires
            old(self).inv(),
            area.wf(),
        ensures
            final(self).width == old(self).width,
            final(self).height == old(self).height,
            final(self).inv(),
            final(self).pixels@ == rs_apply(
                old(self).pixels@,
                old(self).width as int,
                old(self).height as int,
                spec_lines(string@),
                area,
                style,
                wrap,
            ),
            Area::from_wh_spec(old(self).width, old(self).height).spec_intersect(
                area,
            ).spec_is_empty() ==> final(self).pixels@ == old(self).pixels@,
            !Area::from_wh_spec(old(self).width, old(self).height).spec_intersect(
                area,
            ).spec_is_empty() ==> final(self).pixels@ == rs_lines_seq(
                old(self).pixels@,
                old(self).width as int,
                old(self).height as int,
                spec_lines(string@),
                0,
                Area::from_wh_spec(old(self).width, old(self).height).spec_intersect(area).y as int,
                Area::from_wh_spec(old(self).width, old(self).height).spec_intersect(area).x as int,
                Area::from_wh_spec(old(self).width, old(self).height).spec_intersect(area).x
                    + Area::from_wh_spec(old(self).width, old(self).height).spec_intersect(
                    area,
                ).width,
                Area::from_wh_spec(old(self).width, old(self).height).spec_intersect(area).y
                    + Area::from_wh_spec(old(self).width, old(self).height).spec_intersect(
                    area,
                ).height,
                style,
                wrap,
            ),
    {
        let ghost w = old(self).width as int;
        let ghost h = old(self).height as int;
        let clipped = Area::new(0, 0, self.width, self.height).intersect(area);
        if clipped.is_empty() {
            return ;
        }
        let sx = clipped.x;
        let ex = clipped.x + clipped.width;
        let ey = clipped.y + clipped.height;
        let lines = split_lines(string);
        let ghost gls = spec_lines(string@);
        let ghost goal = rs_lines_seq(
            old(self).pixels@,
            w,
            h,
            gls,
            0,
            clipped.y as int,
            sx as int,
            ex as int,
            ey as int,
            style,
            wrap,
        );
        let mut y = clipped.y;
        let mut li: usize = 0;
        let mut stop = false;
        while li < lines.len() && !stop
            invariant
                lines.deep_view() == gls,
                lines@.len() == gls.len(),
                li <= gls.len(),
                self.width == old(self).width,
                self.height == old(self).height,
                self.inv(),
                w == old(self).width as int,
                h == old(self).height as int,
                sx <= ex,
                ex <= old(self).width,
                ey <= old(self).height,
                !stop ==> y < ey,
                !stop ==> goal == rs_lines_seq(
                    self.pixels@,
                    w,
                    h,
                    gls,
                    li as int,
                    y as int,
                    sx as int,
                    ex as int,
                    ey as int,
                    style,
                    wrap,
                ),
                stop ==> goal == self.pixels@,
            decreases lines@.len() - li,
        {
            let line = &lines[li];
            proof {
                assert(line.deep_view() == gls[li as int]);
                assert(line@ == gls[li as int]);
            }
            y = self.render_line(line, style, sx, ex, ey, wrap, y);
            li += 1;
            if y >= ey {
                stop = true;
            }
        }
    }

    /// Serializes the whole grid into one string, row by row: before each
    /// cell whose resolved style differs from the previous cell's, a style
    /// reset and the new style's escape codes; repeated same-style runs
    /// are not re-emitted. Every row ends in a full reset, and a row break
    /// follows every row but the last.
    #[verifier::rlimit(100)]
    #[verifier::spinoff_prover]
    pub fn view(&self, system: ColorSystem, theme: &Theme) -> (r: String)
        requires
            self.sized(),
        ensures
            r@ == view_rows_seq(
                self.pixels@,
                self.width as int,
                self.height as int,
                0,
                system,
                *theme,
            ),
    {
        let ghost w = self.width as int;
        let ghost h = self.height as int;
        let ghost goal = view_rows_seq(self.pixels@, w, h, 0, system, *theme);
        let mut out = String::new();
        proof {
            assert(out@ + goal =~= goal);
        }
        let mut y: u16 = 0;
        while y < self.height
            invariant
                self.sized(),
                w == self.width as int,
                h == self.height as int,
                y <= self.height,
                goal == view_rows_seq(self.pixels@, w, h, 0, system, *theme),
                out@ + view_rows_seq(self.pixels@, w, h, y as int, system, *theme) == goal,
            decreases h - y,
        {
            let mut last = Style::new();
            let mut x: u16 = 0;
            proof {
                reveal_strlit("\x1b[0m");
                assert(out@ + (view_row_seq(self.pixels@, w, y as int, 0, empty_style(), system,
                    *theme) + "\x1b[0m"@ + (if y < h - 1 {
                    seq!['\n']
                } else {
                    Seq::<char>::empty()
                }) + view_rows_seq(self.pixels@, w, h, y + 1, system, *theme)) =~= out@
                    + view_rows_seq(self.pixels@, w, h, y as int, system, *theme));
            }
            while x < self.width
                invariant
                    self.sized(),
                    w == self.width as int,
                    h == self.height as int,
                    y < self.height,
                    x <= self.width,
                    goal == view_rows_seq(self.pixels@, w, h, 0, system, *theme),
                    out@ + view_row_seq(self.pixels@, w, y as int, x as int, last, system, *theme)
                        + "\x1b[0m"@ + (if y < h - 1 {
                        seq!['\n']
                    } else {
                        Seq::<char>::empty()
                    }) + view_rows_seq(self.pixels@, w, h, y + 1, system, *theme) == goal,
                decreases w - x,
            {
                let p = *self.get(x, y);
                let ghost pre = out@;
                let ghost last0 = last;
                if p.style() != last {
                    out.append("\x1b[0m\x1b[");
                    let codes = p.style().ansi_codes(system, theme);
                    out.append(codes.as_str());
                    out.append("m");
                    last = p.style();
                    proof {
                        reveal_strlit("\x1b[0m\x1b[");
                        reveal_strlit("m");
                        assert(out@ =~= pre + style_prefix(p, last0, system, *theme));
                    }
                } else {
                    proof {
                        assert(out@ =~= pre + style_prefix(p, last0, system, *theme));
                    }
                }
                let ghost mid = out@;
                match p.character() {
                    Some(cch) => {
                        if cch != '\0' {
                            crate::strnum::push_char(&mut out, cch);
                        }
                    },
                    None => {
                        crate::strnum::push_char(&mut out, ' ');
                    },
                }
                proof {
                    assert(out@ =~= mid + view_cell_text(p));
                    assert(last == p.style);
                    assert(view_row_seq(self.pixels@, w, y as int, x as int, last0, system, *theme)
                        == style_prefix(p, last0, system, *theme) + view_cell_text(p)
                        + view_row_seq(self.pixels@, w, y as int, x + 1, p.style, system, *theme));
                    assert(out@ + view_row_seq(
                        self.pixels@,
                        w,
                        y as int,
                        x + 1,
                        p.style,
                        system,
                        *theme,
                    ) + "\x1b[0m"@ + (if y < h - 1 {
                        seq!['\n']
                    } else {
                        Seq::<char>::empty()
                    }) + view_rows_seq(self.pixels@, w, h, y + 1, system, *theme) =~= pre
                        + view_row_seq(self.pixels@, w, y as int, x as int, last0, system, *theme)
                        + "\x1b[0m"@ + (if y < h - 1 {
                        seq!['\n']
                    } else {
                        Seq::<char>::empty()
                    }) + view_rows_seq(self.pixels@, w, h, y + 1, system, *theme));
                }
                x += 1;
            }
            let ghost out_row = out@;
            out.append("\x1b[0m");
            if y < self.height - 1 {
                crate::strnum::push_char(&mut out, '\n');
            }
            y += 1;
            proof {
                reveal_strlit("\x1b[0m");
                assert(view_row_seq(self.pixels@, w, y - 1, self.width as int, last, system, *theme)
                    == Seq::<char>::empty());
                assert(out_row + Seq::<char>::empty() =~= out_row);
                assert(out@ =~= out_row + "\x1b[0m"@ + (if y - 1 < h - 1 {
                    seq!['\n']
                } else {
                    Seq::<char>::empty()
                }));
                assert(out@ + view_rows_seq(self.pixels@, w, h, y as int, system, *theme) =~= out_row
                    + view_row_seq(self.pixels@, w, y - 1, self.width as int, last, system, *theme)
                    + "\x1b[0m"@ + (if y - 1 < h - 1 {
                    seq!['\n']
                } else {
                    Seq::<char>::empty()
                }) + view_rows_seq(self.pixels@, w, h, y as int, system, *theme));
            }
        }
        out
    }

    /// Composites `other` onto this buffer at offset (x, y), clipped to
    /// whichever of this buffer's remaining extent or the other's size is
    /// smaller. Each destination row clears its starting cell, copies
    /// source cells left to right stopping before any cell that would
    /// cross the clip boundary, and blanks a dangling continuation marker
    /// past the stopping point.
    pub fn render(&mut self, x: u16, y: u16, other: &Buffer)
        requires
            old(self).inv(),
            other.inv(),
            x <= old(self).width,
            y <= old(self).height,
            y < old(self).height && other.height > 0 ==> x < old(self).width,
        ensures
            final(self).width == old(self).width,
            final(self).height == old(self).height,
            final(self).inv(),
            final(self).pixels@ == comp_rows_seq(
                old(self).pixels@,
                old(self).width as int,
                old(self).height as int,
                other.pixels@,
                other.width as int,
                x as int,
                y as int,
                min(other.width as int, old(self).width - x),
                min(other.height as int, old(self).height - y),
                y as int,
            ),
    {
        let ghost w = old(self).width as int;
        let ghost h = old(self).height as int;
        let ghost ow = other.width as int;
        let width_c = if other.width() <= self.width - x {
            other.width()
        } else {
            self.width - x
        };
        let height_c = if other.height() <= self.height - y {
            other.height()
        } else {
            self.height - y
        };
        let ghost cw = width_c as int;
        let ghost ch = height_c as int;
        let ghost goal = comp_rows_seq(
            old(self).pixels@,
            w,
            h,
            other.pixels@,
            ow,
            x as int,
            y as int,
            cw,
            ch,
            y as int,
        );
        let mut yy = y;
        while yy < y + height_c
            invariant
                self.width == old(self).width,
                self.height == old(self).height,
                self.inv(),
                other.inv(),
                w == old(self).width as int,
                h == old(self).height as int,
                ow == other.width as int,
                cw == width_c as int,
                ch == height_c as int,
                0 <= cw <= other.width,
                x + cw <= old(self).width,
                y + ch <= old(self).height,
                ch <= other.height,
                ch > 0 ==> x < old(self).width,
                y <= yy <= y + height_c,
                goal == comp_rows_seq(
                    self.pixels@,
                    w,
                    h,
                    other.pixels@,
                    ow,
                    x as int,
                    y as int,
                    cw,
                    ch,
                    yy as int,
                ),
            decreases y + height_c - yy,
        {
            self.clear_at(x, yy);
            let ghost row_goal = comp_row_seq(
                self.pixels@,
                w,
                h,
                other.pixels@,
                ow,
                x as int,
                y as int,
                cw,
                yy as int,
                x as int,
            );
            let mut xx = x;
            proof {
                if cw > 0 {
                    assert(pixel_wf(cat(other.pixels@, ow, 0, yy - y)));
                    if cat(other.pixels@, ow, 0, yy - y).width == 0 {
                        assert(false);
                    }
                }
            }
            while xx < x + width_c && (other.get(xx - x, yy - y).width() as u32) + (xx as u32)
                <= (x as u32) + (width_c as u32)
                invariant
                    self.width == old(self).width,
                    self.height == old(self).height,
                    self.inv(),
                    other.inv(),
                    w == old(self).width as int,
                    h == old(self).height as int,
                    ow == other.width as int,
                    cw == width_c as int,
                    0 <= cw <= other.width,
                    x + cw <= old(self).width,
                    y <= yy < y + height_c,
                    yy < old(self).height,
                    height_c <= other.height,
                    x <= xx,
                    xx as int <= x + cw,
                    xx < x + width_c ==> cat(other.pixels@, ow, xx - x, yy - y).width >= 1,
                    row_goal == comp_row_seq(
                        self.pixels@,
                        w,
                        h,
                        other.pixels@,
                        ow,
                        x as int,
                        y as int,
                        cw,
                        yy as int,
                        xx as int,
                    ),
                decreases x + width_c - xx,
            {
                let p = *other.get(xx - x, yy - y);
                self.render_pixel(xx, yy, &p);
                let ghost oldxx = xx as int;
                xx += p.width() as u16;
                proof {
                    if xx < x + width_c {
                        assert(pixel_wf(cat(other.pixels@, ow, xx - x, yy - y)));
                        if cat(other.pixels@, ow, xx - x, yy - y).width == 0 {
                            assert(cat(other.pixels@, ow, xx - x - 1, yy - y).width == 2);
                            if p.width == 1 {
                                assert(cat(other.pixels@, ow, oldxx - x, yy - y) == p);
                                assert(false);
                            } else {
                                assert(cat(other.pixels@, ow, oldxx - x + 1, yy - y).width == 0);
                                assert(false);
                            }
                        }
                    }
                }
            }
            self.row_cleanup(xx, yy);
            proof {
                assert(self.pixels@ == row_goal);
            }
            yy += 1;
        }
        proof {
            assert(self.pixels@ == goal);
        }
    }
}

} // verus!
