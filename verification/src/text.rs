use vstd::math::max;
use vstd::prelude::*;

use crate::geometry::size::Size;

verus! {

/// The control characters: the C0 range below space, DEL, and the C1 range.
/// These have no displayed width.
pub open spec fn is_control_char(c: char) -> bool {
    (c as int) < 0x20 || (0x7f <= c as int && (c as int) < 0xa0)
}

/// What `char_width` returns for a character: its displayed width in
/// columns, a function of the character alone.
pub uninterp spec fn unicode_width_of(c: char) -> Option<usize>;

/// Relies on unicode_width's UnicodeWidthChar::width: the displayed column
/// width of a character. Its tables return None exactly for control
/// characters, 1 for printable ASCII, and nothing above 3.
#[verifier::external_body]
pub(crate) fn char_width(c: char) -> (r: Option<usize>)
    ensures
        r == unicode_width_of(c),
        r is Some <==> !is_control_char(c),
        (c as int) >= 0x20 && (c as int) < 0x7f ==> r == Some(1usize),
        r matches Some(w) ==> w <= 3,
{
    unicode_width::UnicodeWidthChar::width(c)
}

/// The index of the first line feed, or the length when there is none.
pub open spec fn first_newline(s: Seq<char>) -> nat
    decreases s.len(),
{
    if s.len() == 0 {
        0
    } else if s[0] == '\n' {
        0
    } else {
        1 + first_newline(s.skip(1))
    }
}

/// A line with one trailing carriage return removed.
pub open spec fn strip_cr(l: Seq<char>) -> Seq<char> {
    if l.len() > 0 && l.last() == '\r' {
        l.drop_last()
    } else {
        l
    }
}

/// The text split at line feeds, one trailing carriage return stripped per
/// line, with no final empty line for text that ends in a line feed.
pub open spec fn spec_lines(s: Seq<char>) -> Seq<Seq<char>>
    decreases s.len(),
{
    if s.len() == 0 {
        Seq::empty()
    } else {
        let i = first_newline(s) as int;
        if i >= s.len() {
            seq![s]
        } else {
            seq![strip_cr(s.take(i))] + spec_lines(s.skip(i + 1))
        }
    }
}

proof fn lemma_first_newline_at(s: Seq<char>, i: int)
    requires
        0 <= i <= s.len(),
        forall|j: int| 0 <= j < i ==> s[j] != '\n',
        i < s.len() ==> s[i] == '\n',
    ensures
        first_newline(s) == i,
    decreases s.len(),
{
    if s.len() > 0 && s[0] != '\n' {
        assert(forall|j: int| 0 <= j < i - 1 ==> s.skip(1)[j] == s[j + 1]);
        lemma_first_newline_at(s.skip(1), i - 1);
    }
}

/// Splits text into its lines.
pub(crate) fn split_lines(s: &str) -> (r: Vec<Vec<char>>)
    ensures
        r.deep_view() == spec_lines(s@),
        forall|k: int, j: int|
            0 <= k < r.deep_view().len() && 0 <= j < r.deep_view()[k].len()
                ==> #[trigger] r.deep_view()[k][j] != '\n',
{
    let n = s.unicode_len();
    let mut lines: Vec<Vec<char>> = Vec::new();
    let mut pos: usize = 0;
    proof {
        assert(s@.skip(0) =~= s@);
        assert(lines.deep_view() =~~= Seq::<Seq<char>>::empty());
        assert(lines.deep_view() + spec_lines(s@.skip(0)) =~= spec_lines(s@));
    }
    while pos < n
        invariant
            n == s@.len(),
            pos <= n,
            lines.deep_view() + spec_lines(s@.skip(pos as int)) == spec_lines(s@),
            forall|k: int, j: int|
                0 <= k < lines.deep_view().len() && 0 <= j < lines.deep_view()[k].len()
                    ==> #[trigger] lines.deep_view()[k][j] != '\n',
        decreases n - pos,
    {
        let ghost rest = s@.skip(pos as int);
        let mut line: Vec<char> = Vec::new();
        let mut j = pos;
        while j < n && s.get_char(j) != '\n'
            invariant
                n == s@.len(),
                pos <= j <= n,
                line@ == s@.subrange(pos as int, j as int),
                forall|k: int| pos <= k < j ==> s@[k] != '\n',
            decreases n - j,
        {
            line.push(s.get_char(j));
            j += 1;
            proof {
                assert(line@ =~= s@.subrange(pos as int, j as int));
            }
        }
        proof {
            assert(forall|k: int| 0 <= k < j - pos ==> rest[k] == s@[pos + k]);
            lemma_first_newline_at(rest, j - pos);
            assert(rest.take(j - pos) =~= s@.subrange(pos as int, j as int));
        }
        let ghost oldpos = pos as int;
        if j < n {
            if line.len() > 0 && line[line.len() - 1] == '\r' {
                line.pop();
                proof {
                    assert(line@ =~= strip_cr(rest.take(j - oldpos)));
                }
            } else {
                proof {
                    assert(line@ =~= strip_cr(rest.take(j - oldpos)));
                }
            }
            let ghost before = lines.deep_view();
            lines.push(line);
            pos = j + 1;
            proof {
                assert(lines.deep_view() =~~= before.push(strip_cr(rest.take(j - oldpos))));
                assert(spec_lines(rest) == seq![strip_cr(rest.take(j - oldpos))] + spec_lines(
                    rest.skip(j - oldpos + 1),
                ));
                assert(rest.skip(j - oldpos + 1) =~= s@.skip(pos as int));
                assert(lines.deep_view() + spec_lines(s@.skip(pos as int)) =~~= before
                    + spec_lines(rest));
            }
        } else {
            let ghost before = lines.deep_view();
            lines.push(line);
            pos = n;
            proof {
                assert(rest.take(j - oldpos) =~= rest);
                assert(line@ =~= rest);
                assert(spec_lines(rest) == seq![rest]);
                assert(lines.deep_view() =~~= before.push(rest));
                assert(s@.skip(pos as int) =~= Seq::<char>::empty());
                assert(lines.deep_view() + spec_lines(s@.skip(pos as int)) =~~= before
                    + spec_lines(rest));
            }
        }
    }
    proof {
        assert(s@.skip(pos as int) =~= Seq::<char>::empty());
        assert(lines.deep_view() + spec_lines(s@.skip(pos as int)) =~= lines.deep_view());
    }
    lines
}

/// A text with no line feed, and no trailing carriage return, is one
/// single line.
pub proof fn lemma_unbroken_line(s: Seq<char>)
    requires
        forall|i: int| 0 <= i < s.len() ==> s[i] != '\n',
        s.len() == 0 || s.last() != '\r',
    ensures
        s.len() == 0 ==> spec_lines(s) == Seq::<Seq<char>>::empty(),
        s.len() > 0 ==> spec_lines(s) == seq![s],
{
    if s.len() > 0 {
        lemma_first_newline_at(s, s.len() as int);
    }
}

/// The displayed width of one line: the sum of its characters' widths,
/// counting zero for characters with none.
pub open spec fn line_width(l: Seq<char>) -> int
    decreases l.len(),
{
    if l.len() == 0 {
        0
    } else {
        line_width(l.drop_last()) + match unicode_width_of(l.last()) {
            Some(w) => w as int,
            None => 0int,
        }
    }
}

pub open spec fn max_line_width(lines: Seq<Seq<char>>) -> int
    decreases lines.len(),
{
    if lines.len() == 0 {
        0
    } else {
        max(max_line_width(lines.drop_last()), line_width(lines.last()))
    }
}

/// Text that the measuring and rendering code accepts: control characters
/// appear only as line feeds, or as a carriage return directly before one.
pub open spec fn measurable(s: Seq<char>) -> bool {
    forall|i: int|
        0 <= i < s.len() ==> (#[trigger] s[i] == '\n' || (s[i] == '\r' && i + 1 < s.len() && s[i
            + 1] == '\n') || !is_control_char(s[i]))
}

/// The concrete size a text takes: its line count, and its widest line,
/// capped at the largest cell count.
pub open spec fn spec_text_size(s: Seq<char>) -> Size<u16> {
    let w = max_line_width(spec_lines(s));
    Size {
        width: if w > 65535 {
            65535u16
        } else {
            w as u16
        },
        height: spec_lines(s).len() as u16,
    }
}

/// A piece of text together with its displayed size.
#[derive(Debug, Clone, PartialEq, Eq)]
pub struct Text {
    pub raw: String,
    pub size: Size<u16>,
}

impl Text {
    pub fn new(raw: &str) -> (t: Self)
        requires
            measurable(raw@),
            spec_lines(raw@).len() <= u16::MAX,
        ensures
            t.raw@ == raw@,
            t.size == spec_text_size(raw@),
    {
        let size = Self::size_of(raw);
        Text { raw: raw.to_owned(), size }
    }

    pub fn raw(&self) -> (r: &String)
        ensures
            r@ == self.raw@,
    {
        &self.raw
    }

    pub fn size(&self) -> (r: Size<u16>)
        ensures
            r == self.size,
    {
        self.size
    }

    pub fn set(&mut self, raw: &str)
        requires
            measurable(raw@),
            spec_lines(raw@).len() <= u16::MAX,
        ensures
            final(self).raw@ == raw@,
            final(self).size == spec_text_size(raw@),
    {
        let size = Self::size_of(raw);
        self.raw = raw.to_owned();
        self.size = size;
    }

    /// Measures a text: the height is its line count and the width its
    /// widest line, capped at the largest cell count.
    pub fn size_of(content: &str) -> (r: Size<u16>)
        requires
            measurable(content@),
            spec_lines(content@).len() <= u16::MAX,
        ensures
            r == spec_text_size(content@),
    {
        let lines = split_lines(content);
        let ghost gls = spec_lines(content@);
        let mut height: u16 = 0;
        let mut width: u32 = 0;
        let mut k: usize = 0;
        while k < lines.len()
            invariant
                lines.deep_view() == gls,
                lines@.len() == gls.len(),
                gls.len() <= u16::MAX,
                k <= gls.len(),
                height == k,
                width == (if max_line_width(gls.take(k as int)) > 65535 {
                    65535int
                } else {
                    max_line_width(gls.take(k as int))
                }),
            decreases lines@.len() - k,
        {
            let line = &lines[k];
            let ghost gl = gls[k as int];
            proof {
                assert(line.deep_view() == gls[k as int]);
            }
            let mut cur: u32 = 0;
            let mut j: usize = 0;
            while j < line.len()
                invariant
                    line@.len() == gl.len(),
                    line.deep_view() == gl,
                    j <= gl.len(),
                    cur == (if line_width(gl.take(j as int)) > 65535 {
                        65535int
                    } else {
                        line_width(gl.take(j as int))
                    }),
                    0 <= cur <= 65535,
                decreases line@.len() - j,
            {
                let w = match char_width(line[j]) {
                    Some(w) => w,
                    None => 0,
                };
                proof {
                    assert(gl.take(j + 1).drop_last() =~= gl.take(j as int));
                    assert(gl.take(j + 1).last() == line@[j as int]);
                    assert(line@[j as int] == line.deep_view()[j as int]);
                    assert(line_width(gl.take(j as int)) >= 0) by {
                        lemma_line_width_nonneg(gl.take(j as int));
                    }
                }
                let nw = cur + w as u32;
                cur = if nw > 65535 {
                    65535
                } else {
                    nw
                };
                j += 1;
            }
            proof {
                assert(gl.take(gl.len() as int) =~= gl);
                assert(gls.take(k + 1).drop_last() =~= gls.take(k as int));
                assert(gls.take(k + 1).last() == gl);
                lemma_line_width_nonneg(gl);
                lemma_max_line_width_nonneg(gls.take(k as int));
            }
            if cur > width {
                width = cur;
            }
            height += 1;
            k += 1;
        }
        proof {
            assert(gls.take(gls.len() as int) =~= gls);
        }
        Size { width: width as u16, height }
    }
}

proof fn lemma_line_width_nonneg(l: Seq<char>)
    ensures
        line_width(l) >= 0,
    decreases l.len(),
{
    if l.len() > 0 {
        lemma_line_width_nonneg(l.drop_last());
    }
}

proof fn lemma_max_line_width_nonneg(lines: Seq<Seq<char>>)
    ensures
        max_line_width(lines) >= 0,
    decreases lines.len(),
{
    if lines.len() > 0 {
        lemma_max_line_width_nonneg(lines.drop_last());
        lemma_line_width_nonneg(lines.last());
    }
}

} // verus!
