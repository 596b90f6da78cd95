//! The styled-document model: spans, lines, and documents.

use vstd::prelude::*;
use vstd::string::StrSliceExecFns;

use crate::style::Color;
use crate::style::SpanStyle;
use crate::text::cap_usize;
use crate::text::chars_display_width;
use crate::text::chars_string;
use crate::text::lemma_cap_add;
use crate::text::lemma_str_width_concat;
use crate::text::sat_add;
use crate::text::split_lines;
use crate::text::split_lines_spec;
use crate::text::str_chars;
use crate::text::str_display_width;
use crate::text::str_width;

verus! {

/// A run of characters sharing one style.
#[derive(Debug, Clone, PartialEq)]
pub struct StyledSpan {
    pub text: String,
    pub style: SpanStyle,
}

impl StyledSpan {
    /// Create a styled span.
    pub fn new(text: &str, style: SpanStyle) -> (r: StyledSpan)
        ensures
            r.text@ == text@,
            r.style == style,
    {
        StyledSpan { text: text.to_owned(), style }
    }

    /// Create a plain (unstyled) span.
    pub fn plain(text: &str) -> (r: StyledSpan)
        ensures
            r.text@ == text@,
            r.style == SpanStyle::plain_spec(),
    {
        StyledSpan { text: text.to_owned(), style: SpanStyle::new() }
    }

    /// The display width of this span, clamped to `usize`.
    pub fn width(&self) -> (w: usize)
        ensures
            w as nat == cap_usize(str_width(self.text@)),
    {
        str_display_width(self.text.as_str())
    }
}

/// The concatenation of the span texts: the raw text of a line.
pub open spec fn spans_text(spans: Seq<StyledSpan>) -> Seq<char>
    decreases spans.len(),
{
    if spans.len() == 0 {
        Seq::empty()
    } else {
        spans_text(spans.drop_last()) + spans.last().text@
    }
}

/// The sum of the display widths of the spans.
pub open spec fn spans_width(spans: Seq<StyledSpan>) -> nat
    decreases spans.len(),
{
    if spans.len() == 0 {
        0
    } else {
        spans_width(spans.drop_last()) + str_width(spans.last().text@)
    }
}

/// The sum of the span widths of a line equals the display width of the
/// line's raw text.
pub proof fn lemma_line_width_is_span_width_sum(spans: Seq<StyledSpan>)
    ensures
        spans_width(spans) == str_width(spans_text(spans)),
    decreases spans.len(),
{
    if spans.len() > 0 {
        lemma_line_width_is_span_width_sum(spans.drop_last());
        lemma_str_width_concat(spans_text(spans.drop_last()), spans.last().text@);
    }
}

/// Every span of a well-formed line holds at least one character.
pub open spec fn wf_spans(spans: Seq<StyledSpan>) -> bool {
    forall|i: int| 0 <= i < spans.len() ==> #[trigger] spans[i].text@.len() > 0
}

/// A line of styled text: a 1-indexed line number (0 is reserved for grep
/// group separators), the spans, and the grep match/context marks.
#[derive(Debug, Clone)]
pub struct Line {
    pub number: usize,
    pub spans: Vec<StyledSpan>,
    pub is_match: bool,
    pub is_context: bool,
}

impl Line {
    /// The raw text of this line.
    pub open spec fn text_spec(self) -> Seq<char> {
        spans_text(self.spans@)
    }

    /// The display width of this line.
    pub open spec fn width_spec(self) -> nat {
        str_width(self.text_spec())
    }

    /// Create a plain (unstyled) line; an empty text gives a line without
    /// spans.
    pub fn plain(number: usize, text: &str) -> (r: Line)
        ensures
            r.number == number,
            r.text_spec() == text@,
            !r.is_match,
            !r.is_context,
            wf_spans(r.spans@),
            r.spans@.len() <= 1,
            text@.len() > 0 ==> r.spans@.len() == 1 && r.spans@[0].text@ == text@
                && r.spans@[0].style == SpanStyle::plain_spec(),
    {
        if text.unicode_len() == 0 {
            let r = Line { number, spans: Vec::new(), is_match: false, is_context: false };
            proof {
                assert(r.text_spec() =~= text@);
            }
            r
        } else {
            let mut spans: Vec<StyledSpan> = Vec::new();
            spans.push(StyledSpan::plain(text));
            let r = Line { number, spans, is_match: false, is_context: false };
            proof {
                assert(r.spans@.drop_last() =~= Seq::<StyledSpan>::empty());
                assert(spans_text(Seq::<StyledSpan>::empty()) == Seq::<char>::empty());
                assert(r.text_spec() =~= text@);
            }
            r
        }
    }

    /// Create a separator line, used between grep context groups: line number
    /// zero and a dim two-dash span.
    pub fn separator() -> (r: Line)
        ensures
            r.number == 0,
            !r.is_match,
            !r.is_context,
            r.spans@.len() == 1,
            r.spans@[0].text@ == "--"@,
            r.spans@[0].style == (SpanStyle {
                fg: Some(Color::DarkGray),
                bg: None,
                bold: false,
                italic: false,
                underline: false,
            }),
            wf_spans(r.spans@),
            r.text_spec() == "--"@,
    {
        let mut spans: Vec<StyledSpan> = Vec::new();
        spans.push(StyledSpan::new("--", SpanStyle::new().fg(Color::DarkGray)));
        let r = Line { number: 0, spans, is_match: false, is_context: false };
        proof {
            reveal_strlit("--");
            assert(r.spans@.drop_last() =~= Seq::<StyledSpan>::empty());
            assert(spans_text(Seq::<StyledSpan>::empty()) == Seq::<char>::empty());
            assert(r.text_spec() =~= "--"@);
        }
        r
    }

    /// The display width of this line, clamped to `usize`.
    pub fn width(&self) -> (w: usize)
        ensures
            w as nat == cap_usize(spans_width(self.spans@)),
            w as nat == cap_usize(self.width_spec()),
    {
        let mut w: usize = 0;
        let mut i: usize = 0;
        while i < self.spans.len()
            invariant
                i <= self.spans.len(),
                w as nat == cap_usize(spans_width(self.spans@.take(i as int))),
            decreases self.spans.len() - i,
        {
            let sw = self.spans[i].width();
            proof {
                assert(self.spans@.take(i + 1).drop_last() =~= self.spans@.take(i as int));
                assert(self.spans@.take(i + 1).last() == self.spans@[i as int]);
                lemma_cap_add(
                    spans_width(self.spans@.take(i as int)),
                    str_width(self.spans@[i as int].text@),
                );
            }
            w = sat_add(w, sw);
            i = i + 1;
        }
        proof {
            assert(self.spans@.take(self.spans@.len() as int) =~= self.spans@);
            lemma_line_width_is_span_width_sum(self.spans@);
        }
        w
    }

    /// The raw text of this line as a string.
    pub fn text(&self) -> (r: String)
        ensures
            r@ == self.text_spec(),
    {
        let mut buf: Vec<char> = Vec::new();
        let mut i: usize = 0;
        while i < self.spans.len()
            invariant
                i <= self.spans.len(),
                buf@ == spans_text(self.spans@.take(i as int)),
            decreases self.spans.len() - i,
        {
            let mut piece = str_chars(self.spans[i].text.as_str());
            proof {
                assert(self.spans@.take(i + 1).drop_last() =~= self.spans@.take(i as int));
                assert(self.spans@.take(i + 1).last() == self.spans@[i as int]);
            }
            buf.append(&mut piece);
            i = i + 1;
        }
        proof {
            assert(self.spans@.take(self.spans@.len() as int) =~= self.spans@);
        }
        chars_string(&buf)
    }
}

/// The style painting the character at a given offset of a line's raw text:
/// the style of the span the offset falls in.
pub open spec fn char_style_at(spans: Seq<StyledSpan>, i: int) -> SpanStyle
    decreases spans.len(),
{
    if spans.len() == 0 {
        SpanStyle::plain_spec()
    } else if i < spans.first().text@.len() {
        spans.first().style
    } else {
        char_style_at(spans.drop_first(), i - spans.first().text@.len())
    }
}

/// The raw text decomposes at the first span.
pub proof fn lemma_spans_text_first(spans: Seq<StyledSpan>)
    requires
        spans.len() > 0,
    ensures
        spans_text(spans) == spans.first().text@ + spans_text(spans.drop_first()),
    decreases spans.len(),
{
    if spans.len() == 1 {
        assert(spans.drop_last() =~= Seq::<StyledSpan>::empty());
        assert(spans.drop_first() =~= Seq::<StyledSpan>::empty());
        assert(spans_text(spans) =~= spans.first().text@ + spans_text(spans.drop_first()));
    } else {
        let a = spans.drop_last();
        lemma_spans_text_first(a);
        assert(a.first() == spans.first());
        assert(a.drop_first() =~= spans.drop_first().drop_last());
        assert(spans.drop_first().last() == spans.last());
        assert(spans_text(spans) == spans_text(a) + spans.last().text@);
        assert(spans_text(spans.drop_first()) == spans_text(spans.drop_first().drop_last())
            + spans.last().text@);
        assert(spans_text(spans) =~= spans.first().text@ + spans_text(spans.drop_first()));
    }
}

/// The character style of a concatenation of span lists: the left list where
/// the offset falls inside its text, the right list beyond it.
pub proof fn lemma_char_style_at_concat(a: Seq<StyledSpan>, b: Seq<StyledSpan>, i: int)
    requires
        0 <= i,
    ensures
        char_style_at(a + b, i) == if i < spans_text(a).len() {
            char_style_at(a, i)
        } else {
            char_style_at(b, i - spans_text(a).len())
        },
    decreases a.len(),
{
    if a.len() == 0 {
        assert(a + b =~= b);
        assert(spans_text(a) =~= Seq::<char>::empty());
    } else {
        lemma_spans_text_first(a);
        assert((a + b).first() == a.first());
        assert((a + b).drop_first() =~= a.drop_first() + b);
        lemma_char_style_at_concat(a.drop_first(), b, if i < a.first().text@.len() {
            0
        } else {
            i - a.first().text@.len()
        });
        if i >= a.first().text@.len() {
            lemma_char_style_at_concat(a.drop_first(), b, i - a.first().text@.len());
        }
    }
}

/// Within one span of a line, every character carries that span's style.
pub proof fn lemma_char_style_within(spans: Seq<StyledSpan>, si: int, local: int)
    requires
        0 <= si < spans.len(),
        0 <= local < spans[si].text@.len(),
    ensures
        char_style_at(spans, spans_text(spans.take(si)).len() + local) == spans[si].style,
    decreases si,
{
    if si == 0 {
        assert(spans.take(0) =~= Seq::<StyledSpan>::empty());
        assert(spans_text(spans.take(0)).len() == 0);
        assert(spans.first() == spans[0]);
    } else {
        lemma_spans_text_first(spans.take(si));
        assert(spans.take(si).first() == spans.first());
        assert(spans.take(si).drop_first() =~= spans.drop_first().take(si - 1));
        lemma_char_style_within(spans.drop_first(), si - 1, local);
        assert(spans.drop_first()[si - 1] == spans[si]);
        assert(spans_text(spans.take(si)).len() == spans.first().text@.len() + spans_text(
            spans.drop_first().take(si - 1),
        ).len());
    }
}

/// The raw text of a prefix of the spans grows span by span.
pub proof fn lemma_spans_text_take_step(spans: Seq<StyledSpan>, si: int)
    requires
        0 <= si < spans.len(),
    ensures
        spans_text(spans.take(si + 1)) == spans_text(spans.take(si)) + spans[si].text@,
{
    assert(spans.take(si + 1).drop_last() =~= spans.take(si));
    assert(spans.take(si + 1).last() == spans[si]);
}

/// The greatest display width among the lines.
pub open spec fn max_width_spec(lines: Seq<Line>) -> nat
    decreases lines.len(),
{
    if lines.len() == 0 {
        0
    } else {
        let rest = max_width_spec(lines.drop_last());
        if lines.last().width_spec() > rest {
            lines.last().width_spec()
        } else {
            rest
        }
    }
}

/// A document: the styled lines, the cached maximum line width, the source
/// name, and the encoding tag.
#[derive(Debug, Clone)]
pub struct Document {
    pub lines: Vec<Line>,
    pub max_line_width: usize,
    pub source_name: String,
    pub encoding: String,
}

/// Two lines carry the same content: number, spans, and marks.
pub open spec fn line_view_eq(a: Line, b: Line) -> bool {
    a.number == b.number && a.spans@ == b.spans@ && a.is_match == b.is_match && a.is_context
        == b.is_context
}

/// Two documents carry the same content, line for line.
pub open spec fn doc_view_eq(a: Document, b: Document) -> bool {
    &&& a.lines@.len() == b.lines@.len()
    &&& (forall|i: int| 0 <= i < a.lines@.len() ==> line_view_eq(#[trigger] a.lines@[i], b.lines@[i]))
    &&& a.max_line_width == b.max_line_width
    &&& a.source_name == b.source_name
    &&& a.encoding == b.encoding
}

/// Copy a line, content for content.
pub fn clone_line(l: &Line) -> (r: Line)
    ensures
        line_view_eq(r, *l),
{
    Line {
        number: l.number,
        spans: crate::grep::clone_spans(&l.spans),
        is_match: l.is_match,
        is_context: l.is_context,
    }
}

/// Copy a document, content for content.
pub fn clone_document(d: &Document) -> (r: Document)
    ensures
        doc_view_eq(r, *d),
{
    let n = d.lines.len();
    let mut lines: Vec<Line> = Vec::new();
    let mut i: usize = 0;
    while i < n
        invariant
            i <= n,
            n == d.lines@.len(),
            lines@.len() == i,
            forall|k: int| 0 <= k < i ==> line_view_eq(#[trigger] lines@[k], d.lines@[k]),
        decreases n - i,
    {
        lines.push(clone_line(&d.lines[i]));
        i = i + 1;
    }
    Document {
        lines,
        max_line_width: d.max_line_width,
        source_name: d.source_name.clone(),
        encoding: d.encoding.clone(),
    }
}

/// A plain line as `Document::from_text` builds it.
pub open spec fn plain_line_spec(number: usize, text: Seq<char>, l: Line) -> bool {
    l.number == number && l.text_spec() == text && !l.is_match && !l.is_context && wf_spans(
        l.spans@,
    ) && l.spans@.len() <= 1
}

impl Document {
    /// The document's cached maximum width is correct.
    pub open spec fn max_width_ok(self) -> bool {
        self.max_line_width as nat == cap_usize(max_width_spec(self.lines@))
    }

    /// Create a document of plain lines from text, splitting it into lines
    /// and numbering them from one.
    pub fn from_text(text: &str, source_name: String, encoding: String) -> (r: Document)
        ensures
            r.lines@.len() == split_lines_spec(text@).len(),
            forall|i: int|
                0 <= i < r.lines@.len() ==> plain_line_spec(
                    (i + 1) as usize,
                    split_lines_spec(text@)[i],
                    #[trigger] r.lines@[i],
                ),
            r.max_width_ok(),
            r.source_name == source_name,
            r.encoding == encoding,
    {
        let chars = str_chars(text);
        let pieces = split_lines(&chars);
        let mut lines: Vec<Line> = Vec::new();
        let mut i: usize = 0;
        while i < pieces.len()
            invariant
                i <= pieces.len(),
                crate::text::views_of(pieces@) == split_lines_spec(chars@),
                chars@ == text@,
                lines@.len() == i,
                forall|j: int|
                    0 <= j < i ==> plain_line_spec(
                        (j + 1) as usize,
                        split_lines_spec(text@)[j],
                        #[trigger] lines@[j],
                    ),
            decreases pieces.len() - i,
        {
            let piece = chars_string(&pieces[i]);
            let line = Line::plain(i + 1, piece.as_str());
            lines.push(line);
            i = i + 1;
        }
        let mut doc = Document { lines, max_line_width: 0, source_name, encoding };
        doc.recalculate_max_width();
        doc
    }

    /// The total number of lines.
    pub fn line_count(&self) -> (n: usize)
        ensures
            n == self.lines@.len(),
    {
        self.lines.len()
    }

    /// Recompute the cached maximum line width; nothing else changes.
    pub fn recalculate_max_width(&mut self)
        ensures
            *final(self) == (Document {
                max_line_width: final(self).max_line_width,
                ..*old(self)
            }),
            final(self).max_width_ok(),
    {
        let mut m: usize = 0;
        let mut i: usize = 0;
        while i < self.lines.len()
            invariant
                i <= self.lines.len(),
                m as nat == cap_usize(max_width_spec(self.lines@.take(i as int))),
                *self == *old(self),
            decreases self.lines.len() - i,
        {
            let w = self.lines[i].width();
            proof {
                assert(self.lines@.take(i + 1).drop_last() =~= self.lines@.take(i as int));
                assert(self.lines@.take(i + 1).last() == self.lines@[i as int]);
            }
            if w > m {
                m = w;
            }
            i = i + 1;
        }
        proof {
            assert(self.lines@.take(self.lines@.len() as int) =~= self.lines@);
        }
        self.max_line_width = m;
    }
}

} // verus!
