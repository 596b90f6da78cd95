//! The markdown renderer: a CommonMark event stream becomes styled lines.
//! Parsing is the parser crate's work; the transform from events to lines
//! is the library's own.

use vstd::prelude::*;
use vstd::string::StrSliceExecFns;

use crate::line::wf_spans;
use crate::line::Document;
use crate::line::Line;
use crate::line::StyledSpan;
use crate::style::Color;
use crate::style::SpanStyle;
use crate::text::chars_string;
use crate::text::str_chars;

verus! {

/// The element kinds the renderer distinguishes. Heading levels are one
/// through six; a code block may carry its info string; an ordered list may
/// carry its start number. Table heads and rows share one kind, since they
/// render alike.
#[derive(Debug, Clone, PartialEq, Eq)]
pub enum MdTag {
    Heading(u8),
    Paragraph,
    BlockQuote,
    CodeBlock(Option<String>),
    List(Option<u64>),
    Item,
    Emphasis,
    Strong,
    Strikethrough,
    Link,
    Image,
    Table,
    TableRow,
    TableCell,
    Other,
}

/// One markdown event, reduced to what the renderer reads. Events the
/// renderer drops — raw HTML, footnotes, math — arrive as `Skip`.
#[derive(Debug, Clone, PartialEq, Eq)]
pub enum MdEvent {
    Start(MdTag),
    End(MdTag),
    Text(String),
    Code(String),
    SoftBreak,
    HardBreak,
    Rule,
    TaskMarker(bool),
    Skip,
}

#[verifier::external_type_specification]
#[verifier::external_body]
pub struct ExMdParseEvent<'a>(pulldown_cmark::Event<'a>);

#[verifier::external_type_specification]
#[verifier::external_body]
pub struct ExMdParseTag<'a>(pulldown_cmark::Tag<'a>);

#[verifier::external_type_specification]
#[verifier::external_body]
pub struct ExMdParseTagEnd(pulldown_cmark::TagEnd);

#[verifier::external_type_specification]
#[verifier::external_body]
pub struct ExMdParseCodeBlockKind<'a>(pulldown_cmark::CodeBlockKind<'a>);

/// The event stream CommonMark parsing yields for a text, with
/// strikethrough, tables, task lists, and heading attributes enabled: a
/// function of the text alone.
pub uninterp spec fn md_events_of(text: Seq<char>) -> Seq<MdEvent>;

/// Relies on pulldown_cmark's `Parser::new_ext`: the CommonMark event
/// stream of the text, under the strikethrough, table, task-list, and
/// heading-attribute extensions; each event is carried over one to one.
#[verifier::external_body]
pub(crate) fn md_events(text: &str) -> (r: Vec<MdEvent>)
    ensures
        r@ == md_events_of(text@),
{
    let options = pulldown_cmark::Options::ENABLE_STRIKETHROUGH
        | pulldown_cmark::Options::ENABLE_TABLES | pulldown_cmark::Options::ENABLE_TASKLISTS
        | pulldown_cmark::Options::ENABLE_HEADING_ATTRIBUTES;
    pulldown_cmark::Parser::new_ext(text, options).map(convert_event).collect()
}

/// Relies on the shape of pulldown_cmark's `Event`: one arm per variant,
/// moving the payloads.
#[verifier::external_body]
fn convert_event(e: pulldown_cmark::Event) -> MdEvent {
    match e {
        pulldown_cmark::Event::Start(t) => MdEvent::Start(convert_tag(t)),
        pulldown_cmark::Event::End(t) => MdEvent::End(convert_tag_end(t)),
        pulldown_cmark::Event::Text(s) => MdEvent::Text(s.into_string()),
        pulldown_cmark::Event::Code(s) => MdEvent::Code(s.into_string()),
        pulldown_cmark::Event::SoftBreak => MdEvent::SoftBreak,
        pulldown_cmark::Event::HardBreak => MdEvent::HardBreak,
        pulldown_cmark::Event::Rule => MdEvent::Rule,
        pulldown_cmark::Event::TaskListMarker(b) => MdEvent::TaskMarker(b),
        _ => MdEvent::Skip,
    }
}

/// Relies on the shape of pulldown_cmark's `Tag`: one arm per variant the
/// renderer reads, moving the payloads.
#[verifier::external_body]
fn convert_tag(t: pulldown_cmark::Tag) -> MdTag {
    match t {
        pulldown_cmark::Tag::Heading { level, .. } => MdTag::Heading(level as u8),
        pulldown_cmark::Tag::Paragraph => MdTag::Paragraph,
        pulldown_cmark::Tag::BlockQuote(_) => MdTag::BlockQuote,
        pulldown_cmark::Tag::CodeBlock(k) => MdTag::CodeBlock(convert_code_kind(k)),
        pulldown_cmark::Tag::List(start) => MdTag::List(start),
        pulldown_cmark::Tag::Item => MdTag::Item,
        pulldown_cmark::Tag::Emphasis => MdTag::Emphasis,
        pulldown_cmark::Tag::Strong => MdTag::Strong,
        pulldown_cmark::Tag::Strikethrough => MdTag::Strikethrough,
        other => convert_tag_rest(other),
    }
}

/// Relies on the shape of pulldown_cmark's `Tag`: the remaining variants.
#[verifier::external_body]
fn convert_tag_rest(t: pulldown_cmark::Tag) -> MdTag {
    match t {
        pulldown_cmark::Tag::Link { .. } => MdTag::Link,
        pulldown_cmark::Tag::Image { .. } => MdTag::Image,
        pulldown_cmark::Tag::Table(_) => MdTag::Table,
        pulldown_cmark::Tag::TableHead | pulldown_cmark::Tag::TableRow => MdTag::TableRow,
        pulldown_cmark::Tag::TableCell => MdTag::TableCell,
        _ => MdTag::Other,
    }
}

/// Relies on the shape of pulldown_cmark's `TagEnd`: one arm per variant
/// the renderer reads.
#[verifier::external_body]
fn convert_tag_end(t: pulldown_cmark::TagEnd) -> MdTag {
    match t {
        pulldown_cmark::TagEnd::Heading(_) => MdTag::Heading(0),
        pulldown_cmark::TagEnd::Paragraph => MdTag::Paragraph,
        pulldown_cmark::TagEnd::BlockQuote(_) => MdTag::BlockQuote,
        pulldown_cmark::TagEnd::CodeBlock => MdTag::CodeBlock(None),
        pulldown_cmark::TagEnd::List(_) => MdTag::List(None),
        pulldown_cmark::TagEnd::Item => MdTag::Item,
        pulldown_cmark::TagEnd::Emphasis => MdTag::Emphasis,
        pulldown_cmark::TagEnd::Strong => MdTag::Strong,
        pulldown_cmark::TagEnd::Strikethrough => MdTag::Strikethrough,
        other => convert_tag_end_rest(other),
    }
}

/// Relies on the shape of pulldown_cmark's `TagEnd`: the remaining
/// variants.
#[verifier::external_body]
fn convert_tag_end_rest(t: pulldown_cmark::TagEnd) -> MdTag {
    match t {
        pulldown_cmark::TagEnd::Link => MdTag::Link,
        pulldown_cmark::TagEnd::Image => MdTag::Image,
        pulldown_cmark::TagEnd::Table => MdTag::Table,
        pulldown_cmark::TagEnd::TableHead | pulldown_cmark::TagEnd::TableRow => MdTag::TableRow,
        pulldown_cmark::TagEnd::TableCell => MdTag::TableCell,
        _ => MdTag::Other,
    }
}

/// Relies on the shape of pulldown_cmark's `CodeBlockKind`: the info
/// string of a fenced block, nothing for an indented one.
#[verifier::external_body]
fn convert_code_kind(k: pulldown_cmark::CodeBlockKind) -> Option<String> {
    match k {
        pulldown_cmark::CodeBlockKind::Fenced(lang) => Some(lang.into_string()),
        pulldown_cmark::CodeBlockKind::Indented => None,
    }
}


/// The ghost view of the renderer's state: every field that the event
/// transform reads or writes, with the span lists as text/style pairs.
#[verifier::ext_equal]
pub struct MdView {
    pub lines: Seq<Seq<(Seq<char>, SpanStyle)>>,
    pub current_line: Seq<(Seq<char>, SpanStyle)>,
    pub style_stack: Seq<SpanStyle>,
    pub in_code_block: bool,
    pub in_blockquote: bool,
    pub list_depth: nat,
    pub list_counters: Seq<u64>,
    pub list_ordered: Seq<bool>,
    pub needs_list_prefix: bool,
    pub current_heading: Option<u8>,
}

/// A plain foreground style.
pub open spec fn fg_style(c: Color) -> SpanStyle {
    SpanStyle { fg: Some(c), bg: None, bold: false, italic: false, underline: false }
}

/// The view of a fresh renderer.
pub open spec fn mdv_init() -> MdView {
    MdView {
        lines: Seq::empty(),
        current_line: Seq::empty(),
        style_stack: seq![SpanStyle::plain_spec()],
        in_code_block: false,
        in_blockquote: false,
        list_depth: 0,
        list_counters: Seq::empty(),
        list_ordered: Seq::empty(),
        needs_list_prefix: false,
        current_heading: None,
    }
}

/// Append a span to the current line; empty text appends nothing.
pub open spec fn mdv_add_span(v: MdView, text: Seq<char>, style: SpanStyle) -> MdView {
    if text.len() == 0 {
        v
    } else {
        MdView { current_line: v.current_line.push((text, style)), ..v }
    }
}

/// Close the current line as the next finished line.
pub open spec fn mdv_flush(v: MdView) -> MdView {
    MdView { lines: v.lines.push(v.current_line), current_line: Seq::empty(), ..v }
}

/// The current style: the top of the stack.
pub open spec fn mdv_cur_style(v: MdView) -> SpanStyle {
    v.style_stack.last()
}

/// Push the merge of a style over the current one.
pub open spec fn mdv_push_style(v: MdView, style: SpanStyle) -> MdView {
    MdView {
        style_stack: v.style_stack.push(SpanStyle::merge_spec(mdv_cur_style(v), style)),
        ..v
    }
}

/// Pop the style stack, keeping its base entry.
pub open spec fn mdv_pop_style(v: MdView) -> MdView {
    if v.style_stack.len() > 1 {
        MdView { style_stack: v.style_stack.drop_last(), ..v }
    } else {
        v
    }
}

/// The dim quote prefix.
pub open spec fn mdv_blockquote_prefix(v: MdView) -> MdView {
    mdv_add_span(v, "\u{2502} "@, fg_style(Color::DarkGray))
}

/// Close the line and, inside a quote, open the next with the prefix.
pub open spec fn mdv_new_line(v: MdView) -> MdView {
    let f = mdv_flush(v);
    if f.in_blockquote {
        mdv_blockquote_prefix(f)
    } else {
        f
    }
}

/// A run of box-drawing dashes.
pub open spec fn dash_run(n: nat) -> Seq<char> {
    Seq::new(n, |i: int| '\u{2500}')
}

/// The fifty-column double-line border of the level-one heading frame.
pub open spec fn border_run() -> Seq<char> {
    Seq::new(50, |i: int| '\u{2550}')
}

/// The thematic break: a forty-column dim rule on its own line.
pub open spec fn mdv_horizontal_rule(v: MdView) -> MdView {
    mdv_flush(mdv_add_span(mdv_flush(v), dash_run(40), fg_style(Color::DarkGray)))
}

/// The task-list marker span.
pub open spec fn mdv_task_marker(v: MdView, checked: bool) -> MdView {
    mdv_add_span(v, if checked {
        "[x] "@
    } else {
        "[ ] "@
    }, fg_style(Color::Magenta))
}

/// The inline-code span.
pub open spec fn mdv_inline_code(v: MdView, code: Seq<char>) -> MdView {
    mdv_add_span(v, code, fg_style(Color::Cyan))
}

/// The two-space list indent for the current depth.
pub open spec fn indent_spec(depth: nat) -> Seq<char> {
    if depth >= 1 {
        crate::ingest::spaces((2 * (depth - 1)) as nat)
    } else {
        Seq::empty()
    }
}

/// The decimal digits of an item counter, clamped to a machine word.
pub open spec fn counter_digits_spec(c: u64) -> Seq<char> {
    if c <= usize::MAX as u64 {
        crate::render::dec_digits_spec(c as nat)
    } else {
        crate::render::dec_digits_spec(usize::MAX as nat)
    }
}

/// The bullet of an unordered item at a depth.
pub open spec fn bullet_spec(depth: nat) -> char {
    if depth == 1 {
        '\u{2022}'
    } else if depth == 2 {
        '\u{25e6}'
    } else {
        '\u{25aa}'
    }
}

/// The list-item prefix: the indent, then the item number and a dot for an
/// ordered list (advancing its counter) or the depth's bullet, in yellow.
pub open spec fn mdv_list_prefix(v: MdView) -> MdView {
    if v.list_ordered.len() == 0 {
        v
    } else if v.list_ordered.last() && v.list_counters.len() > 0 {
        let c = v.list_counters.last();
        let prefix = indent_spec(v.list_depth) + counter_digits_spec(c) + seq!['.', ' '];
        let v2 = mdv_add_span(v, prefix, fg_style(Color::Yellow));
        MdView {
            list_counters: v2.list_counters.update(
                v2.list_counters.len() - 1,
                if c < u64::MAX {
                    (c + 1) as u64
                } else {
                    c
                },
            ),
            ..v2
        }
    } else {
        let prefix = indent_spec(v.list_depth) + seq![bullet_spec(v.list_depth), ' '];
        mdv_add_span(v, prefix, fg_style(Color::Yellow))
    }
}

/// The bold heading style of each level.
pub open spec fn heading_style_spec(level: u8) -> SpanStyle {
    if level == 1 {
        SpanStyle { bold: true, ..fg_style(Color::White) }
    } else if level == 2 {
        SpanStyle { bold: true, ..fg_style(Color::Cyan) }
    } else if level == 3 {
        SpanStyle { bold: true, ..fg_style(Color::Green) }
    } else if level == 4 {
        SpanStyle { bold: true, ..fg_style(Color::Magenta) }
    } else if level == 5 {
        SpanStyle { bold: true, ..fg_style(Color::Yellow) }
    } else {
        SpanStyle { bold: true, ..fg_style(Color::DarkGray) }
    }
}

/// The glyph prefix of heading levels three through six.
pub open spec fn heading_prefix_spec(level: u8) -> (Seq<char>, SpanStyle) {
    if level == 1 || level == 2 {
        (""@, SpanStyle::plain_spec())
    } else if level == 3 {
        ("\u{25b8} "@, SpanStyle { bold: true, ..fg_style(Color::Green) })
    } else if level == 4 {
        ("\u{25c6} "@, SpanStyle { bold: true, ..fg_style(Color::Magenta) })
    } else if level == 5 {
        ("\u{25c7} "@, SpanStyle { bold: true, ..fg_style(Color::Yellow) })
    } else {
        ("\u{00b7} "@, SpanStyle { bold: true, ..fg_style(Color::DarkGray) })
    }
}

/// Code-block text, piece by piece: each line-feed-separated piece goes on
/// its own line, in green, after flushing anything already gathered.
pub open spec fn mdv_code_pieces(v: MdView, pieces: Seq<Seq<char>>) -> MdView
    decreases pieces.len(),
{
    if pieces.len() == 0 {
        v
    } else {
        let v1 = if v.current_line.len() > 0 {
            mdv_flush(v)
        } else {
            v
        };
        let v2 = mdv_add_span(v1, pieces[0], fg_style(Color::Green));
        mdv_code_pieces(v2, pieces.drop_first())
    }
}

/// Quoted text, piece by piece: pieces after the first reopen a prefixed
/// line; every piece takes the current style.
pub open spec fn mdv_quote_pieces(v: MdView, pieces: Seq<Seq<char>>, first: bool) -> MdView
    decreases pieces.len(),
{
    if pieces.len() == 0 {
        v
    } else {
        let v1 = if first {
            v
        } else {
            mdv_blockquote_prefix(mdv_flush(v))
        };
        let v2 = mdv_add_span(v1, pieces[0], mdv_cur_style(v1));
        mdv_quote_pieces(v2, pieces.drop_first(), false)
    }
}

/// Text inside the line: the pending list prefix first, then code-block or
/// quoted piece handling, or one span in the current style.
pub open spec fn mdv_add_text(v: MdView, text: Seq<char>) -> MdView {
    let v0 = if v.needs_list_prefix {
        MdView { needs_list_prefix: false, ..mdv_list_prefix(v) }
    } else {
        v
    };
    if v0.in_code_block {
        mdv_code_pieces(v0, crate::text::split_all_rec(text, Seq::empty()))
    } else if v0.in_blockquote {
        mdv_quote_pieces(v0, crate::text::split_all_rec(text, Seq::empty()), true)
    } else {
        mdv_add_span(v0, text, mdv_cur_style(v0))
    }
}

/// Opening an element.
pub open spec fn mdv_start_tag(v: MdView, tag: MdTag) -> MdView {
    match tag {
        MdTag::Heading(level) => {
            let v1 = if v.current_line.len() > 0 || v.lines.len() > 0 {
                mdv_flush(v)
            } else {
                v
            };
            let v2 = MdView { current_heading: Some(level), ..v1 };
            let v3 = if level == 1 {
                let b = fg_style(Color::Yellow);
                mdv_add_span(
                    mdv_flush(
                        mdv_add_span(
                            mdv_add_span(mdv_add_span(v2, "\u{2554}"@, b), border_run(), b),
                            "\u{2557}"@,
                            b,
                        ),
                    ),
                    "\u{2551}  "@,
                    b,
                )
            } else if level == 2 {
                mdv_add_span(v2, "\u{2500}\u{2500}\u{25c8} "@, fg_style(Color::Blue))
            } else {
                let p = heading_prefix_spec(level);
                if p.0.len() > 0 {
                    mdv_add_span(v2, p.0, p.1)
                } else {
                    v2
                }
            };
            mdv_push_style(v3, heading_style_spec(level))
        },
        MdTag::Paragraph => {
            if v.lines.len() > 0 && v.list_depth == 0 && !v.in_blockquote {
                mdv_flush(v)
            } else {
                v
            }
        },
        MdTag::BlockQuote => {
            mdv_blockquote_prefix(MdView { in_blockquote: true, ..mdv_flush(v) })
        },
        MdTag::CodeBlock(info) => {
            let v1 = MdView { in_code_block: true, ..mdv_flush(v) };
            let dim = fg_style(Color::DarkGray);
            let v2 = match info {
                Some(lang) => if lang@.len() > 0 {
                    mdv_add_span(
                        mdv_add_span(
                            v1,
                            "\u{2500}\u{2500}\u{2500} "@ + lang@ + seq![' '],
                            dim,
                        ),
                        dash_run(30),
                        dim,
                    )
                } else {
                    mdv_add_span(v1, dash_run(40), dim)
                },
                None => mdv_add_span(v1, dash_run(40), dim),
            };
            mdv_flush(v2)
        },
        MdTag::List(start) => {
            let v1 = if v.list_depth == 0 && (v.current_line.len() > 0 || v.lines.len() > 0) {
                mdv_flush(v)
            } else {
                v
            };
            let v2 = MdView {
                list_depth: if v1.list_depth < usize::MAX as nat {
                    v1.list_depth + 1
                } else {
                    v1.list_depth
                },
                ..v1
            };
            match start {
                Some(n) => MdView {
                    list_ordered: v2.list_ordered.push(true),
                    list_counters: v2.list_counters.push(n),
                    ..v2
                },
                None => MdView {
                    list_ordered: v2.list_ordered.push(false),
                    list_counters: v2.list_counters.push(1),
                    ..v2
                },
            }
        },
        MdTag::Item => {
            let v1 = if v.current_line.len() > 0 || v.lines.len() > 0 {
                mdv_flush(v)
            } else {
                v
            };
            MdView { needs_list_prefix: true, ..v1 }
        },
        MdTag::Emphasis => mdv_push_style(v, fg_style(Color::Yellow)),
        MdTag::Strong => mdv_push_style(v, SpanStyle { bold: true, ..SpanStyle::plain_spec() }),
        MdTag::Strikethrough => mdv_push_style(v, fg_style(Color::DarkGray)),
        MdTag::Link => mdv_push_style(
            v,
            SpanStyle { underline: true, ..fg_style(Color::Blue) },
        ),
        MdTag::Image => mdv_push_style(
            mdv_add_span(v, "[Image: "@, fg_style(Color::Magenta)),
            fg_style(Color::Magenta),
        ),
        MdTag::Table => mdv_flush(v),
        MdTag::TableRow => v,
        MdTag::TableCell => v,
        MdTag::Other => v,
    }
}

/// Closing an element.
pub open spec fn mdv_end_tag(v: MdView, tag: MdTag) -> MdView {
    match tag {
        MdTag::Heading(_) => {
            let v1 = mdv_pop_style(v);
            let v2 = match v1.current_heading {
                Some(level) => {
                    let v1b = MdView { current_heading: None, ..v1 };
                    if level == 1 {
                        let b = fg_style(Color::Yellow);
                        mdv_flush(
                            mdv_add_span(
                                mdv_add_span(
                                    mdv_add_span(mdv_flush(v1b), "\u{255a}"@, b),
                                    border_run(),
                                    b,
                                ),
                                "\u{255d}"@,
                                b,
                            ),
                        )
                    } else if level == 2 {
                        let d = fg_style(Color::Blue);
                        mdv_flush(
                            mdv_add_span(mdv_add_span(v1b, " \u{25c8}"@, d), dash_run(30), d),
                        )
                    } else {
                        mdv_flush(v1b)
                    }
                },
                None => mdv_flush(v1),
            };
            mdv_flush(v2)
        },
        MdTag::Paragraph => mdv_flush(v),
        MdTag::BlockQuote => mdv_flush(MdView { in_blockquote: false, ..v }),
        MdTag::CodeBlock(_) => {
            let v1 = MdView { in_code_block: false, ..v };
            mdv_flush(mdv_add_span(v1, dash_run(40), fg_style(Color::DarkGray)))
        },
        MdTag::List(_) => {
            let v1 = MdView {
                list_depth: if v.list_depth > 0 {
                    (v.list_depth - 1) as nat
                } else {
                    0
                },
                ..v
            };
            let v2 = MdView {
                list_counters: if v1.list_counters.len() > 0 {
                    v1.list_counters.drop_last()
                } else {
                    v1.list_counters
                },
                ..v1
            };
            let v3 = MdView {
                list_ordered: if v2.list_ordered.len() > 0 {
                    v2.list_ordered.drop_last()
                } else {
                    v2.list_ordered
                },
                ..v2
            };
            if v3.list_depth == 0 {
                mdv_flush(v3)
            } else {
                v3
            }
        },
        MdTag::Item => v,
        MdTag::Emphasis => mdv_pop_style(v),
        MdTag::Strong => mdv_pop_style(v),
        MdTag::Strikethrough => mdv_pop_style(v),
        MdTag::Link => mdv_pop_style(v),
        MdTag::Image => mdv_add_span(mdv_pop_style(v), "]"@, fg_style(Color::Magenta)),
        MdTag::Table => v,
        MdTag::TableRow => mdv_flush(v),
        MdTag::TableCell => {
            let v0 = if v.needs_list_prefix {
                MdView { needs_list_prefix: false, ..mdv_list_prefix(v) }
            } else {
                v
            };
            mdv_add_span(v0, " | "@, mdv_cur_style(v0))
        },
        MdTag::Other => v,
    }
}

/// One event through the renderer.
pub open spec fn mdv_handle_event(v: MdView, e: MdEvent) -> MdView {
    match e {
        MdEvent::Start(tag) => mdv_start_tag(v, tag),
        MdEvent::End(tag) => mdv_end_tag(v, tag),
        MdEvent::Text(text) => mdv_add_text(v, text@),
        MdEvent::Code(code) => mdv_inline_code(v, code@),
        MdEvent::SoftBreak => mdv_add_text(v, " "@),
        MdEvent::HardBreak => mdv_new_line(v),
        MdEvent::Rule => mdv_horizontal_rule(v),
        MdEvent::TaskMarker(checked) => mdv_task_marker(v, checked),
        MdEvent::Skip => v,
    }
}

/// The whole event stream through the renderer, in order.
pub open spec fn mdv_fold(v: MdView, events: Seq<MdEvent>) -> MdView
    decreases events.len(),
{
    if events.len() == 0 {
        v
    } else {
        mdv_fold(mdv_handle_event(v, events[0]), events.drop_first())
    }
}

/// The final flush of any remaining content.
pub open spec fn mdv_finish(v: MdView) -> MdView {
    if v.current_line.len() > 0 {
        mdv_flush(v)
    } else {
        v
    }
}

/// The lines an event stream renders to, as text/style span views.
pub open spec fn md_render_spec(events: Seq<MdEvent>) -> Seq<Seq<(Seq<char>, SpanStyle)>> {
    mdv_finish(mdv_fold(mdv_init(), events)).lines
}

/// The renderer's accumulated state.
pub struct MarkdownRenderer {
    /// The finished lines.
    pub lines: Vec<Line>,
    /// The spans of the line under construction.
    pub current_line: Vec<StyledSpan>,
    /// The style stack; the last entry is the current style.
    pub style_stack: Vec<SpanStyle>,
    /// Whether a code block is open.
    pub in_code_block: bool,
    /// Whether a block quote is open.
    pub in_blockquote: bool,
    /// The current list nesting depth.
    pub list_depth: usize,
    /// The next item number for each open ordered list.
    pub list_counters: Vec<u64>,
    /// Whether each open list is ordered.
    pub list_ordered: Vec<bool>,
    /// Whether the next text starts a list item and needs its prefix.
    pub needs_list_prefix: bool,
    /// The open heading level, for its closing decoration.
    pub current_heading: Option<u8>,
}

/// The view of a renderer's state.
pub open spec fn md_view(r: MarkdownRenderer) -> MdView {
    MdView {
        lines: r.lines@.map_values(|l: Line| crate::render::span_views(l.spans@)),
        current_line: crate::render::span_views(r.current_line@),
        style_stack: r.style_stack@,
        in_code_block: r.in_code_block,
        in_blockquote: r.in_blockquote,
        list_depth: r.list_depth as nat,
        list_counters: r.list_counters@,
        list_ordered: r.list_ordered@,
        needs_list_prefix: r.needs_list_prefix,
        current_heading: r.current_heading,
    }
}

/// Pushing a line extends the view's lines by the line's span views.
proof fn lemma_line_views_push(prev: Seq<Line>, now: Seq<Line>, spans: Seq<(Seq<char>, SpanStyle)>)
    requires
        now.len() == prev.len() + 1,
        now.drop_last() == prev,
        crate::render::span_views(now.last().spans@) == spans,
    ensures
        now.map_values(|l: Line| crate::render::span_views(l.spans@)) == prev.map_values(
            |l: Line| crate::render::span_views(l.spans@),
        ).push(spans),
{
    let f = |l: Line| crate::render::span_views(l.spans@);
    assert forall|j: int| 0 <= j < now.len() implies #[trigger] now.map_values(f)[j]
        == prev.map_values(f).push(spans)[j] by {
        if j < prev.len() {
            assert(now[j] == now.drop_last()[j]);
        }
    }
    assert(now.map_values(f) =~= prev.map_values(f).push(spans));
}

/// The renderer's lines are well formed: nonempty spans and sequential
/// 1-based numbering.
pub open spec fn md_lines_wf(lines: Seq<Line>) -> bool {
    forall|i: int|
        0 <= i < lines.len() ==> wf_spans(#[trigger] lines[i].spans@) && lines[i].number == i + 1
            && !lines[i].is_match && !lines[i].is_context
}

impl MarkdownRenderer {
    /// The whole renderer state is well formed.
    pub open spec fn wf(self) -> bool {
        &&& md_lines_wf(self.lines@)
        &&& wf_spans(self.current_line@)
        &&& self.style_stack@.len() >= 1
    }

    /// A fresh renderer: no lines, an empty current line, and the plain
    /// style on the stack.
    pub fn new() -> (r: MarkdownRenderer)
        ensures
            r.wf(),
            r.lines@.len() == 0,
            r.current_line@.len() == 0,
            md_view(r) == mdv_init(),
    {
        let mut style_stack: Vec<SpanStyle> = Vec::new();
        style_stack.push(SpanStyle::new());
        let r = MarkdownRenderer {
            lines: Vec::new(),
            current_line: Vec::new(),
            style_stack,
            in_code_block: false,
            in_blockquote: false,
            list_depth: 0,
            list_counters: Vec::new(),
            list_ordered: Vec::new(),
            needs_list_prefix: false,
            current_heading: None,
        };
        proof {
            assert(crate::render::span_views(r.current_line@)
                =~= Seq::<(Seq<char>, SpanStyle)>::empty());
            assert(r.lines@.map_values(|l: Line| crate::render::span_views(l.spans@))
                =~= Seq::<Seq<(Seq<char>, SpanStyle)>>::empty());
            assert(r.style_stack@ =~= seq![SpanStyle::plain_spec()]);
            assert(md_view(r) =~= mdv_init());
        }
        r
    }

    /// The current style: the top of the style stack.
    pub fn current_style(&self) -> (r: SpanStyle)
        requires
            self.style_stack@.len() >= 1,
        ensures
            r == self.style_stack@.last(),
    {
        self.style_stack[self.style_stack.len() - 1]
    }

    /// Push the merge of a style over the current style.
    pub fn push_style(&mut self, style: SpanStyle)
        requires
            old(self).style_stack@.len() >= 1,
        ensures
            final(self).style_stack@ == old(self).style_stack@.push(
                SpanStyle::merge_spec(old(self).style_stack@.last(), style),
            ),
            *final(self) == (MarkdownRenderer {
                style_stack: final(self).style_stack,
                ..*old(self)
            }),
            md_view(*final(self)) == mdv_push_style(md_view(*old(self)), style),
    {
        let current = self.current_style();
        let merged = SpanStyle::merge(&current, &style);
        self.style_stack.push(merged);
    }

    /// Pop the style stack, keeping its base entry.
    pub fn pop_style(&mut self)
        ensures
            final(self).style_stack@ == if old(self).style_stack@.len() > 1 {
                old(self).style_stack@.drop_last()
            } else {
                old(self).style_stack@
            },
            *final(self) == (MarkdownRenderer {
                style_stack: final(self).style_stack,
                ..*old(self)
            }),
            md_view(*final(self)) == mdv_pop_style(md_view(*old(self))),
    {
        if self.style_stack.len() > 1 {
            self.style_stack.pop();
        }
    }

    /// Append styled text to the current line; empty text adds nothing.
    pub fn add_styled_text(&mut self, text: &str, style: SpanStyle)
        ensures
            text@.len() == 0 ==> final(self).current_line@ == old(self).current_line@,
            text@.len() > 0 ==> final(self).current_line@.len() == old(self).current_line@.len()
                + 1 && final(self).current_line@.last().text@ == text@ && final(self).current_line@.last().style == style && final(self).current_line@.take(
                old(self).current_line@.len() as int,
            ) == old(self).current_line@,
            *final(self) == (MarkdownRenderer {
                current_line: final(self).current_line,
                ..*old(self)
            }),
            wf_spans(old(self).current_line@) ==> wf_spans(final(self).current_line@),
            md_view(*final(self)) == mdv_add_span(md_view(*old(self)), text@, style),
    {
        if text.unicode_len() > 0 {
            let ghost before = self.current_line@;
            self.current_line.push(StyledSpan::new(text, style));
            proof {
                assert(self.current_line@.drop_last() =~= before);
                crate::render::lemma_span_views_push(
                    before,
                    self.current_line@,
                    text@,
                    style,
                );
                assert(md_view(*self) =~= mdv_add_span(md_view(*old(self)), text@, style));
                assert(self.current_line@.take(before.len() as int) =~= before);
                if wf_spans(before) {
                    assert forall|i: int|
                        0 <= i < self.current_line@.len() implies (
                    #[trigger] self.current_line@[i]).text@.len() > 0 by {
                        if i < before.len() {
                            assert(self.current_line@[i] == before[i]);
                        }
                    }
                }
            }
        }
    }

    /// Close the current line: its spans become the next numbered line, or
    /// an empty line when nothing was gathered.
    pub fn flush_line(&mut self)
        requires
            old(self).wf(),
        ensures
            final(self).wf(),
            final(self).current_line@.len() == 0,
            final(self).lines@.len() == old(self).lines@.len() + 1,
            final(self).lines@.last().spans@ == old(self).current_line@,
            forall|i: int|
                0 <= i < old(self).lines@.len() ==> #[trigger] final(self).lines@[i] == old(self).lines@[i],
            *final(self) == (MarkdownRenderer {
                lines: final(self).lines,
                current_line: final(self).current_line,
                ..*old(self)
            }),
            md_view(*final(self)) == mdv_flush(md_view(*old(self))),
    {
        let number: usize = if self.lines.len() < usize::MAX {
            self.lines.len() + 1
        } else {
            usize::MAX
        };
        let mut spans: Vec<StyledSpan> = Vec::new();
        core::mem::swap(&mut self.current_line, &mut spans);
        let ghost before = self.lines@;
        self.lines.push(Line { number, spans, is_match: false, is_context: false });
        proof {
            vstd::std_specs::vec::axiom_spec_len(&self.lines);
            assert(self.lines@.len() <= usize::MAX);
            assert(self.lines@.drop_last() =~= before);
            lemma_line_views_push(
                before,
                self.lines@,
                crate::render::span_views(old(self).current_line@),
            );
            assert(crate::render::span_views(self.current_line@)
                =~= Seq::<(Seq<char>, SpanStyle)>::empty());
            assert(md_view(*self) =~= mdv_flush(md_view(*old(self))));
            assert forall|i: int|
                0 <= i < self.lines@.len() implies wf_spans(#[trigger] self.lines@[i].spans@)
                && self.lines@[i].number == i + 1 && !self.lines@[i].is_match
                && !self.lines@[i].is_context by {
                if i < before.len() {
                    assert(self.lines@[i] == before[i]);
                }
            }
        }
    }

    /// Close the current line and, inside a block quote, begin the next
    /// with the quote prefix.
    pub fn new_line(&mut self)
        requires
            old(self).wf(),
        ensures
            final(self).wf(),
            final(self).lines@.len() == old(self).lines@.len() + 1,
            md_view(*final(self)) == mdv_new_line(md_view(*old(self))),
    {
        self.flush_line();
        if self.in_blockquote {
            self.add_blockquote_prefix();
        }
    }

    /// Begin a quoted line: the dim `│ ` prefix.
    pub fn add_blockquote_prefix(&mut self)
        ensures
            final(self).current_line@.len() == old(self).current_line@.len() + 1,
            final(self).current_line@.last().text@ == "\u{2502} "@,
            final(self).current_line@.last().style == (SpanStyle {
                fg: Some(Color::DarkGray),
                bg: None,
                bold: false,
                italic: false,
                underline: false,
            }),
            final(self).current_line@.take(old(self).current_line@.len() as int) == old(self).current_line@,
            wf_spans(old(self).current_line@) ==> wf_spans(final(self).current_line@),
            *final(self) == (MarkdownRenderer {
                current_line: final(self).current_line,
                ..*old(self)
            }),
            md_view(*final(self)) == mdv_blockquote_prefix(md_view(*old(self))),
    {
        let style = SpanStyle::new().fg(Color::DarkGray);
        let ghost before = self.current_line@;
        self.current_line.push(StyledSpan::new("\u{2502} ", style));
        proof {
            reveal_strlit("\u{2502} ");
            assert("\u{2502} "@.len() == 2);
            assert(self.current_line@.drop_last() =~= before);
            crate::render::lemma_span_views_push(
                before,
                self.current_line@,
                "\u{2502} "@,
                fg_style(Color::DarkGray),
            );
            assert(md_view(*self) =~= mdv_blockquote_prefix(md_view(*old(self))));
            assert(self.current_line@.take(before.len() as int) =~= before);
            if wf_spans(before) {
                assert forall|i: int|
                    0 <= i < self.current_line@.len() implies (
                #[trigger] self.current_line@[i]).text@.len() > 0 by {
                    if i < before.len() {
                        assert(self.current_line@[i] == before[i]);
                    }
                }
            }
        }
    }

    /// Inline code: a cyan span, backticks elided.
    pub fn add_inline_code(&mut self, code: &str)
        requires
            old(self).wf(),
        ensures
            final(self).wf(),
            *final(self) == (MarkdownRenderer {
                current_line: final(self).current_line,
                ..*old(self)
            }),
            md_view(*final(self)) == mdv_inline_code(md_view(*old(self)), code@),
    {
        let style = SpanStyle::new().fg(Color::Cyan);
        self.add_styled_text(code, style);
    }

    /// A thematic break: a forty-column dim rule on its own line.
    pub fn add_horizontal_rule(&mut self)
        requires
            old(self).wf(),
        ensures
            final(self).wf(),
            md_view(*final(self)) == mdv_horizontal_rule(md_view(*old(self))),
    {
        self.flush_line();
        let style = SpanStyle::new().fg(Color::DarkGray);
        self.add_rule_run(style, 40);
        self.flush_line();
    }

    /// A task-list marker: `[x] ` or `[ ] ` in magenta.
    pub fn add_task_marker(&mut self, checked: bool)
        requires
            old(self).wf(),
        ensures
            final(self).wf(),
            *final(self) == (MarkdownRenderer {
                current_line: final(self).current_line,
                ..*old(self)
            }),
            md_view(*final(self)) == mdv_task_marker(md_view(*old(self)), checked),
    {
        let style = SpanStyle::new().fg(Color::Magenta);
        if checked {
            self.add_styled_text("[x] ", style);
        } else {
            self.add_styled_text("[ ] ", style);
        }
    }

    /// The list-item prefix: a two-space indent per depth, then the item
    /// number for an ordered list or the depth's bullet for an unordered
    /// one; the ordered counter advances.
    pub fn add_list_prefix(&mut self)
        requires
            old(self).wf(),
        ensures
            final(self).wf(),
            md_view(*final(self)) == mdv_list_prefix(md_view(*old(self))),
    {
        let depth = self.list_depth;
        let mut indent: Vec<char> = Vec::new();
        let mut i: usize = 1;
        proof {
            assert(indent@ =~= crate::ingest::spaces(0));
        }
        while i < depth
            invariant
                1 <= i,
                depth >= 1 ==> i <= depth,
                depth == 0 ==> i == 1,
                depth == self.list_depth,
                indent@ == crate::ingest::spaces((2 * (i - 1)) as nat),
            decreases depth - i,
        {
            indent.push(' ');
            indent.push(' ');
            proof {
                assert(indent@ =~= crate::ingest::spaces((2 * i) as nat));
            }
            i = i + 1;
        }
        proof {
            if depth >= 1 {
                assert(i == depth);
                assert(indent_spec(depth as nat) == crate::ingest::spaces(
                    (2 * (depth as nat - 1)) as nat,
                ));
                assert(indent@ =~= indent_spec(depth as nat));
            } else {
                assert(indent@ == crate::ingest::spaces(0));
                assert(indent@.len() == 0);
                assert(indent_spec(depth as nat) == Seq::<char>::empty());
                assert(indent@ =~= indent_spec(depth as nat));
            }
        }
        let indent_s = chars_string(&indent);
        if self.list_ordered.len() > 0 {
            let ordered = self.list_ordered[self.list_ordered.len() - 1];
            let style = SpanStyle::new().fg(Color::Yellow);
            if ordered && self.list_counters.len() > 0 {
                let counter = self.list_counters[self.list_counters.len() - 1];
                let mut prefix = str_chars(indent_s.as_str());
                let digits = crate::render::u64_to_decimal(counter);
                crate::render::push_chars(&mut prefix, &digits);
                prefix.push('.');
                prefix.push(' ');
                proof {
                    assert(digits@ == counter_digits_spec(counter));
                    assert(prefix@ =~= indent_spec(depth as nat) + counter_digits_spec(counter)
                        + seq!['.', ' ']);
                }
                let prefix_s = chars_string(&prefix);
                self.add_styled_text(prefix_s.as_str(), style);
                let idx = self.list_counters.len() - 1;
                let c = self.list_counters[idx];
                let ghost counters_before = self.list_counters@;
                if c < u64::MAX {
                    self.list_counters.set(idx, c + 1);
                }
                proof {
                    assert(self.list_counters@ =~= counters_before.update(
                        counters_before.len() - 1,
                        if c < u64::MAX {
                            (c + 1) as u64
                        } else {
                            c
                        },
                    ));
                    assert(md_view(*self) =~= mdv_list_prefix(md_view(*old(self))));
                }
            } else {
                let mut prefix = str_chars(indent_s.as_str());
                if depth == 1 {
                    prefix.push('\u{2022}');
                } else if depth == 2 {
                    prefix.push('\u{25e6}');
                } else {
                    prefix.push('\u{25aa}');
                }
                prefix.push(' ');
                proof {
                    assert(prefix@ =~= indent_spec(depth as nat) + seq![
                        bullet_spec(depth as nat),
                        ' ',
                    ]);
                }
                let prefix_s = chars_string(&prefix);
                self.add_styled_text(prefix_s.as_str(), style);
                proof {
                    assert(md_view(*self) =~= mdv_list_prefix(md_view(*old(self))));
                }
            }
        }
    }

    /// The style of a heading level: a distinct bold foreground per level.
    pub fn heading_style(&self, level: u8) -> (r: SpanStyle)
        ensures
            r == heading_style_spec(level),
    {
        if level == 1 {
            SpanStyle::new().fg(Color::White).bold()
        } else if level == 2 {
            SpanStyle::new().fg(Color::Cyan).bold()
        } else if level == 3 {
            SpanStyle::new().fg(Color::Green).bold()
        } else if level == 4 {
            SpanStyle::new().fg(Color::Magenta).bold()
        } else if level == 5 {
            SpanStyle::new().fg(Color::Yellow).bold()
        } else {
            SpanStyle::new().fg(Color::DarkGray).bold()
        }
    }

    /// The glyph prefix of heading levels three through six; levels one and
    /// two carry their own decorations.
    pub fn heading_prefix(&self, level: u8) -> (r: (&'static str, SpanStyle))
        ensures
            (r.0@, r.1) == heading_prefix_spec(level),
    {
        if level == 1 || level == 2 {
            proof {
                reveal_strlit("");
            }
            ("", SpanStyle::new())
        } else if level == 3 {
            ("\u{25b8} ", SpanStyle::new().fg(Color::Green).bold())
        } else if level == 4 {
            ("\u{25c6} ", SpanStyle::new().fg(Color::Magenta).bold())
        } else if level == 5 {
            ("\u{25c7} ", SpanStyle::new().fg(Color::Yellow).bold())
        } else {
            ("\u{00b7} ", SpanStyle::new().fg(Color::DarkGray).bold())
        }
    }

    /// Text inside the line: list prefixes first, then code-block lines in
    /// green with their breaks preserved, quoted lines re-prefixed, or
    /// plain text in the current style.
    pub fn add_text(&mut self, text: &str)
        requires
            old(self).wf(),
        ensures
            final(self).wf(),
            md_view(*final(self)) == mdv_add_text(md_view(*old(self)), text@),
    {
        if self.needs_list_prefix {
            self.add_list_prefix();
            self.needs_list_prefix = false;
        }
        let ghost v0 = md_view(*self);
        if self.in_code_block {
            let style = SpanStyle::new().fg(Color::Green);
            let chars = str_chars(text);
            let pieces = crate::text::split_at_newlines(&chars);
            let ghost pviews = crate::text::views_of(pieces@);
            let mut i: usize = 0;
            proof {
                assert(pviews.skip(0) =~= pviews);
            }
            while i < pieces.len()
                invariant
                    i <= pieces@.len(),
                    pviews == crate::text::views_of(pieces@),
                    self.wf(),
                    style == fg_style(Color::Green),
                    self.in_code_block,
                    mdv_code_pieces(md_view(*self), pviews.skip(i as int)) == mdv_code_pieces(
                        v0,
                        pviews,
                    ),
                decreases pieces@.len() - i,
            {
                proof {
                    assert(pviews.skip(i as int)[0] == pviews[i as int]);
                    assert(pviews[i as int] == pieces@[i as int]@);
                    assert(pviews.skip(i as int).drop_first() =~= pviews.skip(i + 1));
                }
                if self.current_line.len() > 0 {
                    self.flush_line();
                }
                let piece = chars_string(&pieces[i]);
                self.add_styled_text(piece.as_str(), style);
                i = i + 1;
            }
            proof {
                assert(pviews.skip(pviews.len() as int) =~= Seq::<Seq<char>>::empty());
                assert(md_view(*self) =~= mdv_add_text(md_view(*old(self)), text@));
            }
        } else if self.in_blockquote {
            let chars = str_chars(text);
            let pieces = crate::text::split_at_newlines(&chars);
            let ghost pviews = crate::text::views_of(pieces@);
            let mut i: usize = 0;
            proof {
                assert(pviews.skip(0) =~= pviews);
            }
            while i < pieces.len()
                invariant
                    i <= pieces@.len(),
                    pviews == crate::text::views_of(pieces@),
                    self.wf(),
                    self.in_blockquote,
                    !self.in_code_block,
                    mdv_quote_pieces(md_view(*self), pviews.skip(i as int), i == 0)
                        == mdv_quote_pieces(v0, pviews, true),
                decreases pieces@.len() - i,
            {
                proof {
                    assert(pviews.skip(i as int)[0] == pviews[i as int]);
                    assert(pviews[i as int] == pieces@[i as int]@);
                    assert(pviews.skip(i as int).drop_first() =~= pviews.skip(i + 1));
                }
                if i > 0 {
                    self.flush_line();
                    self.add_blockquote_prefix();
                }
                let piece = chars_string(&pieces[i]);
                let style = self.current_style();
                self.add_styled_text(piece.as_str(), style);
                i = i + 1;
            }
            proof {
                assert(pviews.skip(pviews.len() as int) =~= Seq::<Seq<char>>::empty());
                if pviews.len() == 0 {
                } else {
                    assert(mdv_quote_pieces(md_view(*self), pviews.skip(pviews.len() as int),
                    false) == md_view(*self));
                }
                assert(md_view(*self) =~= mdv_add_text(md_view(*old(self)), text@));
            }
        } else {
            let style = self.current_style();
            self.add_styled_text(text, style);
            proof {
                assert(md_view(*self) =~= mdv_add_text(md_view(*old(self)), text@));
            }
        }
    }

    /// Open an element.
    pub fn start_tag(&mut self, tag: &MdTag)
        requires
            old(self).wf(),
        ensures
            final(self).wf(),
            md_view(*final(self)) == mdv_start_tag(md_view(*old(self)), *tag),
    {
        match tag {
            MdTag::Heading(level) => {
                let level = *level;
                if self.current_line.len() > 0 || self.lines.len() > 0 {
                    self.flush_line();
                }
                self.current_heading = Some(level);
                if level == 1 {
                    let border_style = SpanStyle::new().fg(Color::Yellow);
                    self.add_styled_text("\u{2554}", border_style);
                    self.add_border_run(border_style);
                    self.add_styled_text("\u{2557}", border_style);
                    self.flush_line();
                    let side_style = SpanStyle::new().fg(Color::Yellow);
                    self.add_styled_text("\u{2551}  ", side_style);
                } else if level == 2 {
                    let decor_style = SpanStyle::new().fg(Color::Blue);
                    self.add_styled_text("\u{2500}\u{2500}\u{25c8} ", decor_style);
                } else {
                    let (prefix, prefix_style) = self.heading_prefix(level);
                    if prefix.unicode_len() > 0 {
                        self.add_styled_text(prefix, prefix_style);
                    }
                }
                let style = self.heading_style(level);
                self.push_style(style);
            },
            MdTag::Paragraph => {
                if self.lines.len() > 0 && self.list_depth == 0 && !self.in_blockquote {
                    self.flush_line();
                }
            },
            MdTag::BlockQuote => {
                self.flush_line();
                self.in_blockquote = true;
                self.add_blockquote_prefix();
            },
            MdTag::CodeBlock(info) => {
                self.flush_line();
                self.in_code_block = true;
                let style = SpanStyle::new().fg(Color::DarkGray);
                match info {
                    Some(lang) => {
                        if lang.as_str().unicode_len() > 0 {
                            let mut head = str_chars("\u{2500}\u{2500}\u{2500} ");
                            let lang_chars = str_chars(lang.as_str());
                            crate::render::push_chars(&mut head, &lang_chars);
                            head.push(' ');
                            proof {
                                assert(head@ =~= "\u{2500}\u{2500}\u{2500} "@ + lang@ + seq![
                                    ' ',
                                ]);
                            }
                            let head_s = chars_string(&head);
                            self.add_styled_text(head_s.as_str(), style);
                            self.add_rule_run(style, 30);
                        } else {
                            self.add_rule_run(style, 40);
                        }
                    },
                    None => {
                        self.add_rule_run(style, 40);
                    },
                }
                self.flush_line();
            },
            MdTag::List(start) => {
                if self.list_depth == 0 && (self.current_line.len() > 0 || self.lines.len()
                    > 0) {
                    self.flush_line();
                }
                if self.list_depth < usize::MAX {
                    self.list_depth = self.list_depth + 1;
                }
                match start {
                    Some(n) => {
                        self.list_ordered.push(true);
                        self.list_counters.push(*n);
                    },
                    None => {
                        self.list_ordered.push(false);
                        self.list_counters.push(1);
                    },
                }
            },
            MdTag::Item => {
                if self.current_line.len() > 0 || self.lines.len() > 0 {
                    self.flush_line();
                }
                self.needs_list_prefix = true;
            },
            MdTag::Emphasis => {
                self.push_style(SpanStyle::new().fg(Color::Yellow));
            },
            MdTag::Strong => {
                self.push_style(SpanStyle::new().bold());
            },
            MdTag::Strikethrough => {
                self.push_style(SpanStyle::new().fg(Color::DarkGray));
            },
            MdTag::Link => {
                self.push_style(SpanStyle::new().fg(Color::Blue).underline());
            },
            MdTag::Image => {
                let style = SpanStyle::new().fg(Color::Magenta);
                self.add_styled_text("[Image: ", style);
                self.push_style(style);
            },
            MdTag::Table => {
                self.flush_line();
            },
            MdTag::TableRow => {},
            MdTag::TableCell => {},
            MdTag::Other => {},
        }
    }

    /// Close an element.
    pub fn end_tag(&mut self, tag: &MdTag)
        requires
            old(self).wf(),
        ensures
            final(self).wf(),
            md_view(*final(self)) == mdv_end_tag(md_view(*old(self)), *tag),
    {
        match tag {
            MdTag::Heading(_) => {
                self.pop_style();
                match self.current_heading {
                    Some(level) => {
                        self.current_heading = None;
                        if level == 1 {
                            self.flush_line();
                            let border_style = SpanStyle::new().fg(Color::Yellow);
                            self.add_styled_text("\u{255a}", border_style);
                            self.add_border_run(border_style);
                            self.add_styled_text("\u{255d}", border_style);
                            self.flush_line();
                        } else if level == 2 {
                            let decor_style = SpanStyle::new().fg(Color::Blue);
                            self.add_styled_text(" \u{25c8}", decor_style);
                            self.add_rule_run(decor_style, 30);
                            self.flush_line();
                        } else {
                            self.flush_line();
                        }
                    },
                    None => {
                        self.flush_line();
                    },
                }
                self.flush_line();
            },
            MdTag::Paragraph => {
                self.flush_line();
            },
            MdTag::BlockQuote => {
                self.in_blockquote = false;
                self.flush_line();
            },
            MdTag::CodeBlock(_) => {
                self.in_code_block = false;
                let style = SpanStyle::new().fg(Color::DarkGray);
                self.add_rule_run(style, 40);
                self.flush_line();
            },
            MdTag::List(_) => {
                if self.list_depth > 0 {
                    self.list_depth = self.list_depth - 1;
                }
                if self.list_counters.len() > 0 {
                    self.list_counters.pop();
                }
                if self.list_ordered.len() > 0 {
                    self.list_ordered.pop();
                }
                if self.list_depth == 0 {
                    self.flush_line();
                }
            },
            MdTag::Item => {},
            MdTag::Emphasis => {
                self.pop_style();
            },
            MdTag::Strong => {
                self.pop_style();
            },
            MdTag::Strikethrough => {
                self.pop_style();
            },
            MdTag::Link => {
                self.pop_style();
            },
            MdTag::Image => {
                self.pop_style();
                let style = SpanStyle::new().fg(Color::Magenta);
                self.add_styled_text("]", style);
            },
            MdTag::Table => {},
            MdTag::TableRow => {
                self.flush_line();
            },
            MdTag::TableCell => {
                if self.needs_list_prefix {
                    self.add_list_prefix();
                    self.needs_list_prefix = false;
                }
                let style = self.current_style();
                self.add_styled_text(" | ", style);
            },
            MdTag::Other => {},
        }
    }

    /// A run of dim box-drawing dashes.
    fn add_rule_run(&mut self, style: SpanStyle, n: usize)
        requires
            old(self).wf(),
            n >= 1,
        ensures
            final(self).wf(),
            final(self).lines@ == old(self).lines@,
            md_view(*final(self)) == mdv_add_span(md_view(*old(self)), dash_run(n as nat), style),
    {
        let mut run: Vec<char> = Vec::new();
        let mut i: usize = 0;
        while i < n
            invariant
                i <= n,
                run@ == dash_run(i as nat),
            decreases n - i,
        {
            run.push('\u{2500}');
            proof {
                assert(run@ =~= dash_run((i + 1) as nat));
            }
            i = i + 1;
        }
        let s = chars_string(&run);
        self.add_styled_text(s.as_str(), style);
    }

    /// The fifty-column double-line border of a level-one heading frame.
    fn add_border_run(&mut self, style: SpanStyle)
        requires
            old(self).wf(),
        ensures
            final(self).wf(),
            final(self).lines@ == old(self).lines@,
            md_view(*final(self)) == mdv_add_span(md_view(*old(self)), border_run(), style),
    {
        let mut run: Vec<char> = Vec::new();
        let mut i: usize = 0;
        while i < 50
            invariant
                i <= 50,
                run@ == border_run().take(i as int),
            decreases 50 - i,
        {
            run.push('\u{2550}');
            proof {
                assert(run@ =~= border_run().take(i + 1));
            }
            i = i + 1;
        }
        proof {
            assert(border_run().take(50) =~= border_run());
        }
        let s = chars_string(&run);
        self.add_styled_text(s.as_str(), style);
    }

    /// Feed one event through the renderer.
    pub fn handle_event(&mut self, event: &MdEvent)
        requires
            old(self).wf(),
        ensures
            final(self).wf(),
            md_view(*final(self)) == mdv_handle_event(md_view(*old(self)), *event),
    {
        match event {
            MdEvent::Start(tag) => self.start_tag(tag),
            MdEvent::End(tag) => self.end_tag(tag),
            MdEvent::Text(text) => self.add_text(text.as_str()),
            MdEvent::Code(code) => self.add_inline_code(code.as_str()),
            MdEvent::SoftBreak => self.add_text(" "),
            MdEvent::HardBreak => self.new_line(),
            MdEvent::Rule => self.add_horizontal_rule(),
            MdEvent::TaskMarker(checked) => self.add_task_marker(*checked),
            MdEvent::Skip => {},
        }
    }
}

/// Render an event stream to styled lines: every event in order through
/// the state machine `mdv_handle_event` describes, then a final flush of
/// any remaining content. The lines come out exactly as `md_render_spec`
/// builds them — text and style, span by span — well formed and numbered
/// sequentially from one; an empty stream gives no lines.
pub fn render_events(events: &Vec<MdEvent>) -> (r: Vec<Line>)
    ensures
        md_lines_wf(r@),
        r@.map_values(|l: Line| crate::render::span_views(l.spans@)) == md_render_spec(events@),
        events@.len() == 0 ==> r@.len() == 0,
{
    let mut renderer = MarkdownRenderer::new();
    let mut i: usize = 0;
    proof {
        assert(events@.skip(0) =~= events@);
    }
    while i < events.len()
        invariant
            i <= events@.len(),
            renderer.wf(),
            mdv_fold(md_view(renderer), events@.skip(i as int)) == mdv_fold(
                mdv_init(),
                events@,
            ),
        decreases events@.len() - i,
    {
        proof {
            assert(events@.skip(i as int)[0] == events@[i as int]);
            assert(events@.skip(i as int).drop_first() =~= events@.skip(i + 1));
        }
        renderer.handle_event(&events[i]);
        i = i + 1;
    }
    proof {
        assert(events@.skip(events@.len() as int) =~= Seq::<MdEvent>::empty());
    }
    if renderer.current_line.len() > 0 {
        renderer.flush_line();
    }
    proof {
        assert(md_view(renderer).lines =~= md_render_spec(events@));
        if events@.len() == 0 {
            assert(mdv_fold(mdv_init(), events@) == mdv_init());
        }
    }
    renderer.lines
}

/// Render markdown text to a styled document: parse it to the CommonMark
/// event stream and transform the events to lines exactly as
/// `md_render_spec` describes.
pub fn render_markdown(text: &str, source_name: String) -> (r: Document)
    ensures
        md_lines_wf(r.lines@),
        r.lines@.map_values(|l: Line| crate::render::span_views(l.spans@)) == md_render_spec(
            md_events_of(text@),
        ),
        r.max_width_ok(),
        r.source_name == source_name,
        r.encoding@ == "UTF-8"@,
        md_events_of(text@).len() == 0 ==> r.lines@.len() == 0,
{
    let events = md_events(text);
    let lines = render_events(&events);
    let encoding = chars_string(&str_chars("UTF-8"));
    let mut doc = Document { lines, max_line_width: 0, source_name, encoding };
    doc.recalculate_max_width();
    doc
}

} // verus!
