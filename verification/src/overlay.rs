//! The search overlay: find all matches and repaint the matched character
//! ranges while preserving the underlying styles, plus the search session
//! state for the viewer.

use vstd::prelude::*;
use vstd::string::StrSliceExecFns;

use crate::cli::Args;
use crate::error::MatError;
use crate::grep::covered;
use crate::line::char_style_at;
use crate::line::lemma_char_style_at_concat;
use crate::line::lemma_char_style_within;
use crate::line::lemma_spans_text_take_step;
use crate::line::spans_text;
use crate::line::wf_spans;
use crate::line::Document;
use crate::line::Line;
use crate::line::StyledSpan;
use crate::render::span_views;
use crate::pattern::build_regex;
use crate::pattern::flavored_pattern_spec;
use crate::pattern::pattern_find_ranges;
use crate::pattern::regex_builds;
use crate::pattern::regex_match_ranges;
use crate::pattern::Pattern;
use crate::style::Color;
use crate::style::SpanStyle;
use crate::text::chars_string;
use crate::text::copy_range;
use crate::text::str_chars;

verus! {

/// The position of one match: the line index and the match's character
/// range within the line's raw text.
#[derive(Debug, Clone, Copy, PartialEq, Eq, Structural)]
pub struct MatchPosition {
    /// Index of the line in the document, 0-based.
    pub line_idx: usize,
    /// Character offset where the match starts.
    pub start_col: usize,
    /// Character offset just past the match's end.
    pub end_col: usize,
}

/// The style search matches are painted with: black on yellow, bold.
pub open spec fn highlight_style_spec() -> SpanStyle {
    SpanStyle {
        fg: Some(Color::Black),
        bg: Some(Color::Yellow),
        bold: true,
        italic: false,
        underline: false,
    }
}

/// The style for search highlighting.
pub fn highlight_style() -> (r: SpanStyle)
    ensures
        r == highlight_style_spec(),
{
    SpanStyle {
        fg: Some(Color::Black),
        bg: Some(Color::Yellow),
        bold: true,
        italic: false,
        underline: false,
    }
}

/// The match positions of a pattern over a list of lines, in document
/// order.
pub open spec fn match_positions_spec(lines: Seq<Line>, pat: Seq<char>) -> Seq<MatchPosition>
    decreases lines.len(),
{
    if lines.len() == 0 {
        Seq::empty()
    } else {
        match_positions_spec(lines.drop_last(), pat) + line_positions(
            lines.len() - 1,
            regex_match_ranges(pat, lines.last().text_spec()),
        )
    }
}

/// The match positions of one line, tagged with its index.
pub open spec fn line_positions(li: int, rs: Seq<(usize, usize)>) -> Seq<MatchPosition> {
    Seq::new(
        rs.len(),
        |k: int|
            MatchPosition { line_idx: li as usize, start_col: rs[k].0, end_col: rs[k].1 },
    )
}

/// Search state: the compiled pattern, the match positions in document
/// order, and the current position in the match list.
pub struct SearchState {
    /// The compiled pattern.
    pub pattern: Pattern,
    /// All match positions found.
    pub matches: Vec<MatchPosition>,
    /// The index of the current match, if navigation has started.
    pub current_match: Option<usize>,
}

impl SearchState {
    /// Build search state from the arguments: no search pattern means no
    /// state, an empty pattern is an error, and a pattern that does not
    /// compile surfaces as an invalid-regex error carrying the pattern.
    pub fn from_args(args: &Args) -> (r: Result<Option<SearchState>, MatError>)
        ensures
            args.search is None ==> (r matches Ok(o) && o is None),
            args.search matches Some(p) ==> ({
                let flavored = flavored_pattern_spec(
                    p@,
                    args.ignore_case,
                    args.fixed_strings,
                    args.word_regexp,
                    args.line_regexp,
                );
                &&& (p@.len() == 0 ==> (r matches Err(e) && e is EmptyPattern))
                &&& (p@.len() > 0 ==> {
                    &&& (r matches Ok(o) ==> (o matches Some(st) && st.pattern.pat() == flavored
                        && st.matches@.len() == 0 && st.current_match is None))
                    &&& (r is Ok <==> regex_builds(flavored))
                    &&& (r matches Err(e) ==> (e matches MatError::InvalidRegex {
                        pattern: ep,
                        ..
                    } && ep@ == p@))
                })
            }),
    {
        let pattern_str = match &args.search {
            Some(p) => p,
            None => {
                return Ok(None);
            },
        };
        if pattern_str.as_str().unicode_len() == 0 {
            return Err(MatError::EmptyPattern);
        }
        let pattern = match build_regex(pattern_str.as_str(), args) {
            Ok(p) => p,
            Err(e) => {
                return Err(e);
            },
        };
        Ok(Some(SearchState { pattern, matches: Vec::new(), current_match: None }))
    }

    /// Find all matches in the document and store their positions in
    /// document order.
    pub fn find_matches(&mut self, document: &Document)
        ensures
            final(self).pattern == old(self).pattern,
            final(self).current_match == old(self).current_match,
            final(self).matches@ == match_positions_spec(document.lines@, old(self).pattern.pat()),
    {
        let ghost pat = self.pattern.pat();
        self.matches = Vec::new();
        let n = document.lines.len();
        let mut i: usize = 0;
        proof {
            assert(document.lines@.take(0) =~= Seq::<Line>::empty());
            assert(self.matches@ =~= match_positions_spec(document.lines@.take(0), pat));
        }
        while i < n
            invariant
                i <= n,
                n == document.lines@.len(),
                pat == self.pattern.pat(),
                self.pattern == old(self).pattern,
                self.current_match == old(self).current_match,
                self.matches@ == match_positions_spec(document.lines@.take(i as int), pat),
            decreases n - i,
        {
            let text = document.lines[i].text();
            let ranges = pattern_find_ranges(&self.pattern, text.as_str());
            let ghost before = self.matches@;
            let mut k: usize = 0;
            while k < ranges.len()
                invariant
                    k <= ranges.len(),
                    ranges@ == regex_match_ranges(pat, document.lines@[i as int].text_spec()),
                    i < n == document.lines@.len(),
                    self.pattern == old(self).pattern,
                    self.current_match == old(self).current_match,
                    pat == self.pattern.pat(),
                    self.matches@ == before + line_positions(i as int, ranges@.take(k as int)),
                decreases ranges.len() - k,
            {
                let (s, e) = ranges[k];
                self.matches.push(MatchPosition { line_idx: i, start_col: s, end_col: e });
                proof {
                    assert(self.matches@ =~= before + line_positions(
                        i as int,
                        ranges@.take(k + 1),
                    ));
                }
                k = k + 1;
            }
            proof {
                assert(ranges@.take(ranges@.len() as int) =~= ranges@);
                assert(document.lines@.take(i + 1).drop_last() =~= document.lines@.take(i as int));
                assert(document.lines@.take(i + 1).last() == document.lines@[i as int]);
            }
            i = i + 1;
        }
        proof {
            assert(document.lines@.take(n as int) =~= document.lines@);
        }
    }

    /// The total number of matches.
    pub fn match_count(&self) -> (r: usize)
        ensures
            r == self.matches@.len(),
    {
        self.matches.len()
    }

    /// The current match position, 1-indexed for display.
    pub fn current_match_display(&self) -> (r: Option<usize>)
        requires
            self.current_match matches Some(i) ==> i < usize::MAX,
        ensures
            r == match self.current_match {
                Some(i) => Some((i + 1) as usize),
                None => None::<usize>,
            },
    {
        match self.current_match {
            Some(i) => Some(i + 1),
            None => None,
        }
    }

    /// Step to the next match, cyclically; the first step lands on the
    /// first match. Returns the line index to scroll to.
    pub fn next_match(&mut self) -> (r: Option<usize>)
        requires
            old(self).current_match matches Some(i) ==> i < usize::MAX,
        ensures
            final(self).pattern == old(self).pattern,
            final(self).matches == old(self).matches,
            old(self).matches@.len() == 0 ==> r is None && final(self).current_match == old(
                self,
            ).current_match,
            old(self).matches@.len() > 0 ==> ({
                let next = match old(self).current_match {
                    Some(i) => ((i + 1) as usize % old(self).matches@.len() as usize) as int,
                    None => 0int,
                };
                &&& final(self).current_match == Some(next as usize)
                &&& r == Some(old(self).matches@[next].line_idx)
            }),
    {
        if self.matches.len() == 0 {
            return None;
        }
        let next: usize = match self.current_match {
            Some(i) => (i + 1) % self.matches.len(),
            None => 0,
        };
        self.current_match = Some(next);
        Some(self.matches[next].line_idx)
    }

    /// Step to the previous match, cyclically; the first step lands on the
    /// last match. Returns the line index to scroll to.
    pub fn prev_match(&mut self) -> (r: Option<usize>)
        ensures
            final(self).pattern == old(self).pattern,
            final(self).matches == old(self).matches,
            old(self).matches@.len() == 0 ==> r is None && final(self).current_match == old(
                self,
            ).current_match,
            old(self).matches@.len() > 0 ==> ({
                let prev = match old(self).current_match {
                    Some(i) => if i == 0 || i >= old(self).matches@.len() {
                        old(self).matches@.len() - 1
                    } else {
                        i - 1
                    },
                    None => old(self).matches@.len() - 1,
                };
                &&& final(self).current_match == Some(prev as usize)
                &&& r == Some(old(self).matches@[prev].line_idx)
            }),
    {
        if self.matches.len() == 0 {
            return None;
        }
        let prev: usize = match self.current_match {
            Some(i) => {
                if i == 0 || i >= self.matches.len() {
                    self.matches.len() - 1
                } else {
                    i - 1
                }
            },
            None => self.matches.len() - 1,
        };
        self.current_match = Some(prev);
        Some(self.matches[prev].line_idx)
    }
}

/// Ranges are sorted and non-overlapping: each ends at or before the next
/// begins.
pub open spec fn ranges_sorted_disjoint(rs: Seq<(usize, usize)>) -> bool {
    forall|i: int| 0 <= i < rs.len() - 1 ==> (#[trigger] rs[i]).1 <= rs[i + 1].0
}

/// The ordering of sorted disjoint ranges is transitive along the list.
proof fn lemma_ranges_chain(rs: Seq<(usize, usize)>, i: int, j: int)
    requires
        ranges_sorted_disjoint(rs),
        forall|k: int| 0 <= k < rs.len() ==> (#[trigger] rs[k]).0 <= rs[k].1,
        0 <= i < j < rs.len(),
    ensures
        rs[i].1 <= rs[j].0,
    decreases j - i,
{
    if j > i + 1 {
        lemma_ranges_chain(rs, i, j - 1);
    }
}

/// How the overlay transforms one line under a pattern: line number and
/// marks survive, the raw text is unchanged, a line without a match is
/// untouched, and otherwise every character inside a match range wears the
/// search style while every other character keeps the style it had.
pub open spec fn overlay_line_rel(orig: Line, out: Line, pat: Seq<char>) -> bool {
    let text = orig.text_spec();
    let ranges = regex_match_ranges(pat, text);
    &&& out.number == orig.number
    &&& out.is_match == orig.is_match
    &&& out.is_context == orig.is_context
    &&& out.text_spec() == text
    &&& (ranges.len() == 0 ==> out.spans@ == orig.spans@)
    &&& (forall|i: int|
        0 <= i < text.len() ==> char_style_at(out.spans@, i) == if covered(ranges, i) {
            highlight_style_spec()
        } else {
            char_style_at(orig.spans@, i)
        })
    &&& (wf_spans(orig.spans@) ==> wf_spans(out.spans@))
}

/// Search overlay non-destructiveness: under the overlay relation the raw
/// text of every line is unchanged, and a line the pattern does not match
/// anywhere — so every line, under a pattern that matches nowhere — keeps
/// its spans and styles exactly.
pub proof fn lemma_overlay_non_destructive(orig: Line, out: Line, pat: Seq<char>)
    requires
        overlay_line_rel(orig, out, pat),
    ensures
        out.text_spec() == orig.text_spec(),
        regex_match_ranges(pat, orig.text_spec()).len() == 0 ==> out.spans@ == orig.spans@
            && crate::line::line_view_eq(out, orig),
{
}

/// The overlay relation looks only at a line's content, so lines with equal
/// content relate identically.
pub proof fn lemma_overlay_rel_view(a: Line, b: Line, out: Line, pat: Seq<char>)
    requires
        crate::line::line_view_eq(a, b),
    ensures
        overlay_line_rel(a, out, pat) == overlay_line_rel(b, out, pat),
{
}

/// The exact fragments the splitter emits, from a range index with the
/// cursor at a character offset: for each range overlapping the span, the
/// unmatched piece before it in the span's own style, then the matched
/// piece in the search style, and after the last range the unmatched tail.
pub open spec fn split_fragments_rec(
    chars: Seq<char>,
    style: SpanStyle,
    span_start: int,
    ranges: Seq<(usize, usize)>,
    hstyle: SpanStyle,
    t: int,
    last: int,
) -> Seq<(Seq<char>, SpanStyle)>
    decreases ranges.len() - t,
{
    if t < 0 || t >= ranges.len() {
        if last < chars.len() {
            seq![(chars.skip(last), style)]
        } else {
            Seq::empty()
        }
    } else {
        let ms = ranges[t].0 as int;
        let me = ranges[t].1 as int;
        let span_end = span_start + chars.len();
        if me <= span_start || ms >= span_end {
            split_fragments_rec(chars, style, span_start, ranges, hstyle, t + 1, last)
        } else {
            let os = if ms > span_start {
                ms - span_start
            } else {
                0
            };
            let oe = if me < span_end {
                me - span_start
            } else {
                chars.len() as int
            };
            let pre: Seq<(Seq<char>, SpanStyle)> = if os > last {
                seq![(chars.subrange(last, os), style)]
            } else {
                Seq::empty()
            };
            let last1 = if os > last {
                os
            } else {
                last
            };
            let mid: Seq<(Seq<char>, SpanStyle)> = if oe > last1 {
                seq![(chars.subrange(last1, oe), hstyle)]
            } else {
                Seq::empty()
            };
            let last2 = if oe > last1 {
                oe
            } else {
                last1
            };
            pre + mid + split_fragments_rec(chars, style, span_start, ranges, hstyle, t + 1,
            last2)
        }
    }
}

/// Split one span of a line into fragments: the pieces that fall inside a
/// match range take the search style, and the pieces outside keep the
/// span's own style.
#[verifier::rlimit(100)]
fn split_span(
    chars: &Vec<char>,
    style: SpanStyle,
    span_start: usize,
    ranges: &Vec<(usize, usize)>,
    hstyle: SpanStyle,
) -> (r: Vec<StyledSpan>)
    requires
        ranges_sorted_disjoint(ranges@),
        forall|k: int| 0 <= k < ranges@.len() ==> (#[trigger] ranges@[k]).0 <= ranges@[k].1,
        span_start + chars@.len() <= usize::MAX,
    ensures
        spans_text(r@) == chars@,
        span_views(r@) == split_fragments_rec(
            chars@,
            style,
            span_start as int,
            ranges@,
            hstyle,
            0,
            0,
        ),
        forall|i: int|
            0 <= i < chars@.len() ==> char_style_at(r@, i) == if covered(
                ranges@,
                span_start + i,
            ) {
                hstyle
            } else {
                style
            },
        wf_spans(r@),
{
    let len = chars.len();
    let span_end = span_start + len;
    let mut r: Vec<StyledSpan> = Vec::new();
    let mut last: usize = 0;
    let mut t: usize = 0;
    proof {
        assert(spans_text(r@) =~= chars@.take(0));
        assert(span_views(r@) =~= Seq::<(Seq<char>, SpanStyle)>::empty());
        assert(span_views(r@) + split_fragments_rec(chars@, style, span_start as int, ranges@,
        hstyle, 0, 0) =~= split_fragments_rec(chars@, style, span_start as int, ranges@, hstyle,
        0, 0));
    }
    while t < ranges.len()
        invariant
            split_fragments_rec(chars@, style, span_start as int, ranges@, hstyle, 0, 0)
                == span_views(r@) + split_fragments_rec(chars@, style, span_start as int,
            ranges@, hstyle, t as int, last as int),
            t <= ranges@.len(),
            last <= len,
            len == chars@.len(),
            span_end == span_start + len,
            span_start + len <= usize::MAX,
            ranges_sorted_disjoint(ranges@),
            forall|k: int| 0 <= k < ranges@.len() ==> (#[trigger] ranges@[k]).0 <= ranges@[k].1,
            spans_text(r@) == chars@.take(last as int),
            wf_spans(r@),
            forall|i: int|
                0 <= i < last ==> char_style_at(r@, i) == if covered(ranges@, span_start + i) {
                    hstyle
                } else {
                    style
                },
            forall|u: int|
                t <= u < ranges@.len() ==> last == 0 || span_start + last
                    <= (#[trigger] ranges@[u]).0 || ranges@[u].1 <= span_start,
            forall|u: int|
                0 <= u < t ==> behind_cursor(ranges@, u, span_start as int, span_end as int,
                last as int, len as int),
        decreases ranges@.len() - t,
    {
        let (ms, me) = ranges[t];
        let ghost old_cursor = last as int;
        let ghost old_views = span_views(r@);
        if me <= span_start || ms >= span_end {
            proof {
                assert(behind_cursor(ranges@, t as int, span_start as int, span_end as int,
                last as int, len as int));
            }
        } else {
            let os: usize = if ms > span_start {
                ms - span_start
            } else {
                0
            };
            let oe: usize = if me < span_end {
                me - span_start
            } else {
                len
            };
            proof {
                assert(last == 0 || span_start + last <= ranges@[t as int].0
                    || ranges@[t as int].1 <= span_start);
                assert(last <= os);
            }
            if os > last {
                let piece = copy_range(chars, last, os);
                let ghost old_r = r@;
                let ghost old_last = last as int;
                r.push(StyledSpan { text: chars_string(&piece), style });
                proof {
                    assert(r@.take(old_r.len() as int) =~= old_r);
                    assert(r@.drop_last() =~= old_r);
                    crate::render::lemma_span_views_push(
                        old_r,
                        r@,
                        chars@.subrange(old_last, os as int),
                        style,
                    );
                    lemma_append_fragment(old_r, r@, chars@, old_last, os as int, style);
                    assert forall|i: int|
                        old_last <= i < os implies !(#[trigger] covered(
                        ranges@,
                        span_start + i,
                    )) by {
                        if covered(ranges@, span_start + i) {
                            let u = choose|u: int|
                                0 <= u < ranges@.len() && (#[trigger] ranges@[u]).0 <= span_start
                                    + i < ranges@[u].1;
                            if u > t as int {
                                lemma_ranges_chain(ranges@, t as int, u);
                            } else if u == t as int {
                                assert(span_start + i < ranges@[u].0);
                            } else {
                                assert(behind_cursor(ranges@, u, span_start as int,
                                span_end as int, old_last, len as int));
                            }
                        }
                    }
                }
                last = os;
            }
            if oe > last {
                let piece = copy_range(chars, last, oe);
                let ghost old_r = r@;
                let ghost old_last = last as int;
                r.push(StyledSpan { text: chars_string(&piece), style: hstyle });
                proof {
                    assert(r@.take(old_r.len() as int) =~= old_r);
                    assert(r@.drop_last() =~= old_r);
                    crate::render::lemma_span_views_push(
                        old_r,
                        r@,
                        chars@.subrange(old_last, oe as int),
                        hstyle,
                    );
                    lemma_append_fragment(old_r, r@, chars@, old_last, oe as int, hstyle);
                    assert forall|i: int|
                        old_last <= i < oe implies #[trigger] covered(ranges@, span_start + i) by {
                        assert(os <= i);
                        assert(ranges@[t as int].0 <= span_start + i < ranges@[t as int].1);
                    }
                }
                last = oe;
            }
            proof {
                assert(span_views(r@) + split_fragments_rec(chars@, style, span_start as int,
                ranges@, hstyle, t as int + 1, last as int) =~= split_fragments_rec(chars@,
                style, span_start as int, ranges@, hstyle, 0, 0)) by {
                    let pre: Seq<(Seq<char>, SpanStyle)> = if os as int > old_cursor {
                        seq![(chars@.subrange(old_cursor, os as int), style)]
                    } else {
                        Seq::empty()
                    };
                    let last1: int = if os as int > old_cursor {
                        os as int
                    } else {
                        old_cursor
                    };
                    let mid: Seq<(Seq<char>, SpanStyle)> = if oe as int > last1 {
                        seq![(chars@.subrange(last1, oe as int), hstyle)]
                    } else {
                        Seq::empty()
                    };
                    assert(split_fragments_rec(chars@, style, span_start as int, ranges@,
                    hstyle, t as int, old_cursor) == pre + mid + split_fragments_rec(chars@,
                    style, span_start as int, ranges@, hstyle, t as int + 1, last as int));
                    assert(span_views(r@) =~= old_views + pre + mid);
                    assert((old_views + pre + mid) + split_fragments_rec(chars@, style,
                    span_start as int, ranges@, hstyle, t as int + 1, last as int)
                        =~= old_views + ((pre + mid) + split_fragments_rec(chars@, style,
                    span_start as int, ranges@, hstyle, t as int + 1, last as int)));
                    assert(pre + mid + split_fragments_rec(chars@, style, span_start as int,
                    ranges@, hstyle, t as int + 1, last as int) =~= (pre + mid)
                        + split_fragments_rec(chars@, style, span_start as int, ranges@, hstyle,
                    t as int + 1, last as int));
                }
                assert forall|u: int|
                    t + 1 <= u < ranges@.len() implies last == 0 || span_start + last <= (
                #[trigger] ranges@[u]).0 || ranges@[u].1 <= span_start by {
                    if last > 0 && oe > old_cursor {
                        if u == t + 1 {
                            assert(ranges@[t as int].1 <= ranges@[u].0);
                        } else {
                            lemma_ranges_chain(ranges@, t as int, u);
                        }
                        assert(span_start + last <= ranges@[t as int].1);
                    } else {
                        assert(last == old_cursor);
                    }
                }
                assert(behind_cursor(ranges@, t as int, span_start as int, span_end as int,
                last as int, len as int)) by {
                    if os == oe {
                        if ms > span_start && me < span_end {
                            assert(ranges@[t as int].0 >= ranges@[t as int].1);
                        } else if ms <= span_start {
                            assert(oe == 0 || me >= span_end);
                            if me < span_end {
                                assert(oe == me - span_start);
                                assert(oe == 0);
                                assert(me <= span_start);
                                assert(false);
                            } else {
                                assert(last as int == len as int || len == 0);
                            }
                        } else {
                            assert(me >= span_end);
                            assert(os == len);
                            assert(last as int == len as int);
                        }
                    } else {
                        assert(last == oe);
                        if me < span_end {
                            assert(ranges@[t as int].1 <= span_start + last);
                        } else {
                            assert(last == len);
                        }
                    }
                }
                assert forall|u: int|
                    0 <= u < t + 1 implies behind_cursor(ranges@, u, span_start as int,
                span_end as int, last as int, len as int) by {
                    if u < t as int {
                        assert(exists|l0: int|
                            l0 <= last as int && #[trigger] behind_cursor(ranges@, u,
                            span_start as int, span_end as int, l0, len as int)) by {
                            assert(behind_cursor(ranges@, u, span_start as int, span_end as int,
                            old_cursor, len as int));
                        }
                        lemma_behind_cursor_monotone(ranges@, u, span_start as int,
                        span_end as int, last as int, len as int);
                    }
                }
            }
        }
        t = t + 1;
    }
    if last < len {
        let piece = copy_range(chars, last, len);
        let ghost old_r = r@;
        let ghost old_last = last as int;
        r.push(StyledSpan { text: chars_string(&piece), style });
        proof {
            assert(r@.take(old_r.len() as int) =~= old_r);
            assert(r@.drop_last() =~= old_r);
            assert(chars@.subrange(old_last, len as int) =~= chars@.skip(old_last));
            crate::render::lemma_span_views_push(old_r, r@, chars@.skip(old_last), style);
            assert(span_views(r@) =~= old_r.map_values(|sp: StyledSpan| (sp.text@, sp.style))
                + seq![(chars@.skip(old_last), style)]);
            assert(span_views(r@) =~= split_fragments_rec(chars@, style, span_start as int,
            ranges@, hstyle, 0, 0)) by {
                assert(split_fragments_rec(chars@, style, span_start as int, ranges@, hstyle,
                ranges@.len() as int, old_last) == seq![(chars@.skip(old_last), style)]);
                assert(span_views(old_r).push((chars@.skip(old_last), style)) =~= span_views(
                    old_r,
                ) + seq![(chars@.skip(old_last), style)]);
            }
            lemma_append_fragment(old_r, r@, chars@, old_last, len as int, style);
            assert forall|i: int|
                old_last <= i < len implies !(#[trigger] covered(ranges@, span_start + i)) by {
                if covered(ranges@, span_start + i) {
                    let u = choose|u: int|
                        0 <= u < ranges@.len() && (#[trigger] ranges@[u]).0 <= span_start + i
                            < ranges@[u].1;
                    assert(behind_cursor(ranges@, u, span_start as int, span_end as int,
                    old_last, len as int));
                }
            }
        }
    }
    proof {
        assert(chars@.take(chars@.len() as int) =~= chars@);
    }
    r
}

/// A range already passed by the fragment cursor can cover no character at
/// or past the cursor: it ends at or before the cursor, or starts past the
/// span, or is empty, or the cursor is already at the span's end.
pub open spec fn behind_cursor(
    ranges: Seq<(usize, usize)>,
    u: int,
    span_start: int,
    span_end: int,
    last: int,
    len: int,
) -> bool {
    ||| ranges[u].1 <= span_start + last
    ||| ranges[u].0 >= span_end
    ||| ranges[u].0 >= ranges[u].1
    ||| last == len
}

/// Moving the cursor forward keeps passed ranges behind it.
proof fn lemma_behind_cursor_monotone(
    ranges: Seq<(usize, usize)>,
    u: int,
    span_start: int,
    span_end: int,
    last: int,
    len: int,
)
    requires
        exists|l0: int|
            l0 <= last && #[trigger] behind_cursor(ranges, u, span_start, span_end, l0, len),
        last <= len,
    ensures
        behind_cursor(ranges, u, span_start, span_end, last, len),
{
    let l0 = choose|l0: int|
        l0 <= last && #[trigger] behind_cursor(ranges, u, span_start, span_end, l0, len);
    if ranges[u].1 <= span_start + l0 {
        assert(ranges[u].1 <= span_start + last);
    } else if l0 == len {
        assert(last == len);
    }
}

/// Appending one nonempty fragment extends/// Appending one nonempty fragment extends the covered prefix of the text
/// and paints exactly that fragment.
proof fn lemma_append_fragment(
    old_r: Seq<StyledSpan>,
    new_r: Seq<StyledSpan>,
    chars: Seq<char>,
    from: int,
    to: int,
    st: SpanStyle,
)
    requires
        0 <= from < to <= chars.len(),
        spans_text(old_r) == chars.take(from),
        new_r.len() == old_r.len() + 1,
        new_r.take(old_r.len() as int) == old_r,
        new_r.last().text@ == chars.subrange(from, to),
        new_r.last().style == st,
    ensures
        spans_text(new_r) == chars.take(to),
        forall|i: int|
            from <= i < to ==> char_style_at(new_r, i) == st,
        forall|i: int|
            0 <= i < from ==> char_style_at(new_r, i) == char_style_at(old_r, i),
{
    assert(new_r.drop_last() =~= old_r);
    assert(spans_text(new_r) == spans_text(old_r) + new_r.last().text@);
    assert(spans_text(new_r) =~= chars.take(to));
    let frag = seq![new_r.last()];
    assert(new_r =~= old_r + frag);
    assert forall|i: int| from <= i < to implies char_style_at(new_r, i) == st by {
        lemma_char_style_at_concat(old_r, frag, i);
        assert(char_style_at(frag, i - from) == st);
    }
    assert forall|i: int| 0 <= i < from implies char_style_at(new_r, i) == char_style_at(
        old_r,
        i,
    ) by {
        lemma_char_style_at_concat(old_r, frag, i);
    }
}

/// Highlight a plain text's matches: the text split into fragments, the
/// pieces inside a match range styled with the given style and the rest
/// plain.
pub fn highlight_line(text: &str, pattern: &Pattern, style: &SpanStyle) -> (r: Vec<StyledSpan>)
    ensures
        spans_text(r@) == text@,
        span_views(r@) == split_fragments_rec(
            text@,
            SpanStyle::plain_spec(),
            0,
            regex_match_ranges(pattern.pat(), text@),
            *style,
            0,
            0,
        ),
        wf_spans(r@),
        forall|i: int|
            0 <= i < text@.len() ==> char_style_at(r@, i) == if covered(
                regex_match_ranges(pattern.pat(), text@),
                i,
            ) {
                *style
            } else {
                SpanStyle::plain_spec()
            },
{
    let chars = str_chars(text);
    let ranges = pattern_find_ranges(pattern, text);
    proof {
        vstd::std_specs::vec::axiom_spec_len(&chars);
    }
    split_span(&chars, SpanStyle::new(), 0, &ranges, *style)
}

/// Overlay search highlighting on one line.
fn overlay_line(line: &Line, pattern: &Pattern) -> (r: Line)
    ensures
        overlay_line_rel(*line, r, pattern.pat()),
{
    let text = line.text();
    let total = text.as_str().unicode_len();
    let ranges = pattern_find_ranges(pattern, text.as_str());
    let hstyle = highlight_style();
    if ranges.len() == 0 {
        return Line {
            number: line.number,
            spans: crate::grep::clone_spans(&line.spans),
            is_match: line.is_match,
            is_context: line.is_context,
        };
    }
    let mut new_spans: Vec<StyledSpan> = Vec::new();
    let mut span_start: usize = 0;
    let mut si: usize = 0;
    let n = line.spans.len();
    proof {
        assert(line.spans@.take(0) =~= Seq::<StyledSpan>::empty());
        assert(spans_text(new_spans@) =~= spans_text(line.spans@.take(0)));
    }
    while si < n
        invariant
            si <= n,
            n == line.spans@.len(),
            total == line.text_spec().len(),
            hstyle == highlight_style_spec(),
            ranges@ == regex_match_ranges(pattern.pat(), line.text_spec()),
            ranges_sorted_disjoint(ranges@),
            forall|k: int| 0 <= k < ranges@.len() ==> (#[trigger] ranges@[k]).0 <= ranges@[k].1,
            span_start == spans_text(line.spans@.take(si as int)).len(),
            span_start <= total,
            spans_text(new_spans@) == spans_text(line.spans@.take(si as int)),
            wf_spans(new_spans@),
            forall|i: int|
                0 <= i < span_start ==> char_style_at(new_spans@, i) == if covered(ranges@, i) {
                    highlight_style_spec()
                } else {
                    char_style_at(line.spans@, i)
                },
        decreases n - si,
    {
        let span = &line.spans[si];
        let chars = str_chars(span.text.as_str());
        let len = chars.len();
        proof {
            lemma_spans_text_take_step(line.spans@, si as int);
            lemma_prefix_len_le(line.spans@, si as int);
            assert(spans_text(line.spans@.take(si + 1)).len() == span_start + len);
        }
        let frags = split_span(&chars, span.style, span_start, &ranges, hstyle);
        let ghost old_new = new_spans@;
        let ghost frag_view = frags@;
        new_spans = append_spans(new_spans, frags);
        proof {
            assert(new_spans@.skip(old_new.len() as int) =~= frag_view);
            assert(spans_text(new_spans@) =~= spans_text(line.spans@.take(si + 1))) by {
                lemma_spans_text_concat(old_new, frag_view);
                assert(new_spans@ =~= old_new + frag_view);
            }
            assert forall|i: int|
                0 <= i < span_start + len implies char_style_at(new_spans@, i) == if covered(
                ranges@,
                i,
            ) {
                highlight_style_spec()
            } else {
                char_style_at(line.spans@, i)
            } by {
                assert(new_spans@ =~= old_new + frag_view);
                lemma_char_style_at_concat(old_new, frag_view, i);
                if i >= span_start {
                    lemma_char_style_within(line.spans@, si as int, i - span_start);
                }
            }
        }
        span_start = span_start + len;
        si = si + 1;
    }
    proof {
        assert(line.spans@.take(n as int) =~= line.spans@);
    }
    if new_spans.len() > 0 {
        let r = Line {
            number: line.number,
            spans: new_spans,
            is_match: line.is_match,
            is_context: line.is_context,
        };
        r
    } else {
        proof {
            assert(spans_text(new_spans@) =~= Seq::<char>::empty());
        }
        Line {
            number: line.number,
            spans: crate::grep::clone_spans(&line.spans),
            is_match: line.is_match,
            is_context: line.is_context,
        }
    }
}

/// The raw text of a concatenation of span lists is the concatenation of
/// their texts.
proof fn lemma_spans_text_concat(a: Seq<StyledSpan>, b: Seq<StyledSpan>)
    ensures
        spans_text(a + b) == spans_text(a) + spans_text(b),
    decreases b.len(),
{
    if b.len() == 0 {
        assert(a + b =~= a);
        assert(spans_text(a) + spans_text(b) =~= spans_text(a));
    } else {
        lemma_spans_text_concat(a, b.drop_last());
        assert((a + b).drop_last() =~= a + b.drop_last());
        assert((a + b).last() == b.last());
        assert(spans_text(a) + spans_text(b) =~= spans_text(a) + spans_text(b.drop_last())
            + b.last().text@);
    }
}

/// A prefix of the spans never carries more text than the whole line.
proof fn lemma_prefix_len_le(spans: Seq<StyledSpan>, si: int)
    requires
        0 <= si < spans.len(),
    ensures
        spans_text(spans.take(si + 1)).len() <= spans_text(spans).len(),
{
    assert(spans =~= spans.take(si + 1) + spans.skip(si + 1));
    lemma_spans_text_concat(spans.take(si + 1), spans.skip(si + 1));
}

/// Concatenate two span vectors.
fn append_spans(a: Vec<StyledSpan>, b: Vec<StyledSpan>) -> (r: Vec<StyledSpan>)
    ensures
        r@ == a@ + b@,
{
    let mut r = a;
    let mut rest = b;
    let ghost bview = rest@;
    let mut i: usize = 0;
    proof {
        assert(r@ =~= a@ + bview.take(0));
    }
    while i < rest.len()
        invariant
            i <= rest@.len(),
            rest@ == bview,
            r@ == a@ + bview.take(i as int),
        decreases rest@.len() - i,
    {
        let s = &rest[i];
        r.push(StyledSpan { text: s.text.clone(), style: s.style });
        proof {
            assert(r@ =~= a@ + bview.take(i + 1));
        }
        i = i + 1;
    }
    proof {
        assert(bview.take(bview.len() as int) =~= bview);
    }
    r
}

/// Apply search highlighting to a document, overlaying the search style on
/// the matched character ranges of every line while preserving the raw text
/// of each line and the styling of everything outside the matches. A line
/// the pattern does not match anywhere, in particular every line under a
/// pattern that matches nowhere, keeps exactly its spans and styles.
pub fn apply_search_highlight(document: &mut Document, pattern: &Pattern)
    ensures
        final(document).lines@.len() == old(document).lines@.len(),
        forall|li: int|
            0 <= li < old(document).lines@.len() ==> overlay_line_rel(
                old(document).lines@[li],
                #[trigger] final(document).lines@[li],
                pattern.pat(),
            ),
        final(document).max_line_width == old(document).max_line_width,
        final(document).source_name == old(document).source_name,
        final(document).encoding == old(document).encoding,
{
    let n = document.lines.len();
    let mut i: usize = 0;
    while i < n
        invariant
            i <= n,
            n == document.lines@.len(),
            n == old(document).lines@.len(),
            document.max_line_width == old(document).max_line_width,
            document.source_name == old(document).source_name,
            document.encoding == old(document).encoding,
            forall|li: int|
                i <= li < n ==> #[trigger] document.lines@[li] == old(document).lines@[li],
            forall|li: int|
                0 <= li < i ==> overlay_line_rel(
                    old(document).lines@[li],
                    #[trigger] document.lines@[li],
                    pattern.pat(),
                ),
        decreases n - i,
    {
        let out = overlay_line(&document.lines[i], pattern);
        document.lines.set(i, out);
        i = i + 1;
    }
}

} // verus!
