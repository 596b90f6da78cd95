//! The viewer state: viewport and scroll math, the wrap-row cache, the
//! search session, and the key-handling state machine.

use vstd::prelude::*;

use crate::cli::WrapMode;
use crate::follow::FollowReader;
use crate::line::Document;
use crate::line::Line;
use crate::overlay::SearchState;
use crate::text::cap_usize;
use crate::text::sat_add;
use crate::theme::ThemeColors;

verus! {

/// What the viewer is doing: normal viewing, or editing a search query.
#[derive(Debug, Clone, PartialEq, Eq)]
pub enum Mode {
    /// Normal viewing mode.
    Normal,
    /// Search mode, holding the query typed so far.
    Search { query: String },
}

/// One display row of the wrap cache: where in the document it comes from,
/// which characters it shows, and how wide it is.
#[derive(Debug, Clone, Copy, PartialEq, Eq, Structural)]
pub struct WrappedLine {
    /// Index of the originating line in the document, 0-based.
    pub line_idx: usize,
    /// The originating line's 1-based number.
    pub line_number: usize,
    /// Whether this is the first row of the originating line.
    pub is_first_row: bool,
    /// Character offset into the originating line where the row starts.
    pub char_offset: usize,
    /// Number of display columns in this row.
    pub display_width: usize,
}

/// The interactive search session: the query typed so far and the case
/// flag.
pub struct InteractiveSearch {
    /// The query typed so far.
    pub query: String,
    /// Whether matching ignores case.
    pub ignore_case: bool,
}

impl InteractiveSearch {
    /// Start a search session with an empty query.
    pub fn new(ignore_case: bool) -> (r: InteractiveSearch)
        ensures
            r.query@ == Seq::<char>::empty(),
            r.ignore_case == ignore_case,
    {
        InteractiveSearch { query: String::new(), ignore_case }
    }

    /// Append a character to the query.
    pub fn push_char(&mut self, c: char)
        ensures
            final(self).query@ == old(self).query@.push(c),
            final(self).ignore_case == old(self).ignore_case,
    {
        let mut chars = crate::text::str_chars(self.query.as_str());
        chars.push(c);
        self.query = crate::text::chars_string(&chars);
    }

    /// Remove the last character of the query, if any.
    pub fn pop_char(&mut self)
        ensures
            final(self).query@ == if old(self).query@.len() > 0 {
                old(self).query@.drop_last()
            } else {
                old(self).query@
            },
            final(self).ignore_case == old(self).ignore_case,
    {
        let mut chars = crate::text::str_chars(self.query.as_str());
        if chars.len() > 0 {
            chars.pop();
        }
        proof {
            if old(self).query@.len() == 0 {
                assert(chars@ =~= old(self).query@);
            }
        }
        self.query = crate::text::chars_string(&chars);
    }

    /// Clear the query.
    pub fn clear(&mut self)
        ensures
            final(self).query@ == Seq::<char>::empty(),
            final(self).ignore_case == old(self).ignore_case,
    {
        self.query = String::new();
    }

    /// Whether the query is empty.
    pub fn is_empty(&self) -> (r: bool)
        ensures
            r == (self.query@.len() == 0),
    {
        self.query.as_str().unicode_len() == 0
    }

    /// Compile the query under the session's case flag; an empty query or a
    /// query that does not compile gives nothing.
    pub fn compile_pattern(&self) -> (r: Option<crate::pattern::Pattern>)
        ensures
            ({
                let flavored = crate::pattern::flavored_pattern_spec(
                    self.query@,
                    self.ignore_case,
                    false,
                    false,
                    false,
                );
                &&& (self.query@.len() == 0 ==> r is None)
                &&& (self.query@.len() > 0 ==> ((r is Some) == crate::pattern::regex_builds(
                    flavored,
                )))
                &&& (r matches Some(p) ==> p.pat() == flavored)
            }),
    {
        if self.query.as_str().unicode_len() == 0 {
            return None;
        }
        let flavored = crate::pattern::build_regex_pattern(
            self.query.as_str(),
            self.ignore_case,
            false,
            false,
            false,
        );
        match crate::pattern::pattern_new(flavored.as_str()) {
            Ok(p) => Some(p),
            Err(_) => None,
        }
    }

    /// Overlay highlighting for the current query on the document; a query
    /// that is empty or does not compile leaves the document alone.
    pub fn apply_highlighting(&self, document: &mut Document)
        ensures
            ({
                let flavored = crate::pattern::flavored_pattern_spec(
                    self.query@,
                    self.ignore_case,
                    false,
                    false,
                    false,
                );
                if self.query@.len() > 0 && crate::pattern::regex_builds(flavored) {
                    &&& final(document).lines@.len() == old(document).lines@.len()
                    &&& (forall|li: int|
                        0 <= li < old(document).lines@.len() ==> crate::overlay::overlay_line_rel(
                            old(document).lines@[li],
                            #[trigger] final(document).lines@[li],
                            flavored,
                        ))
                    &&& final(document).max_line_width == old(document).max_line_width
                    &&& final(document).source_name == old(document).source_name
                    &&& final(document).encoding == old(document).encoding
                } else {
                    *final(document) == *old(document)
                }
            }),
    {
        match self.compile_pattern() {
            Some(pattern) => {
                crate::overlay::apply_search_highlight(document, &pattern);
            },
            None => {},
        }
    }
}

/// How many decimal digits a number prints as.
pub open spec fn digits_spec(n: nat) -> nat
    decreases n,
{
    if n < 10 {
        1
    } else {
        1 + digits_spec(n / 10)
    }
}

/// Powers of ten.
pub open spec fn pow10(k: nat) -> nat
    decreases k,
{
    if k == 0 {
        1
    } else {
        10 * pow10((k - 1) as nat)
    }
}

/// Count the decimal digits of a number.
pub fn count_digits(n: usize) -> (r: usize)
    ensures
        r == digits_spec(n as nat),
        r <= 20,
{
    let mut d: usize = 1;
    let mut m: usize = n;
    proof {
        assert(pow10(0) == 1);
        assert((m as nat) * pow10(0) <= n as nat);
    }
    while m >= 10
        invariant
            1 <= d <= 20,
            digits_spec(n as nat) == (d - 1) + digits_spec(m as nat),
            (m as nat) * pow10((d - 1) as nat) <= n as nat,
        decreases m,
    {
        proof {
            lemma_pow10_pos((d - 1) as nat);
            assert(pow10(d as nat) <= n as nat) by {
                assert(pow10(d as nat) == 10 * pow10((d - 1) as nat));
                assert(10 * pow10((d - 1) as nat) <= (m as nat) * pow10((d - 1) as nat))
                    by (nonlinear_arith)
                    requires
                        m >= 10,
                        pow10((d - 1) as nat) >= 1,
                ;
                lemma_pow10_pos((d - 1) as nat);
            }
            lemma_pow10_big();
            assert(d < 20) by {
                if d >= 20 {
                    lemma_pow10_mono(20, d as nat);
                }
            }
            assert(((m / 10) as nat) * pow10(d as nat) <= n as nat) by {
                assert(((m / 10) as nat) * 10 <= m as nat);
                assert(((m / 10) as nat) * pow10(d as nat) <= (m as nat) * pow10(
                    (d - 1) as nat,
                )) by (nonlinear_arith)
                    requires
                        ((m / 10) as nat) * 10 <= m as nat,
                        pow10(d as nat) == 10 * pow10((d - 1) as nat),
                        pow10((d - 1) as nat) >= 1,
                ;
                lemma_pow10_pos((d - 1) as nat);
            }
        }
        m = m / 10;
        d = d + 1;
    }
    d
}

/// Powers of ten are positive.
proof fn lemma_pow10_pos(k: nat)
    ensures
        pow10(k) >= 1,
    decreases k,
{
    if k > 0 {
        lemma_pow10_pos((k - 1) as nat);
    }
}

/// Powers of ten grow.
proof fn lemma_pow10_mono(a: nat, b: nat)
    requires
        a <= b,
    ensures
        pow10(a) <= pow10(b),
    decreases b - a,
{
    if a < b {
        lemma_pow10_mono(a, (b - 1) as nat);
        lemma_pow10_pos((b - 1) as nat);
    }
}

/// Twenty digits are beyond what a machine word can hold.
proof fn lemma_pow10_big()
    ensures
        pow10(20) > usize::MAX as nat,
{
    reveal_with_fuel(pow10, 21);
    assert(pow10(20) == 100000000000000000000);
}

/// How many display rows a line of a given capped width takes when wrapped
/// at a width: at least one.
pub open spec fn rows_for_width(w: nat, width: nat) -> nat
    recommends
        width >= 1,
{
    if w == 0 {
        1
    } else {
        (((w + width - 1) as int) / (width as int)) as nat
    }
}

/// The total number of wrapped display rows the formula gives a document.
pub open spec fn wrap_total_spec(lines: Seq<Line>, width: nat) -> nat
    decreases lines.len(),
{
    if lines.len() == 0 {
        0
    } else {
        wrap_total_spec(lines.drop_last(), width) + rows_for_width(
            cap_usize(lines.last().width_spec()),
            width,
        )
    }
}

/// The cached maximum width after appending lines: the old maximum grown
/// over each appended line's clamped display width.
pub open spec fn grown_max_width_spec(m: nat, texts: Seq<Seq<char>>) -> nat
    decreases texts.len(),
{
    if texts.len() == 0 {
        m
    } else {
        let rest = grown_max_width_spec(m, texts.drop_last());
        let w = cap_usize(crate::text::str_width(texts.last()));
        if w > rest {
            w
        } else {
            rest
        }
    }
}

/// What one search edit does beyond the query: the pre-search snapshot,
/// the scroll position, and the confirmed search state survive, and the
/// displayed document is the snapshot with the new query's overlay applied
/// from scratch — the snapshot's lines exactly when the query is empty or
/// does not compile.
pub open spec fn search_edit_rel(
    before: App,
    after: App,
    query: Seq<char>,
    ignore_case: bool,
) -> bool {
    let flavored = crate::pattern::flavored_pattern_spec(query, ignore_case, false, false, false);
    &&& after.original_document == before.original_document
    &&& after.scroll_line == before.scroll_line
    &&& after.scroll_col == before.scroll_col
    &&& after.search_state == before.search_state
    &&& (before.original_document is None ==> after.document == before.document)
    &&& (before.original_document matches Some(orig) ==> (if query.len() > 0
        && crate::pattern::regex_builds(flavored) {
        &&& after.document.lines@.len() == orig.lines@.len()
        &&& (forall|li: int|
            0 <= li < orig.lines@.len() ==> crate::overlay::overlay_line_rel(
                orig.lines@[li],
                #[trigger] after.document.lines@[li],
                flavored,
            ))
        &&& after.document.source_name == orig.source_name
        &&& after.document.encoding == orig.encoding
    } else {
        crate::line::doc_view_eq(after.document, orig)
    }))
}

/// Subtraction clamped at zero.
pub open spec fn sat_sub_spec(a: int, b: int) -> int {
    if a > b {
        a - b
    } else {
        0
    }
}

/// The main viewer state.
pub struct App {
    /// The document being viewed.
    pub document: Document,
    /// The pre-search snapshot, for restoring on cancel.
    pub original_document: Option<Document>,
    /// Top visible row, 0-based.
    pub scroll_line: usize,
    /// Leftmost visible column, 0-based; ignored under soft wrap.
    pub scroll_col: usize,
    /// The current mode.
    pub mode: Mode,
    /// Whether the viewer should quit.
    pub should_quit: bool,
    /// Terminal size as (width, height).
    pub terminal_size: (u16, u16),
    /// Whether the line-number gutter is shown.
    pub show_line_numbers: bool,
    /// The search state, if any.
    pub search_state: Option<SearchState>,
    /// The palette.
    pub theme_colors: ThemeColors,
    /// The interactive search session, if one is open.
    pub interactive_search: Option<InteractiveSearch>,
    /// Whether interactive search ignores case.
    pub ignore_case: bool,
    /// Whether follow mode is on.
    pub follow_mode: bool,
    /// The tail reader driving follow mode, if on.
    pub follow_reader: Option<FollowReader>,
    /// The path of the viewed file, if any; follow mode needs it.
    pub file_path: Option<String>,
    /// The wrap mode.
    pub wrap_mode: WrapMode,
    /// Maximum width before truncation.
    pub max_width: usize,
    /// The wrap-row cache; rebuilt lazily after invalidation.
    pub wrapped_lines: Option<Vec<WrappedLine>>,
}

impl App {
    /// The height of the content area: the terminal height less the status
    /// bar row.
    pub open spec fn content_height_spec(self) -> int {
        sat_sub_spec(self.terminal_size.1 as int, 1)
    }

    /// The width of the gutter: zero when hidden, else two more than the
    /// digit count of the line total, at least three.
    pub open spec fn gutter_width_spec(self) -> int {
        if !self.show_line_numbers {
            0
        } else if self.document.lines@.len() == 0 {
            3
        } else {
            digits_spec(self.document.lines@.len() as nat) as int + 2
        }
    }

    /// The width of the content area: the terminal width less the gutter.
    pub open spec fn content_width_spec(self) -> int {
        sat_sub_spec(self.terminal_size.0 as int, self.gutter_width_spec())
    }

    /// The total rows the scroll range is measured against: the line count,
    /// or under soft wrap the formula total over the content width.
    pub open spec fn total_rows_spec(self) -> int {
        if self.wrap_mode is Wrap && self.content_width_spec() > 0 {
            cap_usize(wrap_total_spec(self.document.lines@, self.content_width_spec() as nat))
                as int
        } else {
            self.document.lines@.len() as int
        }
    }

    /// The greatest allowed top row.
    pub open spec fn max_scroll_spec(self) -> int {
        sat_sub_spec(self.total_rows_spec(), self.content_height_spec())
    }

    /// Create a viewer over a document: scroll at the origin, normal mode,
    /// follow off, no snapshot, no wrap cache, and a default terminal size.
    pub fn new(
        document: Document,
        show_line_numbers: bool,
        search_state: Option<SearchState>,
        theme_colors: ThemeColors,
        ignore_case: bool,
        file_path: Option<String>,
        wrap_mode: WrapMode,
        max_width: usize,
    ) -> (r: App)
        ensures
            r.document == document,
            r.original_document is None,
            r.scroll_line == 0,
            r.scroll_col == 0,
            r.mode == Mode::Normal,
            !r.should_quit,
            r.terminal_size == (80u16, 24u16),
            r.show_line_numbers == show_line_numbers,
            r.search_state == search_state,
            r.theme_colors == theme_colors,
            r.interactive_search is None,
            r.ignore_case == ignore_case,
            !r.follow_mode,
            r.follow_reader is None,
            r.file_path == file_path,
            r.wrap_mode == wrap_mode,
            r.max_width == max_width,
            r.wrapped_lines is None,
    {
        App {
            document,
            original_document: None,
            scroll_line: 0,
            scroll_col: 0,
            mode: Mode::Normal,
            should_quit: false,
            terminal_size: (80, 24),
            show_line_numbers,
            search_state,
            theme_colors,
            interactive_search: None,
            ignore_case,
            follow_mode: false,
            follow_reader: None,
            file_path,
            wrap_mode,
            max_width,
            wrapped_lines: None,
        }
    }

    /// Update the terminal size; a size change under a wrapping mode drops
    /// the wrap cache.
    pub fn set_terminal_size(&mut self, width: u16, height: u16)
        ensures
            *final(self) == (App {
                terminal_size: (width, height),
                wrapped_lines: final(self).wrapped_lines,
                ..*old(self)
            }),
            final(self).wrapped_lines == if old(self).terminal_size != (width, height) && !(old(self).wrap_mode is NoWrap) {
                None::<Vec<WrappedLine>>
            } else {
                old(self).wrapped_lines
            },
    {
        let changed = !(self.terminal_size.0 == width && self.terminal_size.1 == height);
        self.terminal_size = (width, height);
        if changed && !matches!(self.wrap_mode, WrapMode::NoWrap) {
            self.wrapped_lines = None;
        }
    }

    /// The content area height.
    pub fn content_height(&self) -> (r: usize)
        ensures
            r == self.content_height_spec(),
    {
        if self.terminal_size.1 >= 1 {
            (self.terminal_size.1 - 1) as usize
        } else {
            0
        }
    }

    /// The gutter width.
    pub fn gutter_width(&self) -> (r: usize)
        ensures
            r == self.gutter_width_spec(),
    {
        if !self.show_line_numbers {
            return 0;
        }
        let max_line = self.document.line_count();
        if max_line == 0 {
            3
        } else {
            let d = count_digits(max_line);
            d + 2
        }
    }

    /// The content area width.
    pub fn content_width(&self) -> (r: usize)
        ensures
            r == self.content_width_spec(),
    {
        let g = self.gutter_width();
        let w = self.terminal_size.0 as usize;
        if w > g {
            w - g
        } else {
            0
        }
    }

    /// The range of visible lines: the top row up to the content height or
    /// the line count, whichever comes first.
    pub fn visible_line_range(&self) -> (r: (usize, usize))
        ensures
            r.0 == self.scroll_line,
            r.1 as int == if self.scroll_line + self.content_height_spec()
                < self.document.lines@.len() {
                self.scroll_line + self.content_height_spec()
            } else {
                self.document.lines@.len() as int
            },
    {
        let start = self.scroll_line;
        let h = self.content_height();
        let n = self.document.line_count();
        let end = if start > n {
            n
        } else {
            if h >= n - start {
                n
            } else {
                start + h
            }
        };
        (start, end)
    }

    /// The total wrapped rows: the line count except under soft wrap, where
    /// each line contributes one row per full content width, at least one.
    pub fn total_wrapped_lines(&self) -> (r: usize)
        ensures
            r as int == if self.wrap_mode is Wrap && self.content_width_spec() > 0 {
                cap_usize(
                    wrap_total_spec(self.document.lines@, self.content_width_spec() as nat),
                ) as int
            } else {
                self.document.lines@.len() as int
            },
    {
        if !matches!(self.wrap_mode, WrapMode::Wrap) {
            return self.document.line_count();
        }
        let width = self.content_width();
        if width == 0 {
            return self.document.line_count();
        }
        let n = self.document.lines.len();
        let mut total: usize = 0;
        let mut i: usize = 0;
        proof {
            assert(self.document.lines@.take(0) =~= Seq::<Line>::empty());
        }
        while i < n
            invariant
                i <= n,
                n == self.document.lines@.len(),
                width as int == self.content_width_spec(),
                width >= 1,
                total as nat == cap_usize(
                    wrap_total_spec(self.document.lines@.take(i as int), width as nat),
                ),
            decreases n - i,
        {
            let w = self.document.lines[i].width();
            let rows: usize = if w == 0 {
                1
            } else {
                if w >= 1 {
                    ((w - 1) / width) + 1
                } else {
                    1
                }
            };
            proof {
                assert(rows as nat == rows_for_width(
                    cap_usize(self.document.lines@[i as int].width_spec()),
                    width as nat,
                )) by {
                    let cw = cap_usize(self.document.lines@[i as int].width_spec());
                    if cw != 0 {
                        assert(((cw + width - 1) as int) / (width as int) == ((cw - 1) as int)
                            / (width as int) + 1) by {
                            vstd::arithmetic::div_mod::lemma_div_plus_one(
                                (cw - 1) as int,
                                width as int,
                            );
                        }
                    }
                }
                assert(self.document.lines@.take(i + 1).drop_last() =~= self.document.lines@.take(
                    i as int,
                ));
                assert(self.document.lines@.take(i + 1).last() == self.document.lines@[i as int]);
                crate::text::lemma_cap_add(
                    wrap_total_spec(self.document.lines@.take(i as int), width as nat),
                    rows_for_width(
                        cap_usize(self.document.lines@[i as int].width_spec()),
                        width as nat,
                    ),
                );
            }
            total = sat_add(total, rows);
            i = i + 1;
        }
        proof {
            assert(self.document.lines@.take(n as int) =~= self.document.lines@);
        }
        total
    }

    /// The greatest allowed top row.
    fn max_scroll(&self) -> (r: usize)
        ensures
            r == self.max_scroll_spec(),
    {
        let total: usize = match self.wrap_mode {
            WrapMode::NoWrap | WrapMode::Truncate => self.document.line_count(),
            WrapMode::Wrap => self.total_wrapped_lines(),
        };
        let h = self.content_height();
        if total > h {
            total - h
        } else {
            0
        }
    }

    /// Scroll down by a number of rows, clamped at the bottom.
    pub fn scroll_down(&mut self, n: usize)
        ensures
            *final(self) == (App { scroll_line: final(self).scroll_line, ..*old(self) }),
            final(self).scroll_line as int == if old(self).scroll_line + n <= old(self).max_scroll_spec() {
                old(self).scroll_line + n
            } else {
                old(self).max_scroll_spec()
            },
            final(self).scroll_line <= old(self).max_scroll_spec(),
    {
        let max_scroll = self.max_scroll();
        let target = sat_add(self.scroll_line, n);
        self.scroll_line = if target < max_scroll {
            target
        } else {
            max_scroll
        };
    }

    /// Scroll up by a number of rows, clamped at the top.
    pub fn scroll_up(&mut self, n: usize)
        ensures
            *final(self) == (App { scroll_line: final(self).scroll_line, ..*old(self) }),
            final(self).scroll_line as int == sat_sub_spec(old(self).scroll_line as int, n as int),
            final(self).scroll_line <= old(self).scroll_line,
    {
        self.scroll_line = if self.scroll_line > n {
            self.scroll_line - n
        } else {
            0
        };
    }

    /// Scroll left by a number of columns; a no-op under soft wrap.
    pub fn scroll_left(&mut self, n: usize)
        ensures
            *final(self) == (App { scroll_col: final(self).scroll_col, ..*old(self) }),
            final(self).scroll_col as int == if old(self).wrap_mode is Wrap {
                old(self).scroll_col as int
            } else {
                sat_sub_spec(old(self).scroll_col as int, n as int)
            },
    {
        if matches!(self.wrap_mode, WrapMode::Wrap) {
            return;
        }
        self.scroll_col = if self.scroll_col > n {
            self.scroll_col - n
        } else {
            0
        };
    }

    /// Scroll right by a number of columns, clamped so the longest line
    /// stays reachable; a no-op under soft wrap.
    pub fn scroll_right(&mut self, n: usize)
        ensures
            *final(self) == (App { scroll_col: final(self).scroll_col, ..*old(self) }),
            final(self).scroll_col as int == if old(self).wrap_mode is Wrap {
                old(self).scroll_col as int
            } else {
                ({
                    let max = sat_sub_spec(
                        old(self).document.max_line_width as int,
                        old(self).content_width_spec(),
                    );
                    if old(self).scroll_col + n <= max {
                        old(self).scroll_col + n
                    } else {
                        max
                    }
                })
            },
    {
        if matches!(self.wrap_mode, WrapMode::Wrap) {
            return;
        }
        let cw = self.content_width();
        let max_scroll = if self.document.max_line_width > cw {
            self.document.max_line_width - cw
        } else {
            0
        };
        let target = sat_add(self.scroll_col, n);
        self.scroll_col = if target < max_scroll {
            target
        } else {
            max_scroll
        };
    }

    /// Jump to the start of the line horizontally; a no-op under soft wrap.
    pub fn scroll_to_line_start(&mut self)
        ensures
            *final(self) == (App { scroll_col: final(self).scroll_col, ..*old(self) }),
            final(self).scroll_col == if old(self).wrap_mode is Wrap {
                old(self).scroll_col
            } else {
                0usize
            },
    {
        if !matches!(self.wrap_mode, WrapMode::Wrap) {
            self.scroll_col = 0;
        }
    }

    /// Jump to the end of the longest line horizontally; a no-op under soft
    /// wrap.
    pub fn scroll_to_line_end(&mut self)
        ensures
            *final(self) == (App { scroll_col: final(self).scroll_col, ..*old(self) }),
            final(self).scroll_col as int == if old(self).wrap_mode is Wrap {
                old(self).scroll_col as int
            } else {
                sat_sub_spec(
                    old(self).document.max_line_width as int,
                    old(self).content_width_spec(),
                )
            },
    {
        if !matches!(self.wrap_mode, WrapMode::Wrap) {
            let cw = self.content_width();
            self.scroll_col = if self.document.max_line_width > cw {
                self.document.max_line_width - cw
            } else {
                0
            };
        }
    }

    /// Jump to the top of the document.
    pub fn go_to_top(&mut self)
        ensures
            *final(self) == (App { scroll_line: 0, ..*old(self) }),
    {
        self.scroll_line = 0;
    }

    /// Jump to the bottom of the document.
    pub fn go_to_bottom(&mut self)
        ensures
            *final(self) == (App { scroll_line: final(self).scroll_line, ..*old(self) }),
            final(self).scroll_line == old(self).max_scroll_spec(),
    {
        self.scroll_line = self.max_scroll();
    }

    /// Scroll down half a page.
    pub fn scroll_half_page_down(&mut self)
        ensures
            *final(self) == (App { scroll_line: final(self).scroll_line, ..*old(self) }),
            final(self).scroll_line as int == ({
                let half = old(self).content_height_spec() / 2;
                if old(self).scroll_line + half <= old(self).max_scroll_spec() {
                    old(self).scroll_line + half
                } else {
                    old(self).max_scroll_spec()
                }
            }),
            final(self).scroll_line <= old(self).max_scroll_spec(),
    {
        let half = self.content_height() / 2;
        self.scroll_down(half);
    }

    /// Scroll up half a page.
    pub fn scroll_half_page_up(&mut self)
        ensures
            *final(self) == (App { scroll_line: final(self).scroll_line, ..*old(self) }),
            final(self).scroll_line as int == sat_sub_spec(
                old(self).scroll_line as int,
                old(self).content_height_spec() / 2,
            ),
    {
        let half = self.content_height() / 2;
        self.scroll_up(half);
    }

    /// The current top line, 1-indexed for the status bar.
    pub fn current_line_display(&self) -> (r: usize)
        requires
            self.scroll_line < usize::MAX,
        ensures
            r == self.scroll_line + 1,
    {
        self.scroll_line + 1
    }

    /// The total line count for the status bar.
    pub fn total_lines(&self) -> (r: usize)
        ensures
            r == self.document.lines@.len(),
    {
        self.document.line_count()
    }

    /// Whether the viewport reaches the end of the document.
    pub fn at_bottom(&self) -> (r: bool)
        ensures
            r == (self.scroll_line + self.content_height_spec() >= self.total_rows_spec()),
    {
        let total: usize = match self.wrap_mode {
            WrapMode::NoWrap | WrapMode::Truncate => self.document.line_count(),
            WrapMode::Wrap => self.total_wrapped_lines(),
        };
        sat_add(self.scroll_line, self.content_height()) >= total
    }

    /// Whether soft wrap is on.
    pub fn is_wrapping(&self) -> (r: bool)
        ensures
            r == (self.wrap_mode is Wrap),
    {
        matches!(self.wrap_mode, WrapMode::Wrap)
    }

    /// Drop the wrap cache; it is rebuilt on demand.
    pub fn invalidate_wrap_cache(&mut self)
        ensures
            *final(self) == (App { wrapped_lines: None, ..*old(self) }),
    {
        self.wrapped_lines = None;
    }

    /// The visible slice of the wrap cache, if one is built.
    pub fn visible_wrapped_range(&self) -> (r: Option<(usize, usize)>)
        ensures
            !(self.wrap_mode is Wrap) ==> r is None,
            self.wrap_mode is Wrap && self.wrapped_lines is None ==> r is None,
            self.wrap_mode is Wrap ==> (self.wrapped_lines matches Some(w) ==> r matches Some(p)
                && p.0 == self.scroll_line && p.1 as int == if self.scroll_line
                + self.content_height_spec() < w@.len() {
                self.scroll_line + self.content_height_spec()
            } else {
                w@.len() as int
            }),
    {
        if !matches!(self.wrap_mode, WrapMode::Wrap) {
            return None;
        }
        match &self.wrapped_lines {
            Some(wrapped) => {
                let start = self.scroll_line;
                let h = self.content_height();
                let n = wrapped.len();
                let end = if start > n {
                    n
                } else {
                    if h >= n - start {
                        n
                    } else {
                        start + h
                    }
                };
                Some((start, end))
            },
            None => None,
        }
    }
}


/// The rows one line wraps into, given the characters still to scan, the
/// current row's start offset and accumulated width, and whether any row
/// has been emitted yet: a row breaks whenever adding the next character
/// would exceed the width and the row holds something; a final row is kept
/// when it holds something or nothing was emitted at all.
pub open spec fn line_rows_rec(
    chars: Seq<char>,
    width: nat,
    i: int,
    row_start: int,
    cur: nat,
    first: bool,
) -> Seq<(int, nat)>
    decreases chars.len() - i,
{
    if i < 0 || i >= chars.len() {
        if cur > 0 || first {
            seq![(row_start, cur)]
        } else {
            Seq::empty()
        }
    } else {
        let cw = crate::text::char_display_width(chars[i]);
        if cur + cw > width && cur > 0 {
            seq![(row_start, cur)] + line_rows_rec(chars, width, i + 1, i, cw, false)
        } else {
            line_rows_rec(chars, width, i + 1, row_start, cur + cw, first)
        }
    }
}

/// The wrapped rows of one line's text.
pub open spec fn line_rows_spec(chars: Seq<char>, width: nat) -> Seq<(int, nat)> {
    line_rows_rec(chars, width, 0, 0, 0, true)
}

/// The cache rows of one document line.
pub open spec fn line_wrapped_rows(idx: int, l: Line, width: nat) -> Seq<WrappedLine> {
    let rows = line_rows_spec(l.text_spec(), width);
    Seq::new(
        rows.len(),
        |k: int|
            WrappedLine {
                line_idx: idx as usize,
                line_number: l.number,
                is_first_row: k == 0,
                char_offset: rows[k].0 as usize,
                display_width: rows[k].1 as usize,
            },
    )
}

/// The whole wrap cache of a document.
pub open spec fn wrap_cache_spec(lines: Seq<Line>, width: nat) -> Seq<WrappedLine>
    decreases lines.len(),
{
    if lines.len() == 0 {
        Seq::empty()
    } else {
        wrap_cache_spec(lines.drop_last(), width) + line_wrapped_rows(
            lines.len() - 1,
            lines.last(),
            width,
        )
    }
}

impl App {
    /// Build the wrap cache: one entry per display row, broken on character
    /// boundaries so no character spans a row boundary. Outside soft wrap,
    /// or with no room for content, the cache is dropped instead.
    pub fn build_wrapped_lines(&mut self)
        ensures
            *final(self) == (App { wrapped_lines: final(self).wrapped_lines, ..*old(self) }),
            !(old(self).wrap_mode is Wrap) || old(self).content_width_spec() == 0 ==> final(self).wrapped_lines is None,
            old(self).wrap_mode is Wrap && old(self).content_width_spec() > 0 ==> (final(self).wrapped_lines matches Some(w) && w@ == wrap_cache_spec(
                old(self).document.lines@,
                old(self).content_width_spec() as nat,
            )),
    {
        if !matches!(self.wrap_mode, WrapMode::Wrap) {
            self.wrapped_lines = None;
            return;
        }
        let width = self.content_width();
        if width == 0 {
            self.wrapped_lines = None;
            return;
        }
        let n = self.document.lines.len();
        let mut cache: Vec<WrappedLine> = Vec::new();
        let mut li: usize = 0;
        proof {
            assert(self.document.lines@.take(0) =~= Seq::<Line>::empty());
            assert(cache@ =~= wrap_cache_spec(self.document.lines@.take(0), width as nat));
        }
        while li < n
            invariant
                li <= n,
                n == self.document.lines@.len(),
                width as int == self.content_width_spec(),
                width >= 1,
                cache@ == wrap_cache_spec(self.document.lines@.take(li as int), width as nat),
            decreases n - li,
        {
            let line = &self.document.lines[li];
            let text = line.text();
            let chars = crate::text::str_chars(text.as_str());
            let m = chars.len();
            let ghost cseq = chars@;
            let number = line.number;
            let ghost cache_before = cache@;
            let mut cur: usize = 0;
            let mut row_start: usize = 0;
            let mut first: bool = true;
            let mut ci: usize = 0;
            let ghost rows_all = line_rows_spec(cseq, width as nat);
            let ghost mut emitted: int = 0;
            proof {
                assert(rows_all == line_rows_rec(cseq, width as nat, 0, 0, 0, true));
                assert(rows_all.take(0) =~= Seq::<(int, nat)>::empty());
                assert(rows_all.take(0) + line_rows_rec(cseq, width as nat, 0, 0, 0, true)
                    =~= rows_all);
                assert(width as int <= self.terminal_size.0 as int);
            }
            while ci < m
                invariant
                    ci <= m,
                    m == cseq.len(),
                    m == chars@.len(),
                    cseq == chars@,
                    li < n == self.document.lines@.len(),
                    cseq == self.document.lines@[li as int].text_spec(),
                    number == self.document.lines@[li as int].number,
                    cache_before == wrap_cache_spec(
                        self.document.lines@.take(li as int),
                        width as nat,
                    ),
                    width >= 1,
                    width <= 65535,
                    cur <= width + 3,
                    row_start <= ci,
                    0 <= emitted,
                    rows_all == line_rows_spec(cseq, width as nat),
                    rows_all.take(emitted) + line_rows_rec(
                        cseq,
                        width as nat,
                        ci as int,
                        row_start as int,
                        cur as nat,
                        first,
                    ) == rows_all,
                    emitted <= rows_all.len(),
                    cache@.len() == cache_before.len() + emitted,
                    cache@.take(cache_before.len() as int) == cache_before,
                    forall|k: int|
                        0 <= k < emitted ==> #[trigger] cache@[cache_before.len() + k]
                            == (WrappedLine {
                            line_idx: li,
                            line_number: number,
                            is_first_row: k == 0,
                            char_offset: rows_all[k].0 as usize,
                            display_width: rows_all[k].1 as usize,
                        }),
                    first <==> emitted == 0,
                decreases m - ci,
            {
                let cw = crate::text::char_width(chars[ci]);
                if cur + cw > width && cur > 0 {
                    let ghost cache_prev = cache@;
                    cache.push(
                        WrappedLine {
                            line_idx: li,
                            line_number: number,
                            is_first_row: first,
                            char_offset: row_start,
                            display_width: cur,
                        },
                    );
                    proof {
                        assert(line_rows_rec(
                            cseq,
                            width as nat,
                            ci as int,
                            row_start as int,
                            cur as nat,
                            first,
                        ) == seq![(row_start as int, cur as nat)] + line_rows_rec(
                            cseq,
                            width as nat,
                            ci as int + 1,
                            ci as int,
                            cw as nat,
                            false,
                        ));
                        assert(rows_all[emitted] == (row_start as int, cur as nat)) by {
                            assert(rows_all.take(emitted + 1) =~= rows_all.take(emitted)
                                + seq![(row_start as int, cur as nat)]);
                        }
                        assert(rows_all.take(emitted + 1) + line_rows_rec(
                            cseq,
                            width as nat,
                            ci as int + 1,
                            ci as int,
                            cw as nat,
                            false,
                        ) =~= rows_all);
                        assert(cache@.take(cache_before.len() as int) =~= cache_prev.take(
                            cache_before.len() as int,
                        ));
                        emitted = emitted + 1;
                    }
                    first = false;
                    row_start = ci;
                    cur = cw;
                } else {
                    proof {
                        assert(line_rows_rec(
                            cseq,
                            width as nat,
                            ci as int,
                            row_start as int,
                            cur as nat,
                            first,
                        ) == line_rows_rec(
                            cseq,
                            width as nat,
                            ci as int + 1,
                            row_start as int,
                            (cur + cw) as nat,
                            first,
                        ));
                    }
                    cur = cur + cw;
                }
                ci = ci + 1;
            }
            let ghost cache_prev = cache@;
            if cur > 0 || first {
                cache.push(
                    WrappedLine {
                        line_idx: li,
                        line_number: number,
                        is_first_row: first,
                        char_offset: row_start,
                        display_width: cur,
                    },
                );
                proof {
                    assert(line_rows_rec(
                        cseq,
                        width as nat,
                        m as int,
                        row_start as int,
                        cur as nat,
                        first,
                    ) =~= seq![(row_start as int, cur as nat)]);
                    assert(rows_all[emitted] == (row_start as int, cur as nat)) by {
                        assert(rows_all.take(emitted + 1) =~= rows_all.take(emitted) + seq![
                            (row_start as int, cur as nat),
                        ]);
                    }
                    assert(emitted + 1 == rows_all.len()) by {
                        assert(rows_all.take(emitted) + seq![(row_start as int, cur as nat)]
                            =~= rows_all);
                    }
                    emitted = emitted + 1;
                    assert(cache@.len() == cache_before.len() + emitted);
                    assert forall|k: int|
                        0 <= k < emitted implies #[trigger] cache@[cache_before.len() + k]
                        == (WrappedLine {
                        line_idx: li,
                        line_number: number,
                        is_first_row: k == 0,
                        char_offset: rows_all[k].0 as usize,
                        display_width: rows_all[k].1 as usize,
                    }) by {
                        if k < emitted - 1 {
                            assert(cache@[cache_before.len() + k] == cache_prev[cache_before.len()
                                + k]);
                        } else {
                            assert(first <==> k == 0);
                        }
                    }
                    assert(cache@.take(cache_before.len() as int) =~= cache_prev.take(
                        cache_before.len() as int,
                    ));
                }
            } else {
                proof {
                    assert(line_rows_rec(
                        cseq,
                        width as nat,
                        m as int,
                        row_start as int,
                        cur as nat,
                        first,
                    ) =~= Seq::<(int, nat)>::empty());
                    assert(rows_all.take(emitted) + Seq::<(int, nat)>::empty() =~= rows_all.take(
                        emitted,
                    ));
                    assert(emitted == rows_all.len()) by {
                        assert(rows_all.take(emitted) =~= rows_all);
                    }
                }
            }
            proof {
                assert(self.document.lines@.take(li + 1).drop_last() =~= self.document.lines@.take(
                    li as int,
                ));
                assert(self.document.lines@.take(li + 1).last() == self.document.lines@[li as int]);
                let target = wrap_cache_spec(self.document.lines@.take(li as int), width as nat)
                    + line_wrapped_rows(li as int, self.document.lines@[li as int], width as nat);
                assert(cseq == self.document.lines@[li as int].text_spec());
                assert(line_rows_spec(self.document.lines@[li as int].text_spec(), width as nat)
                    == rows_all);
                assert(cache@ =~= target) by {
                    assert(cache@.len() == cache_before.len() + rows_all.len());
                    assert forall|k: int| 0 <= k < cache@.len() implies cache@[k] == target[k] by {
                        if k < cache_before.len() {
                            assert(cache@[k] == cache@.take(cache_before.len() as int)[k]);
                            assert(cache@.take(cache_before.len() as int) == cache_before);
                            assert(target[k] == cache_before[k]);
                        } else {
                            let j = k - cache_before.len();
                            assert(cache@[cache_before.len() + j] == (WrappedLine {
                                line_idx: li,
                                line_number: number,
                                is_first_row: j == 0,
                                char_offset: rows_all[j].0 as usize,
                                display_width: rows_all[j].1 as usize,
                            }));
                            assert(target[k] == line_wrapped_rows(
                                li as int,
                                self.document.lines@[li as int],
                                width as nat,
                            )[j]);
                        }
                    }
                }
                assert(cache@ == wrap_cache_spec(self.document.lines@.take(li + 1), width as nat));
            }
            li = li + 1;
        }
        proof {
            assert(self.document.lines@.take(n as int) =~= self.document.lines@);
        }
        self.wrapped_lines = Some(cache);
    }

    /// The wrap cache, built on demand; nothing outside soft wrap.
    pub fn get_wrapped_lines(&mut self) -> (r: Option<&Vec<WrappedLine>>)
        ensures
            !(old(self).wrap_mode is Wrap) ==> r is None && *final(self) == *old(self),
    {
        if !matches!(self.wrap_mode, WrapMode::Wrap) {
            return None;
        }
        if self.wrapped_lines.is_none() {
            self.build_wrapped_lines();
        }
        self.wrapped_lines.as_ref()
    }

    /// Open search mode: snapshot the document, start an empty query, and
    /// switch to search mode.
    pub fn enter_search_mode(&mut self, case_insensitive: bool)
        ensures
            final(self).original_document matches Some(d) && crate::line::doc_view_eq(
                d,
                old(self).document,
            ),
            final(self).interactive_search matches Some(s) && s.query@
                == Seq::<char>::empty() && s.ignore_case == case_insensitive,
            final(self).mode matches Mode::Search { query } && query@ == Seq::<char>::empty(),
            final(self).document == old(self).document,
            final(self).scroll_line == old(self).scroll_line,
            final(self).scroll_col == old(self).scroll_col,
            final(self).search_state == old(self).search_state,
            final(self).should_quit == old(self).should_quit,
            final(self).follow_mode == old(self).follow_mode,
    {
        self.original_document = Some(crate::line::clone_document(&self.document));
        self.interactive_search = Some(InteractiveSearch::new(case_insensitive));
        self.mode = Mode::Search { query: String::new() };
    }

    /// Re-derive the displayed document for the current query: restore the
    /// snapshot, then overlay the query's matches.
    fn apply_incremental_search(&mut self)
        ensures
            *final(self) == (App { document: final(self).document, ..*old(self) }),
            old(self).original_document is None ==> final(self).document == old(self).document,
            old(self).original_document matches Some(orig) ==> (old(self).interactive_search
                matches Some(s) ==> ({
                let flavored = crate::pattern::flavored_pattern_spec(
                    s.query@,
                    s.ignore_case,
                    false,
                    false,
                    false,
                );
                if s.query@.len() > 0 && crate::pattern::regex_builds(flavored) {
                    &&& final(self).document.lines@.len() == orig.lines@.len()
                    &&& (forall|li: int|
                        0 <= li < orig.lines@.len() ==> crate::overlay::overlay_line_rel(
                            orig.lines@[li],
                            #[trigger] final(self).document.lines@[li],
                            flavored,
                        ))
                    &&& final(self).document.source_name == orig.source_name
                    &&& final(self).document.encoding == orig.encoding
                } else {
                    crate::line::doc_view_eq(final(self).document, orig)
                }
            })),
    {
        let has_orig = self.original_document.is_some();
        if has_orig {
            match &self.original_document {
                Some(orig) => {
                    self.document = crate::line::clone_document(orig);
                },
                None => {},
            }
        }
        let ghost mid_doc = self.document;
        match &self.interactive_search {
            Some(search) => {
                if has_orig {
                    let s = InteractiveSearch {
                        query: search.query.clone(),
                        ignore_case: search.ignore_case,
                    };
                    s.apply_highlighting(&mut self.document);
                    proof {
                        let orig = old(self).original_document.unwrap();
                        let sv = old(self).interactive_search.unwrap();
                        let flavored = crate::pattern::flavored_pattern_spec(
                            sv.query@,
                            sv.ignore_case,
                            false,
                            false,
                            false,
                        );
                        if sv.query@.len() > 0 && crate::pattern::regex_builds(flavored) {
                            assert forall|li: int|
                                0 <= li < orig.lines@.len() implies crate::overlay::overlay_line_rel(
                                orig.lines@[li],
                                #[trigger] self.document.lines@[li],
                                flavored,
                            ) by {
                                let mid = mid_doc.lines@[li];
                                assert(crate::line::line_view_eq(mid, orig.lines@[li]));
                                assert(crate::overlay::overlay_line_rel(
                                    mid,
                                    self.document.lines@[li],
                                    flavored,
                                ));
                                crate::overlay::lemma_overlay_rel_view(
                                    mid,
                                    orig.lines@[li],
                                    self.document.lines@[li],
                                    flavored,
                                );
                            }
                        }
                    }
                } else {
                }
            },
            None => {},
        }
    }

    /// Append a character to the search query, then restore the snapshot
    /// and re-apply the overlay for the new query: the snapshot itself and
    /// the rest of the viewer state survive the edit, and each displayed
    /// line is the snapshot line with the new query's matches repainted
    /// (the snapshot unchanged when the query does not compile).
    pub fn search_add_char(&mut self, c: char)
        ensures
            old(self).interactive_search is None ==> *final(self) == *old(self),
            old(self).interactive_search matches Some(s) ==> (final(self).interactive_search
                matches Some(s2) && s2.query@ == s.query@.push(c) && s2.ignore_case
                == s.ignore_case && (final(self).mode matches Mode::Search { query } && query@
                == s.query@.push(c))),
            old(self).interactive_search matches Some(s) ==> search_edit_rel(
                *old(self),
                *final(self),
                s.query@.push(c),
                s.ignore_case,
            ),
            final(self).should_quit == old(self).should_quit,
            final(self).show_line_numbers == old(self).show_line_numbers,
    {
        let present = self.interactive_search.is_some();
        if !present {
            return;
        }
        match &mut self.interactive_search {
            Some(search) => {
                search.push_char(c);
                self.mode = Mode::Search { query: search.query.clone() };
            },
            None => {},
        }
        self.apply_incremental_search();
    }

    /// Remove the last character of the search query, then restore the
    /// snapshot and re-apply the overlay for the shortened query, as
    /// `search_add_char` does for a grown one.
    pub fn search_backspace(&mut self)
        ensures
            old(self).interactive_search is None ==> *final(self) == *old(self),
            old(self).interactive_search matches Some(s) ==> (final(self).interactive_search
                matches Some(s2) && s2.query@ == (if s.query@.len() > 0 {
                s.query@.drop_last()
            } else {
                s.query@
            }) && s2.ignore_case == s.ignore_case && (final(self).mode matches Mode::Search {
                query,
            } && query@ == s2.query@)),
            old(self).interactive_search matches Some(s) ==> search_edit_rel(
                *old(self),
                *final(self),
                if s.query@.len() > 0 {
                    s.query@.drop_last()
                } else {
                    s.query@
                },
                s.ignore_case,
            ),
            final(self).should_quit == old(self).should_quit,
            final(self).show_line_numbers == old(self).show_line_numbers,
    {
        let present = self.interactive_search.is_some();
        if !present {
            return;
        }
        match &mut self.interactive_search {
            Some(search) => {
                search.pop_char();
                self.mode = Mode::Search { query: search.query.clone() };
            },
            None => {},
        }
        self.apply_incremental_search();
    }

    /// Confirm the search: a nonempty query that compiles becomes the
    /// search state with its matches computed over the displayed document;
    /// the snapshot is dropped and the viewer returns to normal mode.
    pub fn confirm_search(&mut self)
        ensures
            final(self).should_quit == old(self).should_quit,
            final(self).show_line_numbers == old(self).show_line_numbers,
            final(self).mode == Mode::Normal,
            final(self).interactive_search is None,
            final(self).original_document is None,
            final(self).document == old(self).document,
            final(self).scroll_line == old(self).scroll_line,
            old(self).interactive_search matches Some(s) ==> ((s.query@.len() > 0
                && crate::pattern::regex_builds(
                crate::pattern::flavored_pattern_spec(
                    s.query@,
                    s.ignore_case,
                    false,
                    false,
                    false,
                ),
            )) ==> (final(self).search_state matches Some(st) && st.pattern.pat()
                == crate::pattern::flavored_pattern_spec(
                s.query@,
                s.ignore_case,
                false,
                false,
                false,
            ) && st.matches@ == crate::overlay::match_positions_spec(
                old(self).document.lines@,
                st.pattern.pat(),
            ) && st.current_match is None)),
    {
        let present = match &self.interactive_search {
            Some(search) => !search.is_empty(),
            None => false,
        };
        if present {
            let pattern_opt = match &self.interactive_search {
                Some(search) => search.compile_pattern(),
                None => None,
            };
            match pattern_opt {
                Some(pattern) => {
                    let mut state = SearchState {
                        pattern,
                        matches: Vec::new(),
                        current_match: None,
                    };
                    state.find_matches(&self.document);
                    self.search_state = Some(state);
                },
                None => {},
            }
        }
        self.mode = Mode::Normal;
        self.interactive_search = None;
        self.original_document = None;
    }

    /// Cancel the search: the snapshot replaces the displayed document and
    /// the viewer returns to normal mode.
    pub fn cancel_search(&mut self)
        ensures
            final(self).should_quit == old(self).should_quit,
            final(self).show_line_numbers == old(self).show_line_numbers,
            final(self).mode == Mode::Normal,
            final(self).interactive_search is None,
            final(self).original_document is None,
            old(self).original_document matches Some(d) ==> final(self).document == d,
            old(self).original_document is None ==> final(self).document == old(self).document,
    {
        match self.original_document.take() {
            Some(original) => {
                self.document = original;
            },
            None => {},
        }
        self.mode = Mode::Normal;
        self.interactive_search = None;
    }

    /// Scroll so the given line sits near the middle of the viewport,
    /// clamped to the document.
    fn scroll_to_line(&mut self, line_idx: usize)
        ensures
            *final(self) == (App { scroll_line: final(self).scroll_line, ..*old(self) }),
            final(self).scroll_line as int == ({
                let target = sat_sub_spec(
                    line_idx as int,
                    old(self).content_height_spec() / 2,
                );
                let max = sat_sub_spec(
                    old(self).document.lines@.len() as int,
                    old(self).content_height_spec(),
                );
                if target < max {
                    target
                } else {
                    max
                }
            }),
    {
        let height = self.content_height();
        let half = height / 2;
        let target = if line_idx > half {
            line_idx - half
        } else {
            0
        };
        let n = self.document.line_count();
        let max_scroll = if n > height {
            n - height
        } else {
            0
        };
        self.scroll_line = if target < max_scroll {
            target
        } else {
            max_scroll
        };
    }

    /// Step to the next match and center it.
    pub fn next_match(&mut self)
        requires
            old(self).search_state matches Some(st) ==> (st.current_match matches Some(i) ==> i
                < usize::MAX),
        ensures
            old(self).search_state is None ==> *final(self) == *old(self),
            final(self).should_quit == old(self).should_quit,
            final(self).mode == old(self).mode,
            final(self).interactive_search == old(self).interactive_search,
            final(self).show_line_numbers == old(self).show_line_numbers,
    {
        let present = self.search_state.is_some();
        if !present {
            return;
        }
        let line_idx_opt = match &mut self.search_state {
            Some(state) => state.next_match(),
            None => None,
        };
        match line_idx_opt {
            Some(line_idx) => {
                self.scroll_to_line(line_idx);
            },
            None => {},
        }
    }

    /// Step to the previous match and center it.
    pub fn prev_match(&mut self)
        ensures
            old(self).search_state is None ==> *final(self) == *old(self),
            final(self).should_quit == old(self).should_quit,
            final(self).mode == old(self).mode,
            final(self).interactive_search == old(self).interactive_search,
            final(self).show_line_numbers == old(self).show_line_numbers,
    {
        let present = self.search_state.is_some();
        if !present {
            return;
        }
        let line_idx_opt = match &mut self.search_state {
            Some(state) => state.prev_match(),
            None => None,
        };
        match line_idx_opt {
            Some(line_idx) => {
                self.scroll_to_line(line_idx);
            },
            None => {},
        }
    }

    /// The current and total match counts for the status bar, when a search
    /// holds matches.
    pub fn search_info(&self) -> (r: Option<(usize, usize)>)
        requires
            self.search_state matches Some(st) ==> (st.current_match matches Some(i) ==> i
                < usize::MAX),
        ensures
            self.search_state is None ==> r is None,
            self.search_state matches Some(st) ==> r == if st.matches@.len() > 0 {
                Some(
                    (
                        match st.current_match {
                            Some(i) => (i + 1) as usize,
                            None => 0usize,
                        },
                        st.matches@.len() as usize,
                    ),
                )
            } else {
                None::<(usize, usize)>
            },
    {
        match &self.search_state {
            Some(state) => {
                let total = state.match_count();
                if total > 0 {
                    let current = match state.current_match_display() {
                        Some(c) => c,
                        None => 0,
                    };
                    Some((current, total))
                } else {
                    None
                }
            },
            None => None,
        }
    }

    /// Turn follow mode on with an opened tail reader and jump to the
    /// bottom.
    pub fn enable_follow(&mut self, reader: FollowReader)
        ensures
            final(self).follow_mode,
            final(self).follow_reader matches Some(rd) && rd == reader,
            final(self).scroll_line == final(self).max_scroll_spec(),
            final(self).document == old(self).document,
            final(self).mode == old(self).mode,
    {
        self.follow_mode = true;
        self.follow_reader = Some(reader);
        self.go_to_bottom();
    }

    /// Turn follow mode off and drop the tail reader.
    pub fn disable_follow(&mut self)
        ensures
            *final(self) == (App {
                follow_mode: false,
                follow_reader: None,
                ..*old(self)
            }),
    {
        self.follow_mode = false;
        self.follow_reader = None;
    }

    /// Append freshly read lines to the document and jump to the bottom.
    /// Earlier lines never change; the new lines take the next sequential
    /// numbers, above every number already present; the cached maximum
    /// width grows to cover exactly the appended lines.
    pub fn append_follow_lines(&mut self, new_lines: &Vec<String>)
        requires
            old(self).document.lines@.len() + new_lines@.len() <= usize::MAX,
        ensures
            final(self).document.max_line_width as nat == grown_max_width_spec(
                old(self).document.max_line_width as nat,
                new_lines@.map_values(|s: String| s@),
            ),
            final(self).document.lines@.len() == old(self).document.lines@.len()
                + new_lines@.len(),
            forall|i: int|
                0 <= i < old(self).document.lines@.len() ==> #[trigger] final(self).document.lines@[i] == old(self).document.lines@[i],
            forall|k: int|
                0 <= k < new_lines@.len() ==> crate::line::plain_line_spec(
                    (old(self).document.lines@.len() + k + 1) as usize,
                    new_lines@[k]@,
                    #[trigger] final(self).document.lines@[old(self).document.lines@.len() + k],
                ),
            final(self).scroll_line == final(self).max_scroll_spec(),
            final(self).document.source_name == old(self).document.source_name,
            final(self).document.encoding == old(self).document.encoding,
            final(self).mode == old(self).mode,
            final(self).follow_mode == old(self).follow_mode,
    {
        let base = self.document.lines.len();
        let m = new_lines.len();
        let mut k: usize = 0;
        while k < m
            invariant
                k <= m,
                m == new_lines@.len(),
                base == old(self).document.lines@.len(),
                base + m <= usize::MAX,
                self.document.lines@.len() == base + k,
                forall|i: int|
                    0 <= i < base ==> #[trigger] self.document.lines@[i] == old(self).document.lines@[i],
                forall|j: int|
                    0 <= j < k ==> crate::line::plain_line_spec(
                        (base + j + 1) as usize,
                        new_lines@[j]@,
                        #[trigger] self.document.lines@[base + j],
                    ),
                self.document.source_name == old(self).document.source_name,
                self.document.encoding == old(self).document.encoding,
                self.mode == old(self).mode,
                self.follow_mode == old(self).follow_mode,
                self.terminal_size == old(self).terminal_size,
                self.wrap_mode == old(self).wrap_mode,
                self.show_line_numbers == old(self).show_line_numbers,
                self.document.max_line_width as nat == grown_max_width_spec(
                    old(self).document.max_line_width as nat,
                    new_lines@.map_values(|s: String| s@).take(k as int),
                ),
            decreases m - k,
        {
            let number = base + k + 1;
            let line = Line::plain(number, new_lines[k].as_str());
            let w = line.width();
            proof {
                let views = new_lines@.map_values(|s: String| s@);
                assert(views.take(k + 1).drop_last() =~= views.take(k as int));
                assert(views.take(k + 1).last() == views[k as int]);
                assert(views[k as int] == new_lines@[k as int]@);
            }
            self.document.lines.push(line);
            if w > self.document.max_line_width {
                self.document.max_line_width = w;
            }
            k = k + 1;
        }
        proof {
            let views = new_lines@.map_values(|s: String| s@);
            assert(views.take(views.len() as int) =~= views);
        }
        self.go_to_bottom();
    }
}

/// A key event, as the viewer's state machine reads it.
#[derive(Debug, Clone, Copy, PartialEq, Eq, Structural)]
pub enum KeyInput {
    /// A printable character.
    Char(char),
    /// A character with the control modifier held.
    Ctrl(char),
    Up,
    Down,
    Left,
    Right,
    PageUp,
    PageDown,
    Home,
    End,
    Enter,
    Backspace,
    Escape,
    /// Any other key.
    Other,
}

/// What the caller must do after a key is handled.
#[derive(Debug, Clone, Copy, PartialEq, Eq, Structural)]
pub enum KeyAction {
    /// Nothing beyond what the state machine already did.
    Nothing,
    /// Leave the viewer.
    Quit,
    /// Open or close the follow session; opening needs the file.
    ToggleFollow,
}

/// Whether a key quits from the given mode: the control-C chord always,
/// and `q` or escape in normal mode.
pub open spec fn quits_spec(mode_normal: bool, key: KeyInput) -> bool {
    ||| key == KeyInput::Ctrl('c')
    ||| (mode_normal && (key == KeyInput::Char('q') || key == KeyInput::Escape))
}

/// Dispatch one key event against the viewer state, following the key
/// table: scrolling, search entry and editing, match navigation, and the
/// gutter and follow toggles. Returns what the caller must do next.
pub fn handle_key(key: KeyInput, app: &mut App) -> (r: KeyAction)
    requires
        old(app).search_state matches Some(st) ==> (st.current_match matches Some(i) ==> i
            < usize::MAX),
    ensures
        (r == KeyAction::Quit) == quits_spec(old(app).mode is Normal, key),
        final(app).should_quit == (old(app).should_quit || r == KeyAction::Quit),
        (r == KeyAction::ToggleFollow) == (!quits_spec(old(app).mode is Normal, key) && old(app).mode is Normal && key == KeyInput::Char('f')),
        old(app).mode is Normal && key == KeyInput::Char('/') ==> ({
            &&& (final(app).mode matches Mode::Search { query } && query@
                == Seq::<char>::empty())
            &&& (final(app).interactive_search matches Some(s) && s.ignore_case)
        }),
        old(app).mode is Normal && key == KeyInput::Char('?') ==> ({
            &&& (final(app).mode matches Mode::Search { query } && query@
                == Seq::<char>::empty())
            &&& (final(app).interactive_search matches Some(s) && !s.ignore_case)
        }),
        !(old(app).mode is Normal) && key == KeyInput::Escape ==> final(app).mode
            == Mode::Normal && final(app).interactive_search is None,
        !(old(app).mode is Normal) && key == KeyInput::Enter ==> final(app).mode == Mode::Normal
            && final(app).interactive_search is None && final(app).original_document is None,
        old(app).mode is Normal && key == KeyInput::Char('#') ==> final(app).show_line_numbers
            == !old(app).show_line_numbers,
        old(app).mode is Normal && (key == KeyInput::Char('j') || key == KeyInput::Down) ==> final(app).scroll_line as int == (if old(app).scroll_line + 1 <= old(app).max_scroll_spec() {
            old(app).scroll_line + 1
        } else {
            old(app).max_scroll_spec()
        }),
        old(app).mode is Normal && (key == KeyInput::Char('k') || key == KeyInput::Up) ==> final(app).scroll_line as int == sat_sub_spec(old(app).scroll_line as int, 1),
        old(app).mode is Normal && (key == KeyInput::Char('h') || key == KeyInput::Left) ==> final(app).scroll_col as int == (if old(app).wrap_mode is Wrap {
            old(app).scroll_col as int
        } else {
            sat_sub_spec(old(app).scroll_col as int, 4)
        }),
        old(app).mode is Normal && (key == KeyInput::Char('l') || key == KeyInput::Right) ==> final(app).scroll_col as int == (if old(app).wrap_mode is Wrap {
            old(app).scroll_col as int
        } else {
            ({
                let max = sat_sub_spec(
                    old(app).document.max_line_width as int,
                    old(app).content_width_spec(),
                );
                if old(app).scroll_col + 4 <= max {
                    old(app).scroll_col + 4
                } else {
                    max
                }
            })
        }),
        old(app).mode is Normal && (key == KeyInput::Char('d') || key == KeyInput::PageDown)
            ==> final(app).scroll_line as int == ({
            let half = old(app).content_height_spec() / 2;
            if old(app).scroll_line + half <= old(app).max_scroll_spec() {
                old(app).scroll_line + half
            } else {
                old(app).max_scroll_spec()
            }
        }),
        old(app).mode is Normal && (key == KeyInput::Char('u') || key == KeyInput::PageUp)
            ==> final(app).scroll_line as int == sat_sub_spec(
            old(app).scroll_line as int,
            old(app).content_height_spec() / 2,
        ),
        old(app).mode is Normal && key == KeyInput::Char('0') ==> final(app).scroll_col == (if old(app).wrap_mode is Wrap {
            old(app).scroll_col
        } else {
            0usize
        }),
        old(app).mode is Normal && key == KeyInput::Char('$') ==> final(app).scroll_col as int
            == (if old(app).wrap_mode is Wrap {
            old(app).scroll_col as int
        } else {
            sat_sub_spec(
                old(app).document.max_line_width as int,
                old(app).content_width_spec(),
            )
        }),
        old(app).mode is Normal && (key == KeyInput::Char('g') || key == KeyInput::Home) ==> final(app).scroll_line == 0,
        old(app).mode is Normal && (key == KeyInput::Char('G') || key == KeyInput::End) ==> final(app).scroll_line == old(app).max_scroll_spec(),
        old(app).mode is Normal && (key == KeyInput::Char('n') || key == KeyInput::Char('N')) ==> (
        old(app).search_state is None ==> *final(app) == *old(app)),
    {
    if key == KeyInput::Ctrl('c') {
        app.should_quit = true;
        return KeyAction::Quit;
    }
    let normal = matches!(app.mode, Mode::Normal);
    if normal {
        match key {
            KeyInput::Char('q') | KeyInput::Escape => {
                app.should_quit = true;
                KeyAction::Quit
            },
            KeyInput::Char('/') => {
                app.enter_search_mode(true);
                KeyAction::Nothing
            },
            KeyInput::Char('?') => {
                app.enter_search_mode(false);
                KeyAction::Nothing
            },
            KeyInput::Char('j') | KeyInput::Down => {
                app.scroll_down(1);
                KeyAction::Nothing
            },
            KeyInput::Char('k') | KeyInput::Up => {
                app.scroll_up(1);
                KeyAction::Nothing
            },
            KeyInput::Char('h') | KeyInput::Left => {
                app.scroll_left(4);
                KeyAction::Nothing
            },
            KeyInput::Char('l') | KeyInput::Right => {
                app.scroll_right(4);
                KeyAction::Nothing
            },
            KeyInput::Char('d') | KeyInput::PageDown => {
                app.scroll_half_page_down();
                KeyAction::Nothing
            },
            KeyInput::Char('u') | KeyInput::PageUp => {
                app.scroll_half_page_up();
                KeyAction::Nothing
            },
            KeyInput::Char('0') => {
                app.scroll_to_line_start();
                KeyAction::Nothing
            },
            KeyInput::Char('$') => {
                app.scroll_to_line_end();
                KeyAction::Nothing
            },
            KeyInput::Char('g') | KeyInput::Home => {
                app.go_to_top();
                KeyAction::Nothing
            },
            KeyInput::Char('G') | KeyInput::End => {
                app.go_to_bottom();
                KeyAction::Nothing
            },
            KeyInput::Char('n') => {
                app.next_match();
                KeyAction::Nothing
            },
            KeyInput::Char('N') => {
                app.prev_match();
                KeyAction::Nothing
            },
            KeyInput::Char('f') => KeyAction::ToggleFollow,
            KeyInput::Char('#') => {
                app.show_line_numbers = !app.show_line_numbers;
                KeyAction::Nothing
            },
            _ => KeyAction::Nothing,
        }
    } else {
        match key {
            KeyInput::Escape => {
                app.cancel_search();
                KeyAction::Nothing
            },
            KeyInput::Enter => {
                app.confirm_search();
                KeyAction::Nothing
            },
            KeyInput::Backspace => {
                app.search_backspace();
                KeyAction::Nothing
            },
            KeyInput::Char(c) => {
                app.search_add_char(c);
                KeyAction::Nothing
            },
            _ => KeyAction::Nothing,
        }
    }
}

/// Every character of the text is at most one column wide.
pub open spec fn narrow_text(s: Seq<char>) -> bool {
    forall|j: int| 0 <= j < s.len() ==> crate::text::str_width(#[trigger] s.subrange(j, j + 1))
        <= 1
}

/// The width of a single character as a one-element slice.
proof fn lemma_single_char_width(s: Seq<char>, j: int)
    requires
        0 <= j < s.len(),
    ensures
        crate::text::str_width(s.subrange(j, j + 1)) == crate::text::char_display_width(s[j]),
{
    let single = s.subrange(j, j + 1);
    assert(single.len() == 1);
    assert(single.drop_last() =~= Seq::<char>::empty());
    assert(crate::text::str_width(Seq::<char>::empty()) == 0);
    assert(single.last() == s[j]);
}

/// The width of a text decomposes at any position.
proof fn lemma_str_width_skip(s: Seq<char>, i: int)
    requires
        0 <= i < s.len(),
    ensures
        crate::text::str_width(s.skip(i)) == crate::text::char_display_width(s[i])
            + crate::text::str_width(s.skip(i + 1)),
{
    assert(s.skip(i) =~= s.subrange(i, i + 1) + s.skip(i + 1));
    crate::text::lemma_str_width_concat(s.subrange(i, i + 1), s.skip(i + 1));
    lemma_single_char_width(s, i);
}

/// How many rows remain from a given scan state, over narrow text: the rows
/// cover the outstanding columns exactly, one width at a time.
proof fn lemma_rows_rec_count(chars: Seq<char>, width: nat, i: int, row_start: int, cur: nat, first: bool)
    requires
        width >= 1,
        0 <= i <= chars.len(),
        cur <= width,
        narrow_text(chars),
    ensures
        line_rows_rec(chars, width, i, row_start, cur, first).len() == ({
            let t = cur + crate::text::str_width(chars.skip(i));
            if t == 0 {
                if first {
                    1int
                } else {
                    0int
                }
            } else {
                (t + width - 1) as int / width as int
            }
        }),
    decreases chars.len() - i,
{
    if i == chars.len() {
        assert(chars.skip(i) =~= Seq::<char>::empty());
        if cur > 0 {
            assert((cur + width - 1) as int / width as int == 1) by {
                vstd::arithmetic::div_mod::lemma_fundamental_div_mod_converse(
                    (cur + width - 1) as int,
                    width as int,
                    1,
                    (cur - 1) as int,
                );
            }
        }
    } else {
        lemma_str_width_skip(chars, i);
        lemma_single_char_width(chars, i);
        let cw = crate::text::char_display_width(chars[i]);
        assert(cw <= 1) by {
            assert(crate::text::str_width(chars.subrange(i, i + 1)) <= 1);
        }
        let t = cur + crate::text::str_width(chars.skip(i));
        if cur + cw > width && cur > 0 {
            assert(cw == 1 && cur == width);
            lemma_rows_rec_count(chars, width, i + 1, i, cw, false);
            let t2 = cw + crate::text::str_width(chars.skip(i + 1));
            assert(t == width + t2);
            assert(t2 >= 1);
            assert((t + width - 1) as int / width as int == 1 + (t2 + width - 1) as int
                / width as int) by {
                vstd::arithmetic::div_mod::lemma_div_plus_one((t2 + width - 1) as int, width as int);
            }
        } else {
            lemma_rows_rec_count(chars, width, i + 1, row_start, cur + cw, first);
        }
    }
}

/// Wrap-cache total for one line: over text whose characters are at most
/// one column wide, the wrap cache holds exactly `max(1, ceil(W / C))` rows
/// for a line of width `W` at content width `C`. (A line holding
/// double-width characters can take more rows, since a character never
/// straddles a row boundary.)
pub proof fn lemma_wrap_rows_formula(chars: Seq<char>, width: nat)
    requires
        width >= 1,
        narrow_text(chars),
    ensures
        line_rows_spec(chars, width).len() == ({
            let w = crate::text::str_width(chars);
            if w == 0 {
                1int
            } else {
                (w + width - 1) as int / width as int
            }
        }),
{
    lemma_rows_rec_count(chars, width, 0, 0, 0, true);
    assert(chars.skip(0) =~= chars);
}

/// Narrow text is at most as wide as it is long.
proof fn lemma_narrow_width_le_len(s: Seq<char>)
    requires
        narrow_text(s),
    ensures
        crate::text::str_width(s) <= s.len(),
    decreases s.len(),
{
    if s.len() > 0 {
        assert(narrow_text(s.drop_last())) by {
            assert forall|j: int|
                0 <= j < s.drop_last().len() implies crate::text::str_width(
                #[trigger] s.drop_last().subrange(j, j + 1),
            ) <= 1 by {
                assert(s.drop_last().subrange(j, j + 1) =~= s.subrange(j, j + 1));
            }
        }
        lemma_narrow_width_le_len(s.drop_last());
        lemma_single_char_width(s, s.len() - 1);
        assert(s.subrange(s.len() - 1, s.len() as int) =~= s.subrange(
            s.len() - 1,
            (s.len() - 1) + 1,
        ));
    }
}

/// Wrap-cache total: over a document whose characters are at most one
/// column wide and whose lines fit a machine word, the wrap cache holds
/// exactly the formula total: the sum over lines of `max(1, ceil(W / C))`.
pub proof fn lemma_wrap_cache_total(lines: Seq<Line>, width: nat)
    requires
        width >= 1,
        forall|i: int|
            0 <= i < lines.len() ==> narrow_text(#[trigger] lines[i].text_spec()),
        forall|i: int|
            0 <= i < lines.len() ==> (#[trigger] lines[i].text_spec()).len() <= usize::MAX,
    ensures
        wrap_cache_spec(lines, width).len() == wrap_total_spec(lines, width),
    decreases lines.len(),
{
    if lines.len() > 0 {
        let rest = lines.drop_last();
        assert forall|i: int|
            0 <= i < rest.len() implies narrow_text(#[trigger] rest[i].text_spec())
            && (#[trigger] rest[i].text_spec()).len() <= usize::MAX by {
            assert(rest[i] == lines[i]);
        }
        lemma_wrap_cache_total(rest, width);
        let l = lines.last();
        lemma_wrap_rows_formula(l.text_spec(), width);
        lemma_narrow_width_le_len(l.text_spec());
        assert(crate::text::cap_usize(l.width_spec()) == l.width_spec());
    }
}

} // verus!
