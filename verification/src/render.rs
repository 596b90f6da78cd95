//! Width-correct rendering math: horizontal clipping with scroll, hard
//! truncation with an indicator, wrapped-row slices, the gutter, and the
//! status bar text.

use vstd::prelude::*;
use vstd::string::StrSliceExecFns;

use crate::cli::WrapMode;
use crate::line::spans_text;
use crate::line::wf_spans;
use crate::line::StyledSpan;
use crate::style::SpanStyle;
use crate::line::Document;
use crate::text::cap_usize;
use crate::text::char_display_width;
use crate::text::char_width;
use crate::text::chars_string;
use crate::ingest::spaces;
use crate::text::str_chars;
use crate::text::str_width;
use crate::viewer::App;
use crate::viewer::Mode;

verus! {

/// Clip a text for horizontal scrolling, walking the columns: characters
/// left of the scroll column vanish, a character straddling it becomes
/// spaces for the columns that stick out, and characters are taken while
/// they fit the width. Returns the output and the columns taken.
pub open spec fn clip_rec(s: Seq<char>, col: int, scroll: int, width: int, taken: int) -> (
    Seq<char>,
    int,
)
    decreases s.len(),
{
    if s.len() == 0 {
        (Seq::empty(), taken)
    } else {
        let cw = char_display_width(s[0]) as int;
        if col >= scroll {
            if taken + cw <= width {
                let (rest, t) = clip_rec(s.skip(1), col + cw, scroll, width, taken + cw);
                (seq![s[0]] + rest, t)
            } else {
                (Seq::empty(), taken)
            }
        } else if col + cw > scroll {
            let overlap = col + cw - scroll;
            let emit = if overlap <= width - taken {
                overlap
            } else {
                if width - taken >= 0 {
                    width - taken
                } else {
                    0
                }
            };
            let (rest, t) = clip_rec(s.skip(1), col + cw, scroll, width, taken + emit);
            (spaces(emit as nat) + rest, t)
        } else {
            clip_rec(s.skip(1), col + cw, scroll, width, taken)
        }
    }
}

/// The clipped text padded with spaces to the full width.
pub open spec fn truncate_scroll_spec(s: Seq<char>, scroll: int, width: int) -> Seq<char> {
    let (clipped, taken) = clip_rec(s, 0, scroll, width, 0);
    if taken < width {
        clipped + spaces((width - taken) as nat)
    } else {
        clipped
    }
}

/// Walk the columns as `clip_state_rec` does from a given state,
/// collecting the output. The column is tracked clamped just past the
/// scroll boundary; the ghost column carries the true value.
fn clip_chars_state(
    chars: &Vec<char>,
    scroll: usize,
    width: usize,
    col0: usize,
    Ghost(colg0): Ghost<int>,
    taken0: usize,
) -> (r: (Vec<char>, usize, usize, Ghost<int>, bool))
    requires
        width <= 65535,
        scroll <= usize::MAX - 3,
        taken0 <= width,
        colg0 >= 0,
        colg0 <= scroll ==> col0 as int == colg0,
        colg0 > scroll ==> col0 > scroll,
        col0 <= scroll + 3,
    ensures
        ({
            let spec = clip_state_rec(chars@, colg0, scroll as int, width as int, taken0 as int);
            &&& r.0@ == spec.0
            &&& r.1 as int == spec.1
            &&& r.3@ == spec.2
            &&& r.4 == spec.3
            &&& r.1 <= width
            &&& r.3@ >= 0
            &&& (r.3@ <= scroll ==> r.2 as int == r.3@)
            &&& (r.3@ > scroll ==> r.2 > scroll)
            &&& r.2 <= scroll + 3
        }),
{
    let n = chars.len();
    let mut out: Vec<char> = Vec::new();
    let mut taken: usize = taken0;
    let mut i: usize = 0;
    let ghost s = chars@;
    let mut col: usize = col0;
    let ghost mut colg: int = colg0;
    let mut broke = false;
    proof {
        assert(s.skip(0) =~= s);
    }
    while i < n
        invariant_except_break
            !broke,
            clip_state_rec(s, colg0, scroll as int, width as int, taken0 as int) == ({
                let rest = clip_state_rec(s.skip(i as int), colg, scroll as int, width as int,
                taken as int);
                (out@ + rest.0, rest.1, rest.2, rest.3)
            }),
        invariant
            i <= n,
            n == s.len(),
            s == chars@,
            width <= 65535,
            scroll <= usize::MAX - 3,
            taken <= width,
            colg >= 0,
            colg <= scroll ==> col as int == colg,
            colg > scroll ==> col > scroll,
            col <= scroll + 3,
        ensures
            taken <= width,
            colg >= 0,
            (colg <= scroll ==> col as int == colg),
            (colg > scroll ==> col > scroll),
            col <= scroll + 3,
            clip_state_rec(s, colg0, scroll as int, width as int, taken0 as int) == (
                out@,
                taken as int,
                colg,
                broke,
            ),
        decreases n - i,
    {
        let c = chars[i];
        let cw = char_width(c);
        proof {
            assert(s.skip(i as int)[0] == s[i as int]);
            assert(s.skip(i as int).skip(1) =~= s.skip(i + 1));
        }
        let ghost out_prev = out@;
        if col >= scroll {
            if taken + cw <= width {
                out.push(c);
                proof {
                    assert(out@ =~= out_prev + seq![s[i as int]]);
                    assert((out@ + clip_state_rec(s.skip(i + 1), colg + cw as int, scroll as int,
                    width as int, taken as int + cw as int).0) =~= (out_prev + (seq![s[i as int]]
                        + clip_state_rec(s.skip(i + 1), colg + cw as int, scroll as int,
                    width as int, taken as int + cw as int).0)));
                }
                taken = taken + cw;
            } else {
                proof {
                    assert(out@ + Seq::<char>::empty() =~= out@);
                }
                broke = true;
                break ;
            }
        } else if col + cw > scroll {
            let overlap = col + cw - scroll;
            let emit = if overlap <= width - taken {
                overlap
            } else {
                width - taken
            };
            let mut j: usize = 0;
            while j < emit
                invariant
                    j <= emit,
                    out@ == out_prev + spaces(j as nat),
                decreases emit - j,
            {
                out.push(' ');
                proof {
                    assert(out@ =~= out_prev + spaces((j + 1) as nat));
                }
                j = j + 1;
            }
            proof {
                assert((out@ + clip_state_rec(s.skip(i + 1), colg + cw as int, scroll as int,
                width as int, taken as int + emit as int).0) =~= (out_prev + (spaces(emit as nat)
                    + clip_state_rec(s.skip(i + 1), colg + cw as int, scroll as int, width as int,
                taken as int + emit as int).0)));
            }
            taken = taken + emit;
        } else {
        }
        proof {
            colg = colg + char_display_width(s[i as int]);
        }
        col = if col <= scroll {
            if col + cw <= scroll + 3 {
                col + cw
            } else {
                scroll + 3
            }
        } else {
            col
        };
        i = i + 1;
        proof {
            if i == n {
                assert(s.skip(n as int) =~= Seq::<char>::empty());
                assert(out@ + Seq::<char>::empty() =~= out@);
            }
        }
    }
    (out, taken, col, Ghost(colg), broke)
}

/// Walk the columns from the start of a line, collecting the output.
fn clip_chars(chars: &Vec<char>, scroll: usize, width: usize) -> (r: (Vec<char>, usize))
    requires
        width <= 65535,
        scroll <= usize::MAX - 3,
    ensures
        (r.0@, r.1 as int) == clip_rec(chars@, 0, scroll as int, width as int, 0),
        r.1 <= width,
{
    let (out, taken, _, _, _) = clip_chars_state(chars, scroll, width, 0, Ghost(0int), 0);
    proof {
        lemma_clip_state_matches(chars@, 0, scroll as int, width as int, 0);
    }
    (out, taken)
}

/// Clip a text for horizontal scrolling and pad it to the width with
/// spaces.
pub fn truncate_with_scroll(text: &str, scroll_col: usize, width: usize) -> (r: String)
    requires
        width <= 65535,
        scroll_col <= usize::MAX - 3,
    ensures
        r@ == truncate_scroll_spec(text@, scroll_col as int, width as int),
{
    let chars = str_chars(text);
    let (mut out, taken) = clip_chars(&chars, scroll_col, width);
    let ghost clipped = out@;
    if taken < width {
        let pad = width - taken;
        let mut j: usize = 0;
        while j < pad
            invariant
                j <= pad,
                out@ == clipped + spaces(j as nat),
            decreases pad - j,
        {
            out.push(' ');
            proof {
                assert(out@ =~= clipped + spaces((j + 1) as nat));
            }
            j = j + 1;
        }
    } else {
        proof {
            assert(out@ =~= clipped);
        }
    }
    chars_string(&out)
}

/// Hard truncation with an indicator: a line that fits the maximum width is
/// clipped normally; a longer line is clipped to one column less, an
/// ellipsis appended, and the result padded to the display width.
pub open spec fn truncate_indicator_spec(
    s: Seq<char>,
    scroll: int,
    max_width: int,
    display_width: int,
) -> Seq<char> {
    if cap_usize(str_width(s)) <= max_width {
        truncate_scroll_spec(s, scroll, display_width)
    } else {
        let eff = if max_width >= 1 {
            max_width - 1
        } else {
            0
        };
        let (clipped, taken) = clip_rec(s, 0, scroll, eff, 0);
        let with_dot = clipped + seq!['\u{2026}'];
        if taken + 1 < display_width {
            with_dot + spaces((display_width - taken - 1) as nat)
        } else {
            with_dot
        }
    }
}

/// Clip to the maximum width with an ellipsis marking the cut, padded to
/// the display width.
pub fn truncate_with_indicator(
    text: &str,
    scroll_col: usize,
    max_width: usize,
    display_width: usize,
) -> (r: String)
    requires
        max_width <= 65535,
        display_width <= 65535,
        scroll_col <= usize::MAX - 3,
    ensures
        r@ == truncate_indicator_spec(
            text@,
            scroll_col as int,
            max_width as int,
            display_width as int,
        ),
{
    let chars = str_chars(text);
    let line_width = crate::text::chars_display_width(&chars);
    if line_width <= max_width {
        return truncate_with_scroll(text, scroll_col, display_width);
    }
    let eff = if max_width >= 1 {
        max_width - 1
    } else {
        0
    };
    let (mut out, taken) = clip_chars(&chars, scroll_col, eff);
    let ghost clipped = out@;
    out.push('\u{2026}');
    proof {
        assert(out@ =~= clipped + seq!['\u{2026}']);
    }
    let ghost with_dot = out@;
    if taken + 1 < display_width {
        let pad = display_width - taken - 1;
        let mut j: usize = 0;
        while j < pad
            invariant
                j <= pad,
                out@ == with_dot + spaces(j as nat),
            decreases pad - j,
        {
            out.push(' ');
            proof {
                assert(out@ =~= with_dot + spaces((j + 1) as nat));
            }
            j = j + 1;
        }
    }
    chars_string(&out)
}

/// The greedy prefix of the characters whose total width stays within the
/// budget.
pub open spec fn take_width_spec(s: Seq<char>, budget: int) -> Seq<char>
    decreases s.len(),
{
    if s.len() == 0 {
        Seq::empty()
    } else {
        let cw = char_display_width(s[0]) as int;
        if cw <= budget {
            seq![s[0]] + take_width_spec(s.skip(1), budget - cw)
        } else {
            Seq::empty()
        }
    }
}

/// Take characters until the next one would exceed the width budget.
pub fn take_chars_until_width(chars: &Vec<char>, width: usize) -> (r: Vec<char>)
    ensures
        r@ == take_width_spec(chars@, width as int),
{
    let n = chars.len();
    let mut out: Vec<char> = Vec::new();
    let mut budget: usize = width;
    let mut i: usize = 0;
    let ghost s = chars@;
    proof {
        assert(s.skip(0) =~= s);
    }
    while i < n
        invariant
            i <= n,
            n == s.len(),
            s == chars@,
            budget <= width,
            take_width_spec(s, width as int) == out@ + take_width_spec(
                s.skip(i as int),
                budget as int,
            ),
        ensures
            take_width_spec(s, width as int) == out@,
        decreases n - i,
    {
        let c = chars[i];
        let cw = char_width(c);
        proof {
            assert(s.skip(i as int)[0] == s[i as int]);
            assert(s.skip(i as int).skip(1) =~= s.skip(i + 1));
        }
        if cw <= budget {
            let ghost out_prev = out@;
            out.push(c);
            proof {
                assert(out@ =~= out_prev + seq![s[i as int]]);
                assert((out@ + take_width_spec(s.skip(i + 1), budget as int - cw as int))
                    =~= (out_prev + (seq![s[i as int]] + take_width_spec(
                    s.skip(i + 1),
                    budget as int - cw as int,
                ))));
            }
            budget = budget - cw;
        } else {
            proof {
                assert(take_width_spec(s.skip(i as int), budget as int)
                    =~= Seq::<char>::empty());
                assert(out@ + Seq::<char>::empty() =~= out@);
            }
            break ;
        }
        i = i + 1;
        proof {
            if i == n {
                assert(s.skip(n as int) =~= Seq::<char>::empty());
                assert(out@ + Seq::<char>::empty() =~= out@);
            }
        }
    }
    out
}

/// The decimal digits of a number, most significant first.
pub open spec fn dec_digits_spec(n: nat) -> Seq<char>
    decreases n,
{
    if n < 10 {
        seq![digit_char_spec(n)]
    } else {
        dec_digits_spec(n / 10).push(digit_char_spec(n % 10))
    }
}

/// The character of one decimal digit.
pub open spec fn digit_char_spec(d: nat) -> char {
    if d == 0 {
        '0'
    } else if d == 1 {
        '1'
    } else if d == 2 {
        '2'
    } else if d == 3 {
        '3'
    } else if d == 4 {
        '4'
    } else if d == 5 {
        '5'
    } else if d == 6 {
        '6'
    } else if d == 7 {
        '7'
    } else if d == 8 {
        '8'
    } else {
        '9'
    }
}

/// The character of one decimal digit.
fn digit_char(d: usize) -> (r: char)
    requires
        d <= 9,
    ensures
        r == digit_char_spec(d as nat),
{
    if d == 0 {
        '0'
    } else if d == 1 {
        '1'
    } else if d == 2 {
        '2'
    } else if d == 3 {
        '3'
    } else if d == 4 {
        '4'
    } else if d == 5 {
        '5'
    } else if d == 6 {
        '6'
    } else if d == 7 {
        '7'
    } else if d == 8 {
        '8'
    } else {
        '9'
    }
}

/// Render a number in decimal.
pub fn usize_to_decimal(n: usize) -> (r: Vec<char>)
    ensures
        r@ == dec_digits_spec(n as nat),
{
    let mut rev: Vec<char> = Vec::new();
    let mut m: usize = n;
    loop
        invariant_except_break
            dec_digits_spec(n as nat) == dec_digits_spec(m as nat) + rev@.reverse(),
        ensures
            dec_digits_spec(n as nat) == rev@.reverse(),
        decreases m,
    {
        let d = m % 10;
        let ghost rev_prev = rev@;
        let ghost mg = m as nat;
        rev.push(digit_char(d));
        proof {
            assert(rev@.reverse() =~= seq![digit_char_spec((mg % 10) as nat)]
                + rev_prev.reverse());
            if mg >= 10 {
                assert(dec_digits_spec(mg) == dec_digits_spec(mg / 10).push(
                    digit_char_spec((mg % 10) as nat),
                ));
                assert(dec_digits_spec(mg / 10) + rev@.reverse() =~= dec_digits_spec(mg)
                    + rev_prev.reverse());
            } else {
                vstd::arithmetic::div_mod::lemma_small_mod(mg, 10);
                assert(dec_digits_spec(mg) =~= seq![digit_char_spec(mg)]);
                assert(rev@.reverse() =~= dec_digits_spec(mg) + rev_prev.reverse());
            }
        }
        m = m / 10;
        if m == 0 {
            break ;
        }
    }
    let n2 = rev.len();
    let mut out: Vec<char> = Vec::new();
    let mut i: usize = n2;
    proof {
        assert(out@ =~= rev@.reverse().take(0));
    }
    while i > 0
        invariant
            i <= n2,
            n2 == rev@.len(),
            dec_digits_spec(n as nat) == rev@.reverse(),
            out@ == rev@.reverse().take((n2 - i) as int),
        decreases i,
    {
        let ghost out_prev = out@;
        out.push(rev[i - 1]);
        proof {
            assert(rev@.reverse()[n2 - i] == rev@[i - 1]);
            assert(out@ =~= rev@.reverse().take((n2 - i + 1) as int));
        }
        i = i - 1;
    }
    proof {
        assert(rev@.reverse().take(n2 as int) =~= rev@.reverse());
    }
    out
}

/// Render an unsigned count in decimal, for list numbering.
pub fn u64_to_decimal(n: u64) -> (r: Vec<char>)
    ensures
        n <= usize::MAX ==> r@ == dec_digits_spec(n as nat),
        n > usize::MAX as u64 ==> r@ == dec_digits_spec(usize::MAX as nat),
{
    let clamped: usize = if n > usize::MAX as u64 {
        usize::MAX
    } else {
        n as usize
    };
    usize_to_decimal(clamped)
}

/// Append a character vector to another.
pub fn push_chars(out: &mut Vec<char>, piece: &Vec<char>)
    ensures
        final(out)@ == old(out)@ + piece@,
{
    let ghost base = out@;
    let mut i: usize = 0;
    while i < piece.len()
        invariant
            i <= piece@.len(),
            out@ == base + piece@.take(i as int),
        decreases piece@.len() - i,
    {
        out.push(piece[i]);
        proof {
            assert(out@ =~= base + piece@.take(i + 1));
        }
        i = i + 1;
    }
    proof {
        assert(piece@.take(piece@.len() as int) =~= piece@);
    }
}

/// Append spaces to a character vector.
pub fn push_spaces(out: &mut Vec<char>, n: usize)
    ensures
        final(out)@ == old(out)@ + spaces(n as nat),
{
    let ghost base = out@;
    let mut i: usize = 0;
    while i < n
        invariant
            i <= n,
            out@ == base + spaces(i as nat),
        decreases n - i,
    {
        out.push(' ');
        proof {
            assert(out@ =~= base + spaces((i + 1) as nat));
        }
        i = i + 1;
    }
}

/// One gutter cell: the line number right-aligned in the gutter width less
/// one, followed by one space.
pub open spec fn gutter_cell_spec(number: nat, gutter_width: int) -> Seq<char> {
    let digits = dec_digits_spec(number);
    let pad = if digits.len() + 1 <= gutter_width {
        gutter_width - 1 - digits.len()
    } else {
        0
    };
    spaces(pad as nat) + digits + seq![' ']
}

/// Render one gutter cell.
pub fn gutter_cell(number: usize, gutter_width: usize) -> (r: String)
    ensures
        r@ == gutter_cell_spec(number as nat, gutter_width as int),
{
    let digits = usize_to_decimal(number);
    let pad = if gutter_width >= 1 && digits.len() <= gutter_width - 1 {
        gutter_width - 1 - digits.len()
    } else {
        0
    };
    let mut out: Vec<char> = Vec::new();
    push_spaces(&mut out, pad);
    push_chars(&mut out, &digits);
    out.push(' ');
    proof {
        assert(out@ =~= gutter_cell_spec(number as nat, gutter_width as int));
    }
    chars_string(&out)
}

/// The lines of the non-pager output: each line's raw text, preceded — when
/// the gutter is on — by its number right-aligned in the digit count of the
/// line total, then one space. No styling reaches this path.
pub open spec fn plain_output_spec(doc: Document, show_line_numbers: bool, gw: int) -> Seq<
    Seq<char>,
> {
    Seq::new(
        doc.lines@.len(),
        |i: int|
            if show_line_numbers {
                gutter_cell_spec(doc.lines@[i].number as nat, gw) + doc.lines@[i].text_spec()
            } else {
                doc.lines@[i].text_spec()
            },
    )
}

/// The number cell width the plain output uses: the digit count of the
/// line total plus the trailing space.
pub open spec fn plain_gutter_width_spec(doc: Document) -> int {
    if doc.lines@.len() == 0 {
        2
    } else {
        crate::viewer::digits_spec(doc.lines@.len() as nat) as int + 1
    }
}

/// Format a document for direct output, one string per line; the caller
/// writes them out.
pub fn render_plain_lines(document: &Document, show_line_numbers: bool) -> (r: Vec<String>)
    ensures
        r@.len() == document.lines@.len(),
        forall|i: int|
            0 <= i < r@.len() ==> (#[trigger] r@[i])@ == plain_output_spec(
                *document,
                show_line_numbers,
                plain_gutter_width_spec(*document),
            )[i],
{
    let n = document.lines.len();
    let gutter_width: usize = if n == 0 {
        2
    } else {
        crate::viewer::count_digits(n) + 1
    };
    let mut r: Vec<String> = Vec::new();
    let mut i: usize = 0;
    while i < n
        invariant
            i <= n,
            n == document.lines@.len(),
            gutter_width as int == plain_gutter_width_spec(*document),
            r@.len() == i,
            forall|k: int|
                0 <= k < i ==> (#[trigger] r@[k])@ == plain_output_spec(
                    *document,
                    show_line_numbers,
                    plain_gutter_width_spec(*document),
                )[k],
        decreases n - i,
    {
        let text = document.lines[i].text();
        if show_line_numbers {
            let mut cell = str_chars(gutter_cell(document.lines[i].number, gutter_width).as_str());
            let body = str_chars(text.as_str());
            push_chars(&mut cell, &body);
            r.push(chars_string(&cell));
        } else {
            r.push(text);
        }
        i = i + 1;
    }
    r
}

/// Join pieces with a separator.
pub open spec fn join_with_spec(items: Seq<Seq<char>>, sep: Seq<char>) -> Seq<char>
    decreases items.len(),
{
    if items.len() == 0 {
        Seq::empty()
    } else if items.len() == 1 {
        items[0]
    } else {
        join_with_spec(items.drop_last(), sep) + sep + items.last()
    }
}

/// The status bar's center section: mode indicators in normal mode, the
/// live query in search mode.
pub open spec fn status_center_spec(app: App) -> Seq<char> {
    match app.mode {
        Mode::Normal => {
            let parts = status_indicator_parts(app);
            if parts.len() == 0 {
                Seq::empty()
            } else {
                seq![' '] + join_with_spec(parts, " | "@) + seq![' ']
            }
        },
        Mode::Search { query } => " [SEARCH: "@ + query@ + "] "@,
    }
}

/// The indicator parts shown in normal mode.
pub open spec fn status_indicator_parts(app: App) -> Seq<Seq<char>> {
    let wrap_part: Seq<Seq<char>> = match app.wrap_mode {
        WrapMode::Wrap => seq!["[WRAP]"@],
        WrapMode::Truncate => seq!["[TRUNC]"@],
        WrapMode::NoWrap => Seq::empty(),
    };
    let follow_part: Seq<Seq<char>> = if app.follow_mode {
        seq!["[FOLLOW]"@]
    } else {
        Seq::empty()
    };
    let match_part: Seq<Seq<char>> = match app.search_state {
        Some(st) => if st.matches@.len() > 0 {
            seq![
                "Match "@ + dec_digits_spec(
                    match st.current_match {
                        Some(i) => (i + 1) as nat,
                        None => 0nat,
                    },
                ) + seq!['/'] + dec_digits_spec(st.matches@.len() as nat),
            ]
        } else {
            Seq::empty()
        },
        None => Seq::empty(),
    };
    wrap_part + follow_part + match_part
}

/// The status bar's left section: the source name and the current position.
pub open spec fn status_left_spec(app: App) -> Seq<char> {
    seq![' '] + app.document.source_name@ + " ("@ + dec_digits_spec(
        (app.scroll_line + 1) as nat,
    ) + seq!['/'] + dec_digits_spec(app.document.lines@.len() as nat) + ") "@
}

/// The status bar's right section: the column position outside soft wrap,
/// and the encoding when it is not plain UTF-8.
pub open spec fn status_right_spec(app: App) -> Seq<char> {
    if app.wrap_mode is Wrap {
        if app.document.encoding@ == "UTF-8"@ {
            Seq::empty()
        } else {
            app.document.encoding@ + seq![' ']
        }
    } else {
        let col = "Col "@ + dec_digits_spec((app.scroll_col + 1) as nat) + seq!['/']
            + dec_digits_spec(app.document.max_line_width as nat);
        if app.document.encoding@ == "UTF-8"@ {
            col + seq![' ']
        } else {
            col + " | "@ + app.document.encoding@ + seq![' ']
        }
    }
}

/// The full status bar text: the three sections packed with equalised space
/// between them, truncated and padded to the terminal width.
pub open spec fn status_bar_spec(app: App) -> Seq<char> {
    let left = status_left_spec(app);
    let center = status_center_spec(app);
    let right = status_right_spec(app);
    let total = app.terminal_size.0 as int;
    let used = left.len() + center.len() + right.len();
    let avail = if total >= used {
        total - used
    } else {
        0
    };
    let lp = avail / 2;
    let rp = avail - lp;
    let packed = left + spaces(lp as nat) + center + spaces(rp as nat) + right;
    let cut = if packed.len() > total {
        packed.take(total)
    } else {
        packed
    };
    if cut.len() < total {
        cut + spaces((total - cut.len()) as nat)
    } else {
        cut
    }
}

/// Join rendered pieces with a separator.
fn join_with(items: &Vec<Vec<char>>, sep: &str) -> (r: Vec<char>)
    ensures
        r@ == join_with_spec(crate::text::views_of(items@), sep@),
{
    let n = items.len();
    let mut out: Vec<char> = Vec::new();
    let mut i: usize = 0;
    proof {
        assert(crate::text::views_of(items@).take(0) =~= Seq::<Seq<char>>::empty());
        assert(out@ =~= join_with_spec(crate::text::views_of(items@).take(0), sep@));
    }
    while i < n
        invariant
            i <= n,
            n == items@.len(),
            out@ == join_with_spec(crate::text::views_of(items@).take(i as int), sep@),
        decreases n - i,
    {
        let ghost parts = crate::text::views_of(items@);
        if i > 0 {
            let sep_chars = str_chars(sep);
            push_chars(&mut out, &sep_chars);
        }
        push_chars(&mut out, &items[i]);
        proof {
            assert(parts.take(i + 1).drop_last() =~= parts.take(i as int));
            assert(parts.take(i + 1).last() == parts[i as int]);
            assert(parts[i as int] == items@[i as int]@);
            if i > 0 {
                assert(out@ =~= join_with_spec(parts.take(i + 1), sep@));
            } else {
                assert(parts.take(1).len() == 1);
                assert(out@ =~= join_with_spec(parts.take(1), sep@));
            }
        }
        i = i + 1;
    }
    proof {
        assert(crate::text::views_of(items@).take(n as int) =~= crate::text::views_of(items@));
    }
    out
}

/// Render the status bar's left section.
fn status_left_text(app: &App) -> (r: Vec<char>)
    requires
        app.scroll_line < usize::MAX,
    ensures
        r@ == status_left_spec(*app),
{
    let mut left: Vec<char> = Vec::new();
    left.push(' ');
    let src = str_chars(app.document.source_name.as_str());
    push_chars(&mut left, &src);
    let paren = str_chars(" (");
    push_chars(&mut left, &paren);
    let cur = usize_to_decimal(app.scroll_line + 1);
    push_chars(&mut left, &cur);
    left.push('/');
    let tot = usize_to_decimal(app.document.line_count());
    push_chars(&mut left, &tot);
    let close = str_chars(") ");
    push_chars(&mut left, &close);
    proof {
        assert(left@ =~= status_left_spec(*app));
    }
    left
}

/// Render the status bar's center section.
#[verifier::rlimit(100)]
fn status_center_text(app: &App) -> (r: Vec<char>)
    requires
        app.search_state matches Some(st) ==> (st.current_match matches Some(i) ==> i
            < usize::MAX),
    ensures
        r@ == status_center_spec(*app),
{
    match &app.mode {
        Mode::Normal => {
            let mut parts: Vec<Vec<char>> = Vec::new();
            let ghost mut expected: Seq<Seq<char>> = Seq::empty();
            proof {
                assert(crate::text::views_of(parts@) =~~= expected);
            }
            match app.wrap_mode {
                WrapMode::Wrap => {
                    let ghost before = parts@;
                    parts.push(str_chars("[WRAP]"));
                    proof {
                        expected = expected.push("[WRAP]"@);
                        assert(crate::text::views_of(parts@) =~~= expected);
                    }
                },
                WrapMode::Truncate => {
                    let ghost before = parts@;
                    parts.push(str_chars("[TRUNC]"));
                    proof {
                        expected = expected.push("[TRUNC]"@);
                        assert(crate::text::views_of(parts@) =~~= expected);
                    }
                },
                WrapMode::NoWrap => {},
            }
            if app.follow_mode {
                parts.push(str_chars("[FOLLOW]"));
                proof {
                    expected = expected.push("[FOLLOW]"@);
                    assert(crate::text::views_of(parts@) =~~= expected);
                }
            }
            match app.search_info() {
                Some((current, total)) => {
                    let mut m = str_chars("Match ");
                    let c = usize_to_decimal(current);
                    push_chars(&mut m, &c);
                    m.push('/');
                    let t = usize_to_decimal(total);
                    push_chars(&mut m, &t);
                    parts.push(m);
                    proof {
                        let stg = app.search_state.unwrap();
                        let cur_spec: nat = match stg.current_match {
                            Some(i) => (i + 1) as nat,
                            None => 0nat,
                        };
                        vstd::std_specs::vec::axiom_spec_len(&stg.matches);
                        assert(current as nat == cur_spec);
                        assert(total as nat == stg.matches@.len());
                        assert(m@ =~= "Match "@ + dec_digits_spec(cur_spec) + seq!['/']
                            + dec_digits_spec(stg.matches@.len() as nat));
                        expected = expected.push(
                            "Match "@ + dec_digits_spec(cur_spec) + seq!['/']
                                + dec_digits_spec(stg.matches@.len() as nat),
                        );
                        assert(crate::text::views_of(parts@) =~~= expected);
                    }
                },
                None => {},
            }
            proof {
                let wp: Seq<Seq<char>> = match app.wrap_mode {
                    WrapMode::Wrap => seq!["[WRAP]"@],
                    WrapMode::Truncate => seq!["[TRUNC]"@],
                    WrapMode::NoWrap => Seq::empty(),
                };
                let fp: Seq<Seq<char>> = if app.follow_mode {
                    seq!["[FOLLOW]"@]
                } else {
                    Seq::empty()
                };
                let mp: Seq<Seq<char>> = if app.search_state is Some {
                    let st = app.search_state.unwrap();
                    if st.matches@.len() > 0 {
                        seq![
                            "Match "@ + dec_digits_spec(
                                match st.current_match {
                                    Some(i) => (i + 1) as nat,
                                    None => 0nat,
                                },
                            ) + seq!['/'] + dec_digits_spec(st.matches@.len() as nat),
                        ]
                    } else {
                        Seq::empty()
                    }
                } else {
                    Seq::empty()
                };
                assert(status_indicator_parts(*app) == wp + fp + mp);
                assert(expected.len() == wp.len() + fp.len() + mp.len());
                assert(expected =~~= wp + fp + mp);
                assert(crate::text::views_of(parts@) =~~= status_indicator_parts(*app));
            }
            if parts.len() == 0 {
                let r: Vec<char> = Vec::new();
                proof {
                    assert(r@ =~= status_center_spec(*app));
                }
                r
            } else {
                let mut c: Vec<char> = Vec::new();
                c.push(' ');
                let joined = join_with(&parts, " | ");
                push_chars(&mut c, &joined);
                c.push(' ');
                proof {
                    assert(c@ =~= status_center_spec(*app));
                }
                c
            }
        },
        Mode::Search { query } => {
            let mut c = str_chars(" [SEARCH: ");
            let q = str_chars(query.as_str());
            push_chars(&mut c, &q);
            let tail = str_chars("] ");
            push_chars(&mut c, &tail);
            proof {
                assert(c@ =~= status_center_spec(*app));
            }
            c
        },
    }
}

/// Render the status bar's right section.
fn status_right_text(app: &App) -> (r: Vec<char>)
    requires
        app.scroll_col < usize::MAX,
    ensures
        r@ == status_right_spec(*app),
{
    let mut right: Vec<char> = Vec::new();
    let enc_utf8 = crate::ingest::str_eq(app.document.encoding.as_str(), "UTF-8");
    if matches!(app.wrap_mode, WrapMode::Wrap) {
        if !enc_utf8 {
            let e = str_chars(app.document.encoding.as_str());
            push_chars(&mut right, &e);
            right.push(' ');
        }
    } else {
        let col = str_chars("Col ");
        push_chars(&mut right, &col);
        let c = usize_to_decimal(app.scroll_col + 1);
        push_chars(&mut right, &c);
        right.push('/');
        let w = usize_to_decimal(app.document.max_line_width);
        push_chars(&mut right, &w);
        if enc_utf8 {
            right.push(' ');
        } else {
            let sep = str_chars(" | ");
            push_chars(&mut right, &sep);
            let e = str_chars(app.document.encoding.as_str());
            push_chars(&mut right, &e);
            right.push(' ');
        }
    }
    proof {
        assert(right@ =~= status_right_spec(*app));
    }
    right
}

/// Render the status bar text for the viewer state.
pub fn status_bar_text(app: &App) -> (r: String)
    requires
        app.scroll_line < usize::MAX,
        app.scroll_col < usize::MAX,
        app.search_state matches Some(st) ==> (st.current_match matches Some(i) ==> i
            < usize::MAX),
    ensures
        r@ == status_bar_spec(*app),
{
    let left = status_left_text(app);
    let center = status_center_text(app);
    let right = status_right_text(app);
    let total = app.terminal_size.0 as usize;
    let used_l = left.len();
    let used_c = center.len();
    let used_r = right.len();
    let avail: usize = if total >= used_l && total - used_l >= used_c && total - used_l - used_c
        >= used_r {
        total - used_l - used_c - used_r
    } else {
        0
    };
    let lp = avail / 2;
    let rp = avail - lp;
    let mut packed: Vec<char> = Vec::new();
    push_chars(&mut packed, &left);
    push_spaces(&mut packed, lp);
    push_chars(&mut packed, &center);
    push_spaces(&mut packed, rp);
    push_chars(&mut packed, &right);
    proof {
        assert(packed@ =~= status_bar_packed(*app));
    }
    let cut: Vec<char> = if packed.len() > total {
        crate::text::copy_range(&packed, 0, total)
    } else {
        packed
    };
    proof {
        assert(cut@ =~= (if status_bar_packed(*app).len() > app.terminal_size.0 as int {
            status_bar_packed(*app).take(app.terminal_size.0 as int)
        } else {
            status_bar_packed(*app)
        }));
    }
    let mut outv = cut;
    if outv.len() < total {
        let pad = total - outv.len();
        push_spaces(&mut outv, pad);
    }
    proof {
        assert(outv@ =~= status_bar_spec(*app));
    }
    chars_string(&outv)
}

/// The packed status line before truncation and padding.
pub open spec fn status_bar_packed(app: App) -> Seq<char> {
    let left = status_left_spec(app);
    let center = status_center_spec(app);
    let right = status_right_spec(app);
    let total = app.terminal_size.0 as int;
    let used = left.len() + center.len() + right.len();
    let avail = if total >= used {
        total - used
    } else {
        0
    };
    let lp = avail / 2;
    let rp = avail - lp;
    left + spaces(lp as nat) + center + spaces(rp as nat) + right
}

/// The clip walk with its continuation state: the output, the columns
/// taken, the column reached, and whether a character failed to fit — after
/// which nothing further is emitted.
pub open spec fn clip_state_rec(s: Seq<char>, col: int, scroll: int, width: int, taken: int) -> (
    Seq<char>,
    int,
    int,
    bool,
)
    decreases s.len(),
{
    if s.len() == 0 {
        (Seq::empty(), taken, col, false)
    } else {
        let cw = char_display_width(s[0]) as int;
        if col >= scroll {
            if taken + cw <= width {
                let r = clip_state_rec(s.skip(1), col + cw, scroll, width, taken + cw);
                (seq![s[0]] + r.0, r.1, r.2, r.3)
            } else {
                (Seq::empty(), taken, col, true)
            }
        } else if col + cw > scroll {
            let overlap = col + cw - scroll;
            let emit = if overlap <= width - taken {
                overlap
            } else {
                if width - taken >= 0 {
                    width - taken
                } else {
                    0
                }
            };
            let r = clip_state_rec(s.skip(1), col + cw, scroll, width, taken + emit);
            (spaces(emit as nat) + r.0, r.1, r.2, r.3)
        } else {
            clip_state_rec(s.skip(1), col + cw, scroll, width, taken)
        }
    }
}

/// The stateful walk emits and takes exactly what the plain walk does.
proof fn lemma_clip_state_matches(s: Seq<char>, col: int, scroll: int, width: int, taken: int)
    ensures
        clip_state_rec(s, col, scroll, width, taken).0 == clip_rec(s, col, scroll, width, taken).0,
        clip_state_rec(s, col, scroll, width, taken).1 == clip_rec(s, col, scroll, width, taken).1,
    decreases s.len(),
{
    if s.len() > 0 {
        let cw = char_display_width(s[0]) as int;
        if col >= scroll {
            if taken + cw <= width {
                lemma_clip_state_matches(s.skip(1), col + cw, scroll, width, taken + cw);
            }
        } else if col + cw > scroll {
            let overlap = col + cw - scroll;
            let emit = if overlap <= width - taken {
                overlap
            } else {
                if width - taken >= 0 {
                    width - taken
                } else {
                    0
                }
            };
            lemma_clip_state_matches(s.skip(1), col + cw, scroll, width, taken + emit);
        } else {
            lemma_clip_state_matches(s.skip(1), col + cw, scroll, width, taken);
        }
    }
}

/// The clip walk over a concatenation: walk the first part, then continue
/// the second from the reached state — unless the first part already
/// stopped, after which the second emits nothing.
proof fn lemma_clip_state_concat(a: Seq<char>, b: Seq<char>, col: int, scroll: int, width: int, taken: int)
    ensures
        clip_state_rec(a + b, col, scroll, width, taken) == ({
            let r1 = clip_state_rec(a, col, scroll, width, taken);
            if r1.3 {
                (r1.0, r1.1, r1.2, true)
            } else {
                let r2 = clip_state_rec(b, r1.2, scroll, width, r1.1);
                (r1.0 + r2.0, r2.1, r2.2, r2.3)
            }
        }),
    decreases a.len(),
{
    if a.len() == 0 {
        assert(a + b =~= b);
        let r2 = clip_state_rec(b, col, scroll, width, taken);
        assert(Seq::<char>::empty() + r2.0 =~= r2.0);
    } else {
        let ab = a + b;
        assert(ab[0] == a[0]);
        assert(ab.skip(1) =~= a.skip(1) + b);
        let cw = char_display_width(a[0]) as int;
        if col >= scroll {
            if taken + cw <= width {
                lemma_clip_state_concat(a.skip(1), b, col + cw, scroll, width, taken + cw);
                let r1t = clip_state_rec(a.skip(1), col + cw, scroll, width, taken + cw);
                if !r1t.3 {
                    let r2 = clip_state_rec(b, r1t.2, scroll, width, r1t.1);
                    assert(seq![a[0]] + (r1t.0 + r2.0) =~= (seq![a[0]] + r1t.0) + r2.0);
                }
            }
        } else if col + cw > scroll {
            let overlap = col + cw - scroll;
            let emit = if overlap <= width - taken {
                overlap
            } else {
                if width - taken >= 0 {
                    width - taken
                } else {
                    0
                }
            };
            lemma_clip_state_concat(a.skip(1), b, col + cw, scroll, width, taken + emit);
            let r1t = clip_state_rec(a.skip(1), col + cw, scroll, width, taken + emit);
            if !r1t.3 {
                let r2 = clip_state_rec(b, r1t.2, scroll, width, r1t.1);
                assert(spaces(emit as nat) + (r1t.0 + r2.0) =~= (spaces(emit as nat) + r1t.0)
                    + r2.0);
            }
        } else {
            lemma_clip_state_concat(a.skip(1), b, col + cw, scroll, width, taken);
        }
    }
}

/// The views of a span list: each span as its text and style.
pub open spec fn span_views(spans: Seq<StyledSpan>) -> Seq<(Seq<char>, SpanStyle)> {
    spans.map_values(|sp: StyledSpan| (sp.text@, sp.style))
}

/// Pushing a span extends the views by its text and style.
pub(crate) proof fn lemma_span_views_push(prev: Seq<StyledSpan>, now: Seq<StyledSpan>, t: Seq<char>, st: SpanStyle)
    requires
        now.len() == prev.len() + 1,
        now.drop_last() == prev,
        now.last().text@ == t,
        now.last().style == st,
    ensures
        span_views(now) == span_views(prev).push((t, st)),
{
    assert forall|j: int| 0 <= j < now.len() implies #[trigger] span_views(now)[j] == span_views(
        prev,
    ).push((t, st))[j] by {
        if j < prev.len() {
            assert(now[j] == now.drop_last()[j]);
        }
    }
    assert(span_views(now) =~= span_views(prev).push((t, st)));
}

/// The concatenated text of span views.
pub open spec fn views_text(vs: Seq<(Seq<char>, SpanStyle)>) -> Seq<char>
    decreases vs.len(),
{
    if vs.len() == 0 {
        Seq::empty()
    } else {
        vs[0].0 + views_text(vs.drop_first())
    }
}

/// A span list's views carry the same text as the list.
proof fn lemma_views_text(spans: Seq<StyledSpan>)
    ensures
        views_text(span_views(spans)) == spans_text(spans),
    decreases spans.len(),
{
    if spans.len() > 0 {
        crate::line::lemma_spans_text_first(spans);
        lemma_views_text(spans.drop_first());
        assert(span_views(spans).drop_first() =~= span_views(spans.drop_first()));
    }
}

/// Clip a span list for horizontal scrolling: each span contributes the
/// fragment the clip walk emits for its characters, kept with the span's
/// style when nonempty; a character that fails to fit ends the whole walk.
pub open spec fn clip_spans_rec(
    vs: Seq<(Seq<char>, SpanStyle)>,
    col: int,
    scroll: int,
    width: int,
    taken: int,
) -> (Seq<(Seq<char>, SpanStyle)>, int)
    decreases vs.len(),
{
    if vs.len() == 0 {
        (Seq::empty(), taken)
    } else {
        let r1 = clip_state_rec(vs[0].0, col, scroll, width, taken);
        let head: Seq<(Seq<char>, SpanStyle)> = if r1.0.len() > 0 {
            seq![(r1.0, vs[0].1)]
        } else {
            Seq::empty()
        };
        if r1.3 {
            (head, r1.1)
        } else {
            let rest = clip_spans_rec(vs.drop_first(), r1.2, scroll, width, r1.1);
            (head + rest.0, rest.1)
        }
    }
}

/// The clipped span fragments carry exactly the clipped text of the whole
/// line, and take the same columns.
proof fn lemma_clip_spans_text(
    vs: Seq<(Seq<char>, SpanStyle)>,
    col: int,
    scroll: int,
    width: int,
    taken: int,
)
    ensures
        views_text(clip_spans_rec(vs, col, scroll, width, taken).0) == clip_state_rec(
            views_text(vs),
            col,
            scroll,
            width,
            taken,
        ).0,
        clip_spans_rec(vs, col, scroll, width, taken).1 == clip_state_rec(
            views_text(vs),
            col,
            scroll,
            width,
            taken,
        ).1,
    decreases vs.len(),
{
    if vs.len() == 0 {
        assert(views_text(vs) =~= Seq::<char>::empty());
    } else {
        lemma_clip_state_concat(vs[0].0, views_text(vs.drop_first()), col, scroll, width, taken);
        let r1 = clip_state_rec(vs[0].0, col, scroll, width, taken);
        if r1.3 {
            if r1.0.len() > 0 {
                assert(views_text(seq![(r1.0, vs[0].1)]) =~= r1.0) by {
                    assert(seq![(r1.0, vs[0].1)].drop_first()
                        =~= Seq::<(Seq<char>, SpanStyle)>::empty());
                    assert(views_text(Seq::<(Seq<char>, SpanStyle)>::empty())
                        == Seq::<char>::empty());
                    assert(r1.0 + Seq::<char>::empty() =~= r1.0);
                }
            } else {
                assert(r1.0 =~= Seq::<char>::empty());
            }
        } else {
            lemma_clip_spans_text(vs.drop_first(), r1.2, scroll, width, r1.1);
            let rest = clip_spans_rec(vs.drop_first(), r1.2, scroll, width, r1.1);
            let head: Seq<(Seq<char>, SpanStyle)> = if r1.0.len() > 0 {
                seq![(r1.0, vs[0].1)]
            } else {
                Seq::empty()
            };
            assert(views_text(head + rest.0) =~= r1.0 + views_text(rest.0)) by {
                if r1.0.len() > 0 {
                    assert((head + rest.0).len() >= 1);
                    assert((head + rest.0)[0] == (r1.0, vs[0].1));
                    assert((head + rest.0).drop_first() =~= rest.0);
                    assert(views_text(head + rest.0) == (head + rest.0)[0].0 + views_text(
                        (head + rest.0).drop_first(),
                    ));
                } else {
                    assert(head + rest.0 =~= rest.0);
                    assert(r1.0 =~= Seq::<char>::empty());
                    assert(r1.0 + views_text(rest.0) =~= views_text(rest.0));
                }
            }
        }
    }
}

/// Clip a span list from the start of the line, without padding: the
/// fragments and the columns taken.
fn clip_spans_core(spans: &Vec<StyledSpan>, scroll_col: usize, width: usize) -> (r: (
    Vec<StyledSpan>,
    usize,
))
    requires
        width <= 65535,
        scroll_col <= usize::MAX - 3,
    ensures
        (span_views(r.0@), r.1 as int) == clip_spans_rec(
            span_views(spans@),
            0,
            scroll_col as int,
            width as int,
            0,
        ),
        r.1 <= width,
        wf_spans(r.0@),
{
    let n = spans.len();
    let ghost vs = span_views(spans@);
    let mut out: Vec<StyledSpan> = Vec::new();
    let mut taken: usize = 0;
    let mut col: usize = 0;
    let ghost mut colg: int = 0;
    let mut i: usize = 0;
    proof {
        assert(vs.skip(0) =~= vs);
        assert(span_views(out@) =~= Seq::<(Seq<char>, SpanStyle)>::empty());
    }
    while i < n
        invariant_except_break
            clip_spans_rec(vs, 0, scroll_col as int, width as int, 0) == ({
                let rest = clip_spans_rec(vs.skip(i as int), colg, scroll_col as int,
                width as int, taken as int);
                (span_views(out@) + rest.0, rest.1)
            }),
        invariant
            i <= n,
            n == spans@.len(),
            vs == span_views(spans@),
            width <= 65535,
            scroll_col <= usize::MAX - 3,
            taken <= width,
            colg >= 0,
            colg <= scroll_col ==> col as int == colg,
            colg > scroll_col ==> col > scroll_col,
            col <= scroll_col + 3,
            wf_spans(out@),
        ensures
            taken <= width,
            wf_spans(out@),
            clip_spans_rec(vs, 0, scroll_col as int, width as int, 0) == (
                span_views(out@),
                taken as int,
            ),
        decreases n - i,
    {
        let chars = str_chars(spans[i].text.as_str());
        proof {
            assert(vs.skip(i as int)[0] == vs[i as int]);
            assert(vs[i as int] == (spans@[i as int].text@, spans@[i as int].style));
            assert(vs.skip(i as int).drop_first() =~= vs.skip(i + 1));
        }
        let (frag, t2, c2, cg2, br) = clip_chars_state(
            &chars,
            scroll_col,
            width,
            col,
            Ghost(colg),
            taken,
        );
        let ghost out_prev = out@;
        if frag.len() > 0 {
            let piece = chars_string(&frag);
            out.push(StyledSpan { text: piece, style: spans[i].style });
            proof {
                assert(out@.drop_last() =~= out_prev);
                lemma_span_views_push(out_prev, out@, frag@, spans@[i as int].style);
                assert forall|k: int| 0 <= k < out@.len() implies (#[trigger] out@[k]).text@.len()
                    > 0 by {
                    if k < out_prev.len() {
                        assert(out@[k] == out_prev[k]);
                        assert(out_prev[k].text@.len() > 0);
                    } else {
                        assert(out@[k].text@ == frag@);
                    }
                }
            }
        } else {
            proof {
                assert(span_views(out@) + Seq::<(Seq<char>, SpanStyle)>::empty()
                    =~= span_views(out@));
            }
        }
        taken = t2;
        col = c2;
        proof {
            colg = cg2@;
            let head: Seq<(Seq<char>, SpanStyle)> = if frag@.len() > 0 {
                seq![(frag@, spans@[i as int].style)]
            } else {
                Seq::empty()
            };
            assert(span_views(out@) =~= span_views(out_prev) + head);
        }
        if br {
            break ;
        }
        proof {
            assert((span_views(out@) + clip_spans_rec(vs.skip(i + 1), colg, scroll_col as int,
            width as int, taken as int).0) =~= (span_views(out_prev) + ((if frag@.len() > 0 {
                seq![(frag@, spans@[i as int].style)]
            } else {
                Seq::<(Seq<char>, SpanStyle)>::empty()
            }) + clip_spans_rec(vs.skip(i + 1), colg, scroll_col as int, width as int,
            taken as int).0)));
        }
        i = i + 1;
        proof {
            if i == n {
                assert(vs.skip(n as int) =~= Seq::<(Seq<char>, SpanStyle)>::empty());
                assert(span_views(out@) + Seq::<(Seq<char>, SpanStyle)>::empty()
                    =~= span_views(out@));
            }
        }
    }
    (out, taken)
}

/// The padded clipped span views.
pub open spec fn clip_spans_padded_spec(
    vs: Seq<(Seq<char>, SpanStyle)>,
    scroll: int,
    width: int,
) -> Seq<(Seq<char>, SpanStyle)> {
    let (frags, taken) = clip_spans_rec(vs, 0, scroll, width, 0);
    if taken < width {
        frags + seq![(spaces((width - taken) as nat), SpanStyle::plain_spec())]
    } else {
        frags
    }
}

/// Clip a span list for horizontal scrolling, re-splitting the spans at the
/// scroll boundary: each span contributes its clipped fragment in its own
/// style, a character straddling the boundary becomes spaces, no character
/// is split, and a final plain span of spaces pads the row to the width.
/// The concatenated text is exactly the clipped text of the whole line.
pub fn clip_spans_with_scroll(spans: &Vec<StyledSpan>, scroll_col: usize, width: usize) -> (r:
    Vec<StyledSpan>)
    requires
        width <= 65535,
        scroll_col <= usize::MAX - 3,
    ensures
        span_views(r@) == clip_spans_padded_spec(
            span_views(spans@),
            scroll_col as int,
            width as int,
        ),
        spans_text(r@) == truncate_scroll_spec(
            spans_text(spans@),
            scroll_col as int,
            width as int,
        ),
        wf_spans(r@),
{
    let (mut out, taken) = clip_spans_core(spans, scroll_col, width);
    let ghost core_views = span_views(out@);
    if taken < width {
        let mut pad: Vec<char> = Vec::new();
        push_spaces(&mut pad, width - taken);
        let ghost out_prev = out@;
        out.push(StyledSpan { text: chars_string(&pad), style: SpanStyle::new() });
        proof {
            assert(pad@ =~= spaces((width - taken) as nat));
            assert(out@.drop_last() =~= out_prev);
            lemma_span_views_push(
                out_prev,
                out@,
                spaces((width - taken) as nat),
                SpanStyle::plain_spec(),
            );
            assert forall|k: int| 0 <= k < out@.len() implies (#[trigger] out@[k]).text@.len()
                > 0 by {
                if k < out_prev.len() {
                    assert(out@[k] == out_prev[k]);
                    assert(out_prev[k].text@.len() > 0);
                } else {
                    assert(out@[k].text@ == pad@);
                    assert(pad@.len() == width - taken);
                }
            }
        }
    }
    proof {
        lemma_clip_spans_padded_text(span_views(spans@), scroll_col as int, width as int);
        lemma_views_text(spans@);
        lemma_views_text(out@);
        assert(span_views(out@) =~= clip_spans_padded_spec(span_views(spans@),
        scroll_col as int, width as int));
    }
    out
}

/// The padded clipped fragments carry exactly the padded clipped text.
proof fn lemma_clip_spans_padded_text(vs: Seq<(Seq<char>, SpanStyle)>, scroll: int, width: int)
    ensures
        views_text(clip_spans_padded_spec(vs, scroll, width)) == truncate_scroll_spec(
            views_text(vs),
            scroll,
            width,
        ),
{
    lemma_clip_spans_text(vs, 0, scroll, width, 0);
    lemma_clip_state_matches(views_text(vs), 0, scroll, width, 0);
    let (frags, taken) = clip_spans_rec(vs, 0, scroll, width, 0);
    if taken < width {
        let padded = frags + seq![(spaces((width - taken) as nat), SpanStyle::plain_spec())];
        lemma_views_text_concat(frags, seq![
            (spaces((width - taken) as nat), SpanStyle::plain_spec()),
        ]);
        assert(views_text(seq![(spaces((width - taken) as nat), SpanStyle::plain_spec())])
            =~= spaces((width - taken) as nat)) by {
            assert(seq![(spaces((width - taken) as nat), SpanStyle::plain_spec())].drop_first()
                =~= Seq::<(Seq<char>, SpanStyle)>::empty());
            assert(views_text(Seq::<(Seq<char>, SpanStyle)>::empty()) == Seq::<char>::empty());
            assert(spaces((width - taken) as nat) + Seq::<char>::empty() =~= spaces(
                (width - taken) as nat,
            ));
        }
    }
}

/// The text of concatenated span views splits at the join.
proof fn lemma_views_text_concat(a: Seq<(Seq<char>, SpanStyle)>, b: Seq<(Seq<char>, SpanStyle)>)
    ensures
        views_text(a + b) == views_text(a) + views_text(b),
    decreases a.len(),
{
    if a.len() == 0 {
        assert(a + b =~= b);
        assert(Seq::<char>::empty() + views_text(b) =~= views_text(b));
    } else {
        assert((a + b)[0] == a[0]);
        assert((a + b).drop_first() =~= a.drop_first() + b);
        lemma_views_text_concat(a.drop_first(), b);
        assert(a[0].0 + (views_text(a.drop_first()) + views_text(b)) =~= (a[0].0 + views_text(
            a.drop_first(),
        )) + views_text(b));
    }
}

/// The truncated-with-indicator span views: the normal padded clip when the
/// line fits the maximum width, else the fragments clipped one column
/// short, a dim ellipsis span, and plain padding to the display width.
pub open spec fn truncate_spans_indicator_spec(
    vs: Seq<(Seq<char>, SpanStyle)>,
    scroll: int,
    max_width: int,
    display_width: int,
) -> Seq<(Seq<char>, SpanStyle)> {
    if cap_usize(str_width(views_text(vs))) <= max_width {
        clip_spans_padded_spec(vs, scroll, display_width)
    } else {
        let eff = if max_width >= 1 {
            max_width - 1
        } else {
            0
        };
        let (frags, taken) = clip_spans_rec(vs, 0, scroll, eff, 0);
        let with_dot = frags + seq![
            (seq!['\u{2026}'], crate::grep::context_dim_style()),
        ];
        if taken + 1 < display_width {
            with_dot + seq![
                (spaces((display_width - taken - 1) as nat), SpanStyle::plain_spec()),
            ]
        } else {
            with_dot
        }
    }
}

/// The total display width of a span list, clamped to `usize`.
fn spans_total_width(spans: &Vec<StyledSpan>) -> (w: usize)
    ensures
        w as nat == cap_usize(str_width(spans_text(spans@))),
{
    let mut w: usize = 0;
    let mut i: usize = 0;
    while i < spans.len()
        invariant
            i <= spans.len(),
            w as nat == cap_usize(crate::line::spans_width(spans@.take(i as int))),
        decreases spans.len() - i,
    {
        let sw = crate::text::str_display_width(spans[i].text.as_str());
        proof {
            assert(spans@.take(i + 1).drop_last() =~= spans@.take(i as int));
            assert(spans@.take(i + 1).last() == spans@[i as int]);
            crate::text::lemma_cap_add(
                crate::line::spans_width(spans@.take(i as int)),
                str_width(spans@[i as int].text@),
            );
        }
        w = crate::text::sat_add(w, sw);
        i = i + 1;
    }
    proof {
        assert(spans@.take(spans@.len() as int) =~= spans@);
        crate::line::lemma_line_width_is_span_width_sum(spans@);
    }
    w
}

/// Hard-truncate a span list with an indicator: a line that fits the
/// maximum width is clipped normally; a longer one is clipped one column
/// short of the maximum, a dim ellipsis marks the cut, and plain spaces pad
/// the row to the display width. The concatenated text is exactly the
/// hard-truncated text of the whole line.
pub fn truncate_spans_with_indicator(
    spans: &Vec<StyledSpan>,
    scroll_col: usize,
    max_width: usize,
    display_width: usize,
) -> (r: Vec<StyledSpan>)
    requires
        max_width <= 65535,
        display_width <= 65535,
        scroll_col <= usize::MAX - 3,
    ensures
        span_views(r@) == truncate_spans_indicator_spec(
            span_views(spans@),
            scroll_col as int,
            max_width as int,
            display_width as int,
        ),
        spans_text(r@) == truncate_indicator_spec(
            spans_text(spans@),
            scroll_col as int,
            max_width as int,
            display_width as int,
        ),
        wf_spans(r@),
{
    let line_width = spans_total_width(spans);
    proof {
        lemma_views_text(spans@);
    }
    if line_width <= max_width {
        let r = clip_spans_with_scroll(spans, scroll_col, display_width);
        return r;
    }
    let eff = if max_width >= 1 {
        max_width - 1
    } else {
        0
    };
    let (mut out, taken) = clip_spans_core(spans, scroll_col, eff);
    let ghost core_views = span_views(out@);
    let ghost out_prev0 = out@;
    out.push(StyledSpan::new("\u{2026}", SpanStyle::new().fg(crate::style::Color::DarkGray)));
    proof {
        reveal_strlit("\u{2026}");
        assert("\u{2026}"@ =~= seq!['\u{2026}']);
        assert(out@.drop_last() =~= out_prev0);
        lemma_span_views_push(
            out_prev0,
            out@,
            seq!['\u{2026}'],
            crate::grep::context_dim_style(),
        );
        assert forall|k: int| 0 <= k < out@.len() implies (#[trigger] out@[k]).text@.len()
            > 0 by {
            if k < out_prev0.len() {
                assert(out@[k] == out_prev0[k]);
                assert(out_prev0[k].text@.len() > 0);
            } else {
                assert(out@[k].text@ == "\u{2026}"@);
            }
        }
    }
    let ghost with_dot_views = span_views(out@);
    if taken + 1 < display_width {
        let mut pad: Vec<char> = Vec::new();
        push_spaces(&mut pad, display_width - taken - 1);
        let ghost out_prev = out@;
        out.push(StyledSpan { text: chars_string(&pad), style: SpanStyle::new() });
        proof {
            assert(pad@ =~= spaces((display_width - taken - 1) as nat));
            assert(out@.drop_last() =~= out_prev);
            lemma_span_views_push(
                out_prev,
                out@,
                spaces((display_width - taken - 1) as nat),
                SpanStyle::plain_spec(),
            );
            assert forall|k: int| 0 <= k < out@.len() implies (#[trigger] out@[k]).text@.len()
                > 0 by {
                if k < out_prev.len() {
                    assert(out@[k] == out_prev[k]);
                    assert(out_prev[k].text@.len() > 0);
                } else {
                    assert(out@[k].text@ == pad@);
                    assert(pad@.len() == display_width - taken - 1);
                }
            }
        }
    }
    proof {
        let vs = span_views(spans@);
        assert(span_views(out@) =~= truncate_spans_indicator_spec(vs, scroll_col as int,
        max_width as int, display_width as int));
        lemma_truncate_spans_indicator_text(vs, scroll_col as int, max_width as int,
        display_width as int);
        lemma_views_text(out@);
    }
    out
}

/// The truncated span views carry exactly the hard-truncated text.
proof fn lemma_truncate_spans_indicator_text(
    vs: Seq<(Seq<char>, SpanStyle)>,
    scroll: int,
    max_width: int,
    display_width: int,
)
    ensures
        views_text(truncate_spans_indicator_spec(vs, scroll, max_width, display_width))
            == truncate_indicator_spec(views_text(vs), scroll, max_width, display_width),
{
    if cap_usize(str_width(views_text(vs))) <= max_width {
        lemma_clip_spans_padded_text(vs, scroll, display_width);
    } else {
        let eff = if max_width >= 1 {
            max_width - 1
        } else {
            0
        };
        lemma_clip_spans_text(vs, 0, scroll, eff, 0);
        lemma_clip_state_matches(views_text(vs), 0, scroll, eff, 0);
        let (frags, taken) = clip_spans_rec(vs, 0, scroll, eff, 0);
        let dot: Seq<(Seq<char>, SpanStyle)> = seq![
            (seq!['\u{2026}'], crate::grep::context_dim_style()),
        ];
        lemma_views_text_concat(frags, dot);
        assert(views_text(dot) =~= seq!['\u{2026}']) by {
            assert(dot.drop_first() =~= Seq::<(Seq<char>, SpanStyle)>::empty());
            assert(views_text(Seq::<(Seq<char>, SpanStyle)>::empty()) == Seq::<char>::empty());
            assert(seq!['\u{2026}'] + Seq::<char>::empty() =~= seq!['\u{2026}']);
        }
        if taken + 1 < display_width {
            let padseq: Seq<(Seq<char>, SpanStyle)> = seq![
                (spaces((display_width - taken - 1) as nat), SpanStyle::plain_spec()),
            ];
            lemma_views_text_concat(frags + dot, padseq);
            assert(views_text(padseq) =~= spaces((display_width - taken - 1) as nat)) by {
                assert(padseq.drop_first() =~= Seq::<(Seq<char>, SpanStyle)>::empty());
                assert(views_text(Seq::<(Seq<char>, SpanStyle)>::empty())
                    == Seq::<char>::empty());
                assert(spaces((display_width - taken - 1) as nat) + Seq::<char>::empty()
                    =~= spaces((display_width - taken - 1) as nat));
            }
            assert(views_text(frags + dot + padseq) =~= (views_text(frags) + seq!['\u{2026}'])
                + spaces((display_width - taken - 1) as nat));
        }
    }
}

/// The take walk with its continuation state: the output, the remaining
/// column budget, and whether a character failed to fit.
pub open spec fn take_state_rec(s: Seq<char>, budget: int) -> (Seq<char>, int, bool)
    decreases s.len(),
{
    if s.len() == 0 {
        (Seq::empty(), budget, false)
    } else {
        let cw = char_display_width(s[0]) as int;
        if cw <= budget {
            let r = take_state_rec(s.skip(1), budget - cw);
            (seq![s[0]] + r.0, r.1, r.2)
        } else {
            (Seq::empty(), budget, true)
        }
    }
}

/// The stateful take walk emits what the plain take does.
proof fn lemma_take_state_matches(s: Seq<char>, budget: int)
    ensures
        take_state_rec(s, budget).0 == take_width_spec(s, budget),
    decreases s.len(),
{
    if s.len() > 0 {
        let cw = char_display_width(s[0]) as int;
        if cw <= budget {
            lemma_take_state_matches(s.skip(1), budget - cw);
        }
    }
}

/// The take walk over a concatenation: walk the first part, then continue
/// the second on the remaining budget — unless the first part already
/// stopped.
proof fn lemma_take_state_concat(a: Seq<char>, b: Seq<char>, budget: int)
    ensures
        take_state_rec(a + b, budget) == ({
            let r1 = take_state_rec(a, budget);
            if r1.2 {
                (r1.0, r1.1, true)
            } else {
                let r2 = take_state_rec(b, r1.1);
                (r1.0 + r2.0, r2.1, r2.2)
            }
        }),
    decreases a.len(),
{
    if a.len() == 0 {
        assert(a + b =~= b);
        let r2 = take_state_rec(b, budget);
        assert(Seq::<char>::empty() + r2.0 =~= r2.0);
    } else {
        let ab = a + b;
        assert(ab[0] == a[0]);
        assert(ab.skip(1) =~= a.skip(1) + b);
        let cw = char_display_width(a[0]) as int;
        if cw <= budget {
            lemma_take_state_concat(a.skip(1), b, budget - cw);
            let r1t = take_state_rec(a.skip(1), budget - cw);
            if !r1t.2 {
                let r2 = take_state_rec(b, r1t.1);
                assert(seq![a[0]] + (r1t.0 + r2.0) =~= (seq![a[0]] + r1t.0) + r2.0);
            }
        }
    }
}

/// A skip clamped to the sequence's length.
pub open spec fn skip_clamped(s: Seq<char>, k: int) -> Seq<char> {
    if k <= s.len() {
        s.skip(k)
    } else {
        Seq::empty()
    }
}

/// Slice a span list from a character offset up to a column budget: spans
/// wholly before the offset vanish, the span holding the offset contributes
/// its tail, and spans are taken while their characters fit, each fragment
/// in its span's own style.
pub open spec fn slice_spans_rec(
    vs: Seq<(Seq<char>, SpanStyle)>,
    to_skip: int,
    budget: int,
) -> (Seq<(Seq<char>, SpanStyle)>, int)
    decreases vs.len(),
{
    if vs.len() == 0 {
        (Seq::empty(), budget)
    } else if to_skip >= vs[0].0.len() {
        slice_spans_rec(vs.drop_first(), to_skip - vs[0].0.len(), budget)
    } else {
        let r1 = take_state_rec(vs[0].0.skip(to_skip), budget);
        let head: Seq<(Seq<char>, SpanStyle)> = if r1.0.len() > 0 {
            seq![(r1.0, vs[0].1)]
        } else {
            Seq::empty()
        };
        if r1.2 {
            (head, r1.1)
        } else {
            let rest = slice_spans_rec(vs.drop_first(), 0, r1.1);
            (head + rest.0, rest.1)
        }
    }
}

/// The sliced fragments carry exactly the taken tail of the whole line's
/// text, on the same remaining budget.
proof fn lemma_slice_spans_text(vs: Seq<(Seq<char>, SpanStyle)>, to_skip: int, budget: int)
    requires
        0 <= to_skip,
    ensures
        views_text(slice_spans_rec(vs, to_skip, budget).0) == take_state_rec(
            skip_clamped(views_text(vs), to_skip),
            budget,
        ).0,
        slice_spans_rec(vs, to_skip, budget).1 == take_state_rec(
            skip_clamped(views_text(vs), to_skip),
            budget,
        ).1,
    decreases vs.len(),
{
    if vs.len() == 0 {
        assert(views_text(vs) =~= Seq::<char>::empty());
        assert(skip_clamped(views_text(vs), to_skip) =~= Seq::<char>::empty());
    } else {
        let n0 = vs[0].0.len() as int;
        let rest_text = views_text(vs.drop_first());
        if to_skip >= n0 {
            lemma_slice_spans_text(vs.drop_first(), to_skip - n0, budget);
            assert(skip_clamped(views_text(vs), to_skip) =~= skip_clamped(
                rest_text,
                to_skip - n0,
            )) by {
                if to_skip <= views_text(vs).len() {
                    assert(views_text(vs).skip(to_skip) =~= rest_text.skip(to_skip - n0));
                } else {
                    assert(skip_clamped(views_text(vs), to_skip) =~= Seq::<char>::empty());
                }
            }
        } else {
            assert(skip_clamped(views_text(vs), to_skip) =~= vs[0].0.skip(to_skip) + rest_text);
            lemma_take_state_concat(vs[0].0.skip(to_skip), rest_text, budget);
            let r1 = take_state_rec(vs[0].0.skip(to_skip), budget);
            if r1.2 {
                if r1.0.len() > 0 {
                    assert(views_text(seq![(r1.0, vs[0].1)]) =~= r1.0) by {
                        assert(seq![(r1.0, vs[0].1)].drop_first()
                            =~= Seq::<(Seq<char>, SpanStyle)>::empty());
                        assert(views_text(Seq::<(Seq<char>, SpanStyle)>::empty())
                            == Seq::<char>::empty());
                        assert(r1.0 + Seq::<char>::empty() =~= r1.0);
                    }
                } else {
                    assert(r1.0 =~= Seq::<char>::empty());
                }
            } else {
                lemma_slice_spans_text(vs.drop_first(), 0, r1.1);
                assert(skip_clamped(rest_text, 0) =~= rest_text);
                let rest = slice_spans_rec(vs.drop_first(), 0, r1.1);
                let head: Seq<(Seq<char>, SpanStyle)> = if r1.0.len() > 0 {
                    seq![(r1.0, vs[0].1)]
                } else {
                    Seq::empty()
                };
                assert(views_text(head + rest.0) =~= r1.0 + views_text(rest.0)) by {
                    if r1.0.len() > 0 {
                        assert((head + rest.0).len() >= 1);
                        assert((head + rest.0)[0] == (r1.0, vs[0].1));
                        assert((head + rest.0).drop_first() =~= rest.0);
                        assert(views_text(head + rest.0) == (head + rest.0)[0].0 + views_text(
                            (head + rest.0).drop_first(),
                        ));
                    } else {
                        assert(head + rest.0 =~= rest.0);
                        assert(r1.0 =~= Seq::<char>::empty());
                        assert(r1.0 + views_text(rest.0) =~= views_text(rest.0));
                    }
                }
            }
        }
    }
}

/// Walk the characters as `take_state_rec` does, collecting the output.
fn take_chars_state(chars: &Vec<char>, budget0: usize) -> (r: (Vec<char>, usize, bool))
    ensures
        ({
            let spec = take_state_rec(chars@, budget0 as int);
            &&& r.0@ == spec.0
            &&& r.1 as int == spec.1
            &&& r.2 == spec.2
            &&& r.1 <= budget0
        }),
{
    let n = chars.len();
    let mut out: Vec<char> = Vec::new();
    let mut budget: usize = budget0;
    let mut i: usize = 0;
    let ghost s = chars@;
    let mut broke = false;
    proof {
        assert(s.skip(0) =~= s);
    }
    while i < n
        invariant_except_break
            !broke,
            take_state_rec(s, budget0 as int) == ({
                let rest = take_state_rec(s.skip(i as int), budget as int);
                (out@ + rest.0, rest.1, rest.2)
            }),
        invariant
            i <= n,
            n == s.len(),
            s == chars@,
            budget <= budget0,
        ensures
            budget <= budget0,
            take_state_rec(s, budget0 as int) == (out@, budget as int, broke),
        decreases n - i,
    {
        let c = chars[i];
        let cw = char_width(c);
        proof {
            assert(s.skip(i as int)[0] == s[i as int]);
            assert(s.skip(i as int).skip(1) =~= s.skip(i + 1));
        }
        if cw <= budget {
            let ghost out_prev = out@;
            out.push(c);
            proof {
                assert(out@ =~= out_prev + seq![s[i as int]]);
                assert((out@ + take_state_rec(s.skip(i + 1), budget as int - cw as int).0)
                    =~= (out_prev + (seq![s[i as int]] + take_state_rec(
                    s.skip(i + 1),
                    budget as int - cw as int,
                ).0)));
            }
            budget = budget - cw;
        } else {
            proof {
                assert(out@ + Seq::<char>::empty() =~= out@);
            }
            broke = true;
            break ;
        }
        i = i + 1;
        proof {
            if i == n {
                assert(s.skip(n as int) =~= Seq::<char>::empty());
                assert(out@ + Seq::<char>::empty() =~= out@);
            }
        }
    }
    (out, budget, broke)
}

/// The padded sliced span views.
pub open spec fn slice_spans_padded_spec(
    vs: Seq<(Seq<char>, SpanStyle)>,
    char_offset: int,
    width: int,
) -> Seq<(Seq<char>, SpanStyle)> {
    let (frags, remaining) = slice_spans_rec(vs, char_offset, width);
    if remaining > 0 {
        frags + seq![(spaces(remaining as nat), SpanStyle::plain_spec())]
    } else {
        frags
    }
}

/// Slice a span list for one wrapped row: drop the characters before the
/// row's character offset, take characters while they fit the width —
/// never splitting one — each fragment in its span's own style, and pad the
/// row with a plain span of spaces. The concatenated text is exactly the
/// greedily taken tail of the line's text plus that padding.
pub fn slice_spans(spans: &Vec<StyledSpan>, char_offset: usize, width: usize) -> (r: Vec<
    StyledSpan,
>)
    ensures
        span_views(r@) == slice_spans_padded_spec(
            span_views(spans@),
            char_offset as int,
            width as int,
        ),
        ({
            let taken = take_state_rec(
                skip_clamped(spans_text(spans@), char_offset as int),
                width as int,
            );
            spans_text(r@) == take_width_spec(
                skip_clamped(spans_text(spans@), char_offset as int),
                width as int,
            ) + if taken.1 > 0 {
                spaces(taken.1 as nat)
            } else {
                Seq::<char>::empty()
            }
        }),
        wf_spans(r@),
{
    let n = spans.len();
    let ghost vs = span_views(spans@);
    let mut out: Vec<StyledSpan> = Vec::new();
    let mut remaining_skip: usize = char_offset;
    let mut budget: usize = width;
    let mut i: usize = 0;
    proof {
        assert(vs.skip(0) =~= vs);
        assert(span_views(out@) =~= Seq::<(Seq<char>, SpanStyle)>::empty());
    }
    while i < n
        invariant_except_break
            slice_spans_rec(vs, char_offset as int, width as int) == ({
                let rest = slice_spans_rec(vs.skip(i as int), remaining_skip as int,
                budget as int);
                (span_views(out@) + rest.0, rest.1)
            }),
        invariant
            i <= n,
            n == spans@.len(),
            vs == span_views(spans@),
            budget <= width,
            wf_spans(out@),
        ensures
            budget <= width,
            wf_spans(out@),
            slice_spans_rec(vs, char_offset as int, width as int) == (
                span_views(out@),
                budget as int,
            ),
        decreases n - i,
    {
        let chars = str_chars(spans[i].text.as_str());
        proof {
            assert(vs.skip(i as int)[0] == vs[i as int]);
            assert(vs[i as int] == (spans@[i as int].text@, spans@[i as int].style));
            assert(vs.skip(i as int).drop_first() =~= vs.skip(i + 1));
        }
        if remaining_skip >= chars.len() {
            remaining_skip = remaining_skip - chars.len();
        } else {
            let sub = crate::text::copy_range(&chars, remaining_skip, chars.len());
            proof {
                assert(sub@ =~= spans@[i as int].text@.skip(remaining_skip as int));
            }
            let (frag, b2, br) = take_chars_state(&sub, budget);
            let ghost out_prev = out@;
            if frag.len() > 0 {
                let piece = chars_string(&frag);
                out.push(StyledSpan { text: piece, style: spans[i].style });
                proof {
                    assert(out@.drop_last() =~= out_prev);
                    lemma_span_views_push(out_prev, out@, frag@, spans@[i as int].style);
                    assert forall|k: int|
                        0 <= k < out@.len() implies (#[trigger] out@[k]).text@.len() > 0 by {
                        if k < out_prev.len() {
                            assert(out@[k] == out_prev[k]);
                            assert(out_prev[k].text@.len() > 0);
                        } else {
                            assert(out@[k].text@ == frag@);
                        }
                    }
                }
            } else {
                proof {
                    assert(span_views(out@) + Seq::<(Seq<char>, SpanStyle)>::empty()
                        =~= span_views(out@));
                }
            }
            budget = b2;
            remaining_skip = 0;
            proof {
                let head: Seq<(Seq<char>, SpanStyle)> = if frag@.len() > 0 {
                    seq![(frag@, spans@[i as int].style)]
                } else {
                    Seq::empty()
                };
                assert(span_views(out@) =~= span_views(out_prev) + head);
            }
            if br {
                break ;
            }
            proof {
                assert((span_views(out@) + slice_spans_rec(vs.skip(i + 1), 0, budget as int).0)
                    =~= (span_views(out_prev) + ((if frag@.len() > 0 {
                    seq![(frag@, spans@[i as int].style)]
                } else {
                    Seq::<(Seq<char>, SpanStyle)>::empty()
                }) + slice_spans_rec(vs.skip(i + 1), 0, budget as int).0)));
            }
        }
        i = i + 1;
        proof {
            if i == n {
                assert(vs.skip(n as int) =~= Seq::<(Seq<char>, SpanStyle)>::empty());
                assert(span_views(out@) + Seq::<(Seq<char>, SpanStyle)>::empty()
                    =~= span_views(out@));
            }
        }
    }
    let ghost core_views = span_views(out@);
    if budget > 0 {
        let mut pad: Vec<char> = Vec::new();
        push_spaces(&mut pad, budget);
        let ghost out_prev = out@;
        out.push(StyledSpan { text: chars_string(&pad), style: SpanStyle::new() });
        proof {
            assert(pad@ =~= spaces(budget as nat));
            assert(out@.drop_last() =~= out_prev);
            lemma_span_views_push(out_prev, out@, spaces(budget as nat), SpanStyle::plain_spec());
            assert forall|k: int| 0 <= k < out@.len() implies (#[trigger] out@[k]).text@.len()
                > 0 by {
                if k < out_prev.len() {
                    assert(out@[k] == out_prev[k]);
                    assert(out_prev[k].text@.len() > 0);
                } else {
                    assert(out@[k].text@ == pad@);
                    assert(pad@.len() == budget);
                }
            }
        }
    }
    proof {
        let vs0 = span_views(spans@);
        assert(span_views(out@) =~= slice_spans_padded_spec(vs0, char_offset as int,
        width as int));
        lemma_slice_spans_text(vs0, char_offset as int, width as int);
        lemma_take_state_matches(
            skip_clamped(views_text(vs0), char_offset as int),
            width as int,
        );
        lemma_views_text(spans@);
        lemma_views_text(out@);
        let (frags, remaining) = slice_spans_rec(vs0, char_offset as int, width as int);
        if remaining > 0 {
            lemma_views_text_concat(frags, seq![
                (spaces(remaining as nat), SpanStyle::plain_spec()),
            ]);
            assert(views_text(seq![(spaces(remaining as nat), SpanStyle::plain_spec())])
                =~= spaces(remaining as nat)) by {
                assert(seq![(spaces(remaining as nat), SpanStyle::plain_spec())].drop_first()
                    =~= Seq::<(Seq<char>, SpanStyle)>::empty());
                assert(views_text(Seq::<(Seq<char>, SpanStyle)>::empty())
                    == Seq::<char>::empty());
                assert(spaces(remaining as nat) + Seq::<char>::empty() =~= spaces(
                    remaining as nat,
                ));
            }
        } else {
            assert(spans_text(out@) + Seq::<char>::empty() =~= spans_text(out@));
        }
    }
    out
}

} // verus!
