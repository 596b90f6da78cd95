//! The line-range grammar and the range filter.

use vstd::prelude::*;

use crate::error::MatError;
use crate::line::Document;
use crate::line::Line;
use crate::text::chars_string;
use crate::text::str_chars;

verus! {

/// A decimal digit.
pub open spec fn is_digit(c: char) -> bool {
    '0' <= c && c <= '9'
}

/// Every character is a decimal digit.
pub open spec fn all_digits(s: Seq<char>) -> bool {
    forall|i: int| 0 <= i < s.len() ==> is_digit(#[trigger] s[i])
}

/// The value of a digit string.
pub open spec fn digits_val(s: Seq<char>) -> int
    decreases s.len(),
{
    if s.len() == 0 {
        0
    } else {
        digits_val(s.drop_last()) * 10 + (s.last() as int - '0' as int)
    }
}

/// Digit strings have non-negative values.
proof fn lemma_digits_val_nonneg(s: Seq<char>)
    requires
        all_digits(s),
    ensures
        digits_val(s) >= 0,
    decreases s.len(),
{
    if s.len() > 0 {
        assert(all_digits(s.drop_last())) by {
            assert(forall|i: int| 0 <= i < s.len() - 1 ==> s.drop_last()[i] == s[i]);
        }
        lemma_digits_val_nonneg(s.drop_last());
    }
}

/// The value of a digit string never falls below the value of a prefix.
proof fn lemma_digits_val_prefix(s: Seq<char>, k: int)
    requires
        all_digits(s),
        0 <= k <= s.len(),
    ensures
        digits_val(s) >= digits_val(s.take(k)),
    decreases s.len() - k,
{
    if k < s.len() {
        lemma_digits_val_prefix(s, k + 1);
        assert(s.take(k + 1).drop_last() =~= s.take(k));
        assert(s.take(k + 1).last() == s[k]);
        assert(all_digits(s.take(k))) by {
            assert(forall|i: int| 0 <= i < k ==> s.take(k)[i] == s[i]);
        }
        lemma_digits_val_nonneg(s.take(k));
        assert(digits_val(s.take(k + 1)) >= digits_val(s.take(k)));
    } else {
        assert(s.take(k) =~= s);
    }
}

/// Whether a digit string parses as a `usize`: it is nonempty, all digits,
/// and its value fits.
pub open spec fn parses_as_usize(s: Seq<char>) -> bool {
    s.len() > 0 && all_digits(s) && digits_val(s) <= usize::MAX
}

/// Parse a decimal number. `None` means the text is empty, holds a
/// non-digit, or overflows.
pub fn parse_usize(chars: &Vec<char>) -> (r: Option<usize>)
    ensures
        (r is Some) == parses_as_usize(chars@),
        r matches Some(v) ==> v == digits_val(chars@),
{
    let n = chars.len();
    if n == 0 {
        return None;
    }
    let mut acc: usize = 0;
    let mut i: usize = 0;
    proof {
        assert(chars@.take(0) =~= Seq::<char>::empty());
    }
    while i < n
        invariant
            i <= n,
            n == chars@.len(),
            all_digits(chars@.take(i as int)),
            acc == digits_val(chars@.take(i as int)),
        decreases n - i,
    {
        let c = chars[i];
        if !('0' <= c && c <= '9') {
            proof {
                assert(!is_digit(chars@[i as int]));
            }
            return None;
        }
        let d: usize = (c as u32 as usize) - ('0' as u32 as usize);
        proof {
            assert(chars@.take(i + 1).drop_last() =~= chars@.take(i as int));
            assert(chars@.take(i + 1).last() == chars@[i as int]);
            assert(all_digits(chars@.take(i + 1))) by {
                assert(forall|k: int|
                    0 <= k < i + 1 ==> chars@.take(i + 1)[k] == #[trigger] chars@.take(
                        i + 1,
                    )[k] && chars@.take(i + 1)[k] == chars@[k]);
            }
        }
        if acc > (usize::MAX - d) / 10 {
            proof {
                assert(acc * 10 + d > usize::MAX) by (nonlinear_arith)
                    requires
                        acc > (usize::MAX - d) / 10,
                        d <= 9,
                        usize::MAX >= 10,
                        acc >= 0,
                ;
                assert(digits_val(chars@.take(i + 1)) > usize::MAX);
                if all_digits(chars@) {
                    lemma_digits_val_prefix(chars@, i + 1);
                    assert(digits_val(chars@) > usize::MAX);
                }
            }
            return None;
        }
        proof {
            assert(acc * 10 + d <= usize::MAX) by (nonlinear_arith)
                requires
                    acc <= (usize::MAX - d) / 10,
                    d <= 9,
                    acc >= 0,
            ;
        }
        acc = acc * 10 + d;
        i = i + 1;
    }
    proof {
        assert(chars@.take(n as int) =~= chars@);
    }
    Some(acc)
}

/// An ASCII whitespace character, as the range argument is trimmed of.
pub open spec fn is_ascii_ws(c: char) -> bool {
    c == ' ' || c == '\t' || c == '\n' || c == '\r'
}

/// The text with leading and trailing ASCII whitespace removed.
pub open spec fn trim_spec(s: Seq<char>) -> Seq<char>
    decreases s.len(),
{
    if s.len() == 0 {
        s
    } else if is_ascii_ws(s[0]) {
        trim_spec(s.skip(1))
    } else if is_ascii_ws(s.last()) {
        trim_spec(s.take(s.len() - 1))
    } else {
        s
    }
}

/// Trim leading and trailing ASCII whitespace.
fn trim_chars(chars: &Vec<char>) -> (r: Vec<char>)
    ensures
        r@ == trim_spec(chars@),
{
    let mut lo: usize = 0;
    let n = chars.len();
    proof {
        assert(chars@.skip(0) =~= chars@);
    }
    while lo < n && (chars[lo] == ' ' || chars[lo] == '\t' || chars[lo] == '\n' || chars[lo]
        == '\r')
        invariant
            lo <= n,
            n == chars@.len(),
            trim_spec(chars@) == trim_spec(chars@.skip(lo as int)),
        decreases n - lo,
    {
        proof {
            assert(chars@.skip(lo as int)[0] == chars@[lo as int]);
            assert(chars@.skip(lo as int).skip(1) =~= chars@.skip(lo + 1));
        }
        lo = lo + 1;
    }
    let mut hi: usize = n;
    proof {
        assert(chars@.skip(lo as int) =~= chars@.subrange(lo as int, n as int));
    }
    while hi > lo && (chars[hi - 1] == ' ' || chars[hi - 1] == '\t' || chars[hi - 1] == '\n'
        || chars[hi - 1] == '\r')
        invariant
            lo <= hi <= n,
            n == chars@.len(),
            lo < n ==> !is_ascii_ws(chars@[lo as int]),
            trim_spec(chars@) == trim_spec(chars@.subrange(lo as int, hi as int)),
        decreases hi,
    {
        proof {
            let sub = chars@.subrange(lo as int, hi as int);
            assert(sub.last() == chars@[hi - 1]);
            assert(sub[0] == chars@[lo as int]);
            assert(sub.take(sub.len() - 1) =~= chars@.subrange(lo as int, hi - 1));
        }
        hi = hi - 1;
    }
    proof {
        let sub = chars@.subrange(lo as int, hi as int);
        if sub.len() > 0 {
            assert(sub[0] == chars@[lo as int]);
            assert(sub.last() == chars@[hi - 1]);
        }
        assert(trim_spec(sub) == sub);
    }
    let mut r: Vec<char> = Vec::new();
    let mut i: usize = lo;
    while i < hi
        invariant
            lo <= i <= hi <= n,
            n == chars@.len(),
            r@ == chars@.subrange(lo as int, i as int),
        decreases hi - i,
    {
        r.push(chars[i]);
        proof {
            assert(r@ =~= chars@.subrange(lo as int, i + 1));
        }
        i = i + 1;
    }
    r
}

/// What the line-range grammar gives for a trimmed range text over a total
/// line count: `X:Y`, `:Y`, `X:`, or a single `X`, 1-based and inclusive,
/// with empty sides defaulting to the first and last line, the end clamped
/// to the total, and a zero bound, an inverted range, or a failed parse
/// refused.
pub open spec fn line_range_spec(t: Seq<char>, total: int) -> Option<(int, int)> {
    if t.len() == 0 {
        None
    } else if exists|i: int| 0 <= i < t.len() && t[i] == ':' {
        let i = choose|i: int|
            0 <= i < t.len() && t[i] == ':' && forall|j: int| 0 <= j < i ==> t[j] != ':';
        let left = t.take(i);
        let right = t.skip(i + 1);
        if left.len() > 0 && !parses_as_usize(left) {
            None
        } else if right.len() > 0 && !parses_as_usize(right) {
            None
        } else {
            let start = if left.len() == 0 {
                1
            } else {
                digits_val(left)
            };
            let end = if right.len() == 0 {
                total
            } else {
                digits_val(right)
            };
            if start == 0 || end == 0 || start > end {
                None
            } else {
                Some((start, if end < total {
                    end
                } else {
                    total
                }))
            }
        }
    } else {
        if !parses_as_usize(t) {
            None
        } else {
            let v = digits_val(t);
            if v == 0 || v > total {
                None
            } else {
                Some((v, v))
            }
        }
    }
}

/// Parse the line-range argument against the document's total line count.
/// The result follows `line_range_spec` on the trimmed text; a refused
/// range surfaces as an invalid-line-range error carrying the trimmed text.
pub fn parse_line_range(range: &str, total_lines: usize) -> (r: Result<(usize, usize), MatError>)
    ensures
        ({
            let t = trim_spec(range@);
            &&& (r matches Ok(p) ==> line_range_spec(t, total_lines as int) == Some(
                (p.0 as int, p.1 as int),
            ))
            &&& (r is Err <==> line_range_spec(t, total_lines as int) is None)
            &&& (r matches Err(e) ==> e matches MatError::InvalidLineRange { range: rr }
                && rr@ == t)
        }),
{
    let chars = str_chars(range);
    let t = trim_chars(&chars);
    let ghost tv = t@;
    let trimmed = chars_string(&t);
    let n = t.len();
    if n == 0 {
        return Err(MatError::InvalidLineRange { range: trimmed });
    }
    let mut colon: Option<usize> = None;
    let mut i: usize = 0;
    while i < n
        invariant
            i <= n,
            n == tv.len(),
            tv == t@,
            colon is None ==> forall|j: int| 0 <= j < i ==> tv[j] != ':',
            colon matches Some(ci) ==> ci < i <= n && tv[ci as int] == ':' && (forall|j: int|
                0 <= j < ci ==> tv[j] != ':'),
        decreases n - i,
    {
        if t[i] == ':' && colon.is_none() {
            colon = Some(i);
        }
        i = i + 1;
    }
    match colon {
        Some(ci) => {
            proof {
                assert(tv[ci as int] == ':');
                let wi = choose|w: int|
                    0 <= w < tv.len() && tv[w] == ':' && forall|j: int| 0 <= j < w ==> tv[j]
                        != ':';
                assert(wi == ci as int) by {
                    if wi < ci as int {
                        assert(tv[wi] != ':');
                    }
                    if wi > ci as int {
                        assert(tv[ci as int] != ':');
                    }
                }
            }
            let left = crate::text::copy_range(&t, 0, ci);
            let right = crate::text::copy_range(&t, ci + 1, n);
            proof {
                assert(left@ =~= tv.take(ci as int));
                assert(right@ =~= tv.skip(ci as int + 1));
            }
            let start: usize = if left.len() == 0 {
                1
            } else {
                match parse_usize(&left) {
                    Some(v) => v,
                    None => {
                        return Err(MatError::InvalidLineRange { range: trimmed });
                    },
                }
            };
            let end: usize = if right.len() == 0 {
                total_lines
            } else {
                match parse_usize(&right) {
                    Some(v) => v,
                    None => {
                        return Err(MatError::InvalidLineRange { range: trimmed });
                    },
                }
            };
            if start == 0 || end == 0 || start > end {
                return Err(MatError::InvalidLineRange { range: trimmed });
            }
            let clamped = if end < total_lines {
                end
            } else {
                total_lines
            };
            Ok((start, clamped))
        },
        None => {
            let v = match parse_usize(&t) {
                Some(v) => v,
                None => {
                    return Err(MatError::InvalidLineRange { range: trimmed });
                },
            };
            if v == 0 || v > total_lines {
                return Err(MatError::InvalidLineRange { range: trimmed });
            }
            Ok((v, v))
        },
    }
}

/// Whether a line's number lies in the inclusive range.
pub open spec fn in_line_range(l: Line, start: usize, end: usize) -> bool {
    start <= l.number && l.number <= end
}

/// Keep only the lines whose numbers lie in the inclusive range, and
/// refresh the cached maximum width.
pub fn filter_line_range(document: &mut Document, start: usize, end: usize)
    ensures
        final(document).lines@ == old(document).lines@.filter(
            |l: Line| start <= l.number && l.number <= end,
        ),
        final(document).source_name == old(document).source_name,
        final(document).encoding == old(document).encoding,
        final(document).max_width_ok(),
{
    let ghost pred = |l: Line| start <= l.number && l.number <= end;
    let mut old_lines: Vec<Line> = Vec::new();
    core::mem::swap(&mut document.lines, &mut old_lines);
    let ghost orig = old_lines@;
    let mut kept: Vec<Line> = Vec::new();
    let ghost mut k: int = 0;
    proof {
        reveal(Seq::filter);
        assert(orig.take(0) =~= Seq::<Line>::empty());
        assert(kept@ =~= orig.take(0).filter(pred));
        assert(old_lines@ =~= orig.skip(0));
    }
    while old_lines.len() > 0
        invariant
            0 <= k <= orig.len(),
            old_lines@ == orig.skip(k),
            kept@ == orig.take(k).filter(pred),
            pred == (|l: Line| start <= l.number && l.number <= end),
            document.source_name == old(document).source_name,
            document.encoding == old(document).encoding,
        decreases old_lines@.len(),
    {
        let l = old_lines.remove(0);
        proof {
            assert(l == orig[k]);
            assert(orig.skip(k).remove(0) =~= orig.skip(k + 1));
        }
        let keep = start <= l.number && l.number <= end;
        let ghost old_kept = kept@;
        if keep {
            kept.push(l);
        }
        proof {
            reveal(Seq::filter);
            assert(orig.take(k + 1).drop_last() =~= orig.take(k));
            assert(orig.take(k + 1).last() == orig[k]);
            assert(kept@ =~= orig.take(k + 1).filter(pred));
            k = k + 1;
        }
    }
    proof {
        assert(orig.take(orig.len() as int) =~= orig);
    }
    document.lines = kept;
    document.recalculate_max_width();
}

} // verus!
