//! Character widths, string/character-vector conversions, and line splitting.

use vstd::prelude::*;

verus! {

/// The display-width classification that the width table gives a character:
/// `None` for control characters, otherwise the number of columns.
pub uninterp spec fn char_width_class(c: char) -> Option<usize>;

/// The display width of a character: control characters count as zero columns.
pub open spec fn char_display_width(c: char) -> nat {
    match char_width_class(c) {
        Some(w) => w as nat,
        None => 0,
    }
}

/// The column advance of a character when expanding tabs: control characters
/// advance one column.
pub open spec fn char_column_width(c: char) -> nat {
    match char_width_class(c) {
        Some(w) => w as nat,
        None => 1,
    }
}

/// Relies on unicode_width's `UnicodeWidthChar::width`: the display width of a
/// character in columns, `None` for a control character. The width table
/// packs each width into two bits, so no character exceeds three columns
/// (a handful, such as U+17D8, do reach three); ASCII space is one column,
/// and U+2026 (horizontal ellipsis, East Asian ambiguous, treated as
/// narrow) is one column.
#[verifier::external_body]
pub(crate) fn char_width_lookup(c: char) -> (r: Option<usize>)
    ensures
        r == char_width_class(c),
        r matches Some(w) ==> w <= 3,
        c == ' ' ==> r == Some(1usize),
        c == '\u{2026}' ==> r == Some(1usize),
{
    unicode_width::UnicodeWidthChar::width(c)
}

/// The display width of a character, as an executable value.
pub fn char_width(c: char) -> (w: usize)
    ensures
        w as nat == char_display_width(c),
        w <= 3,
        c == ' ' ==> w == 1,
        c == '\u{2026}' ==> w == 1,
{
    match char_width_lookup(c) {
        Some(w) => w,
        None => 0,
    }
}

/// Relies on `str::chars`: yields the characters of the string in order.
#[verifier::external_body]
pub(crate) fn str_chars(s: &str) -> (r: Vec<char>)
    ensures
        r@ == s@,
{
    s.chars().collect()
}

/// Relies on `String`'s `FromIterator<char>`: collects the characters in order.
#[verifier::external_body]
pub(crate) fn chars_string(v: &Vec<char>) -> (r: String)
    ensures
        r@ == v@,
{
    v.iter().collect()
}

/// The display width of a character sequence: the sum of its characters'
/// display widths.
pub open spec fn str_width(s: Seq<char>) -> nat
    decreases s.len(),
{
    if s.len() == 0 {
        0
    } else {
        str_width(s.drop_last()) + char_display_width(s.last())
    }
}

/// Width distributes over concatenation.
pub proof fn lemma_str_width_concat(a: Seq<char>, b: Seq<char>)
    ensures
        str_width(a + b) == str_width(a) + str_width(b),
    decreases b.len(),
{
    if b.len() == 0 {
        assert(a + b =~= a);
    } else {
        lemma_str_width_concat(a, b.drop_last());
        assert((a + b).drop_last() =~= a + b.drop_last());
        assert((a + b).last() == b.last());
    }
}

/// Clamp an unbounded count to what a `usize` can hold.
pub open spec fn cap_usize(n: nat) -> nat {
    if n > usize::MAX {
        usize::MAX as nat
    } else {
        n
    }
}

/// Saturating addition on `usize`, exact with respect to `cap_usize`.
pub fn sat_add(a: usize, b: usize) -> (r: usize)
    ensures
        r as nat == cap_usize(a as nat + b as nat),
{
    if a > usize::MAX - b {
        usize::MAX
    } else {
        a + b
    }
}

/// Capping the left summand first does not change the capped sum.
pub proof fn lemma_cap_add(a: nat, b: nat)
    ensures
        cap_usize(cap_usize(a) + b) == cap_usize(a + b),
{
}

/// The display width of a character vector, clamped to `usize`.
pub fn chars_display_width(chars: &Vec<char>) -> (w: usize)
    ensures
        w as nat == cap_usize(str_width(chars@)),
{
    let mut w: usize = 0;
    let mut i: usize = 0;
    while i < chars.len()
        invariant
            i <= chars.len(),
            w as nat == cap_usize(str_width(chars@.take(i as int))),
        decreases chars.len() - i,
    {
        let cw = char_width(chars[i]);
        proof {
            assert(chars@.take(i + 1).drop_last() =~= chars@.take(i as int));
            assert(chars@.take(i + 1).last() == chars@[i as int]);
            lemma_cap_add(str_width(chars@.take(i as int)), char_display_width(chars@[i as int]));
        }
        w = sat_add(w, cw);
        i = i + 1;
    }
    proof {
        assert(chars@.take(chars@.len() as int) =~= chars@);
    }
    w
}

/// The display width of a string, clamped to `usize`.
pub fn str_display_width(s: &str) -> (w: usize)
    ensures
        w as nat == cap_usize(str_width(s@)),
{
    let chars = str_chars(s);
    chars_display_width(&chars)
}

/// Strip one trailing carriage return, as the line splitter does before a
/// line feed.
pub open spec fn strip_cr(p: Seq<char>) -> Seq<char> {
    if p.len() > 0 && p.last() == '\r' {
        p.drop_last()
    } else {
        p
    }
}

/// Split a character sequence into lines, given the text still to scan and
/// the characters of the current line seen so far: a line ends at each line
/// feed, losing one carriage return just before it; a final piece without a
/// line feed is kept as it stands, and a trailing line feed adds no empty
/// line.
pub open spec fn split_lines_rec(s: Seq<char>, buf: Seq<char>) -> Seq<Seq<char>>
    decreases s.len(),
{
    if s.len() == 0 {
        if buf.len() == 0 {
            Seq::empty()
        } else {
            seq![buf]
        }
    } else if s[0] == '\n' {
        seq![strip_cr(buf)] + split_lines_rec(s.skip(1), Seq::empty())
    } else {
        split_lines_rec(s.skip(1), buf.push(s[0]))
    }
}

/// The lines of a character sequence.
pub open spec fn split_lines_spec(s: Seq<char>) -> Seq<Seq<char>> {
    split_lines_rec(s, Seq::empty())
}

/// The views of a sequence of character vectors.
pub open spec fn views_of(r: Seq<Vec<char>>) -> Seq<Seq<char>> {
    r.map_values(|v: Vec<char>| v@)
}

/// Split a character vector into its lines.
pub fn split_lines(chars: &Vec<char>) -> (r: Vec<Vec<char>>)
    ensures
        views_of(r@) == split_lines_spec(chars@),
{
    let ghost s = chars@;
    let mut r: Vec<Vec<char>> = Vec::new();
    let mut buf: Vec<char> = Vec::new();
    let mut i: usize = 0;
    proof {
        assert(s.skip(0) =~= s);
        assert(views_of(r@) + split_lines_rec(s.skip(0), buf@) =~= split_lines_spec(s));
    }
    while i < chars.len()
        invariant
            i <= chars.len(),
            s == chars@,
            views_of(r@) + split_lines_rec(s.skip(i as int), buf@) == split_lines_spec(s),
        decreases chars.len() - i,
    {
        let c = chars[i];
        proof {
            assert(s.skip(i as int)[0] == s[i as int]);
            assert(s.skip(i as int).skip(1) =~= s.skip(i + 1));
        }
        if c == '\n' {
            let ghost old_buf = buf@;
            if buf.len() > 0 && buf[buf.len() - 1] == '\r' {
                buf.pop();
            }
            proof {
                assert(buf@ == strip_cr(old_buf));
            }
            let ghost old_r = r@;
            r.push(buf);
            buf = Vec::new();
            proof {
                assert(views_of(r@) =~= views_of(old_r).push(strip_cr(old_buf)));
                assert(views_of(r@) + split_lines_rec(s.skip(i + 1), buf@) =~= views_of(old_r)
                    + split_lines_rec(s.skip(i as int), old_buf));
            }
        } else {
            let ghost old_buf = buf@;
            buf.push(c);
            proof {
                assert(split_lines_rec(s.skip(i + 1), buf@) == split_lines_rec(
                    s.skip(i as int),
                    old_buf,
                ));
            }
        }
        i = i + 1;
    }
    proof {
        assert(s.skip(s.len() as int) =~= Seq::<char>::empty());
    }
    if buf.len() > 0 {
        let ghost old_r = r@;
        let ghost old_buf = buf@;
        r.push(buf);
        proof {
            assert(views_of(r@) =~= views_of(old_r).push(old_buf));
            assert(views_of(r@) =~= views_of(old_r) + split_lines_rec(
                Seq::<char>::empty(),
                old_buf,
            ));
        }
    } else {
        proof {
            assert(views_of(r@) + split_lines_rec(Seq::<char>::empty(), buf@) =~= views_of(r@));
        }
    }
    r
}

/// Copy a character range out of a vector.
pub fn copy_range(chars: &Vec<char>, from: usize, to: usize) -> (r: Vec<char>)
    requires
        from <= to <= chars@.len(),
    ensures
        r@ == chars@.subrange(from as int, to as int),
{
    let mut r: Vec<char> = Vec::new();
    let mut i: usize = from;
    while i < to
        invariant
            from <= i <= to <= chars@.len(),
            r@ == chars@.subrange(from as int, i as int),
        decreases to - i,
    {
        r.push(chars[i]);
        proof {
            assert(r@ =~= chars@.subrange(from as int, i + 1));
        }
        i = i + 1;
    }
    r
}

/// Split at every line feed, keeping empty pieces, given the text still to
/// scan and the piece gathered so far.
pub open spec fn split_all_rec(s: Seq<char>, buf: Seq<char>) -> Seq<Seq<char>>
    decreases s.len(),
{
    if s.len() == 0 {
        seq![buf]
    } else if s[0] == '\n' {
        seq![buf] + split_all_rec(s.skip(1), Seq::empty())
    } else {
        split_all_rec(s.skip(1), buf.push(s[0]))
    }
}

/// Split a character vector at every line feed, keeping empty pieces: one
/// piece more than there are line feeds.
pub fn split_at_newlines(chars: &Vec<char>) -> (r: Vec<Vec<char>>)
    ensures
        views_of(r@) == split_all_rec(chars@, Seq::empty()),
        r@.len() >= 1,
{
    let ghost s = chars@;
    let mut r: Vec<Vec<char>> = Vec::new();
    let mut buf: Vec<char> = Vec::new();
    let mut i: usize = 0;
    proof {
        assert(s.skip(0) =~= s);
        assert(views_of(r@) + split_all_rec(s.skip(0), buf@) =~= split_all_rec(s, Seq::empty()));
    }
    while i < chars.len()
        invariant
            i <= chars.len(),
            s == chars@,
            views_of(r@) + split_all_rec(s.skip(i as int), buf@) == split_all_rec(
                s,
                Seq::empty(),
            ),
        decreases chars.len() - i,
    {
        let c = chars[i];
        proof {
            assert(s.skip(i as int)[0] == s[i as int]);
            assert(s.skip(i as int).skip(1) =~= s.skip(i + 1));
        }
        if c == '\n' {
            let ghost old_r = r@;
            let ghost old_buf = buf@;
            r.push(buf);
            buf = Vec::new();
            proof {
                assert(views_of(r@) =~= views_of(old_r).push(old_buf));
                assert(views_of(r@) + split_all_rec(s.skip(i + 1), buf@) =~= views_of(old_r)
                    + split_all_rec(s.skip(i as int), old_buf));
            }
        } else {
            let ghost old_buf = buf@;
            buf.push(c);
            proof {
                assert(split_all_rec(s.skip(i + 1), buf@) == split_all_rec(
                    s.skip(i as int),
                    old_buf,
                ));
            }
        }
        i = i + 1;
    }
    proof {
        assert(s.skip(s.len() as int) =~= Seq::<char>::empty());
    }
    let ghost old_r = r@;
    let ghost old_buf = buf@;
    r.push(buf);
    proof {
        assert(views_of(r@) =~= views_of(old_r).push(old_buf));
        assert(views_of(r@) =~= views_of(old_r) + split_all_rec(Seq::<char>::empty(), old_buf));
    }
    r
}

} // verus!
