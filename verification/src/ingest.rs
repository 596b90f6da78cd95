//! Ingest: binary detection, encoding detection and decoding, ANSI
//! stripping, tab expansion, and content loading.

use vstd::prelude::*;
use vstd::slice::slice_index_get;
use vstd::slice::slice_subrange;
use vstd::utf8::decode_utf8;
use vstd::utf8::valid_utf8;

use crate::cli::Args;
use crate::error::MatError;
use crate::text::char_column_width;
use crate::text::chars_string;
use crate::text::str_chars;

verus! {

/// How many leading bytes the binary check samples.
pub const BINARY_CHECK_SIZE: usize = 8192;

/// A byte that counts as printable text: tab, line feed, carriage return,
/// the printable ASCII range, or a high byte.
pub open spec fn is_printable_byte_spec(b: u8) -> bool {
    b == 0x09 || b == 0x0A || b == 0x0D || (0x20 <= b && b <= 0x7E) || b >= 0x80
}

/// Check whether a byte counts as printable text.
pub fn is_printable_byte(b: u8) -> (r: bool)
    ensures
        r == is_printable_byte_spec(b),
{
    b == 0x09 || b == 0x0A || b == 0x0D || (0x20 <= b && b <= 0x7E) || b >= 0x80
}

/// The sample the binary check looks at: the first 8 KiB.
pub open spec fn binary_sample_of(b: Seq<u8>) -> Seq<u8> {
    if b.len() > BINARY_CHECK_SIZE {
        b.take(BINARY_CHECK_SIZE as int)
    } else {
        b
    }
}

/// How many bytes of a sequence are not printable.
pub open spec fn count_nonprintable(s: Seq<u8>) -> nat
    decreases s.len(),
{
    if s.len() == 0 {
        0
    } else {
        count_nonprintable(s.drop_last()) + if is_printable_byte_spec(s.last()) {
            0nat
        } else {
            1nat
        }
    }
}

/// Content is binary iff the sample holds a zero byte or more than thirty
/// percent of the sampled bytes are not printable. Empty input is not
/// binary.
pub open spec fn is_binary_spec(b: Seq<u8>) -> bool {
    let s = binary_sample_of(b);
    s.contains(0u8) || 10 * count_nonprintable(s) > 3 * s.len()
}

/// Check whether the given bytes look like binary content.
pub fn is_binary(bytes: &[u8]) -> (r: bool)
    ensures
        r == is_binary_spec(bytes@),
{
    let len = bytes.len();
    let check_len: usize = if len < BINARY_CHECK_SIZE {
        len
    } else {
        BINARY_CHECK_SIZE
    };
    let ghost sample = binary_sample_of(bytes@);
    proof {
        assert(sample =~= bytes@.take(check_len as int));
    }
    let mut has_null = false;
    let mut count: usize = 0;
    let mut i: usize = 0;
    while i < check_len
        invariant
            i <= check_len <= bytes@.len(),
            sample == bytes@.take(check_len as int),
            count == count_nonprintable(sample.take(i as int)),
            count <= i,
            has_null == sample.take(i as int).contains(0u8),
        decreases check_len - i,
    {
        let b = *slice_index_get(bytes, i);
        proof {
            assert(sample.take(i + 1).drop_last() =~= sample.take(i as int));
            assert(sample.take(i + 1).last() == sample[i as int]);
            assert(sample[i as int] == bytes@[i as int]);
            if sample.take(i as int).contains(0u8) || sample[i as int] == 0u8 {
                assert(sample.take(i + 1).contains(0u8)) by {
                    if sample[i as int] == 0u8 {
                        assert(sample.take(i + 1)[i as int] == 0u8);
                    } else {
                        let w = choose|w: int|
                            0 <= w < i && sample.take(i as int)[w] == 0u8;
                        assert(sample.take(i + 1)[w] == 0u8);
                    }
                }
            } else {
                assert forall|w: int| 0 <= w < i + 1 implies #[trigger] sample.take(i + 1)[w]
                    != 0u8 by {
                    if w < i {
                        assert(sample.take(i as int)[w] != 0u8);
                    }
                }
            }
        }
        if b == 0 {
            has_null = true;
        }
        if !is_printable_byte(b) {
            count = count + 1;
        }
        i = i + 1;
    }
    proof {
        assert(sample.take(check_len as int) =~= sample);
    }
    has_null || 10 * count > 3 * check_len
}

/// A leading UTF-8 byte-order mark: EF BB BF.
pub open spec fn has_utf8_bom(b: Seq<u8>) -> bool {
    b.len() >= 3 && b[0] == 0xEF && b[1] == 0xBB && b[2] == 0xBF
}

/// A leading UTF-16 little-endian byte-order mark: FF FE.
pub open spec fn has_utf16le_bom(b: Seq<u8>) -> bool {
    b.len() >= 2 && b[0] == 0xFF && b[1] == 0xFE
}

/// A leading UTF-16 big-endian byte-order mark: FE FF.
pub open spec fn has_utf16be_bom(b: Seq<u8>) -> bool {
    b.len() >= 2 && b[0] == 0xFE && b[1] == 0xFF
}

/// The encoding tag detection assigns: byte-order marks first, then strict
/// UTF-8 validation, then the Latin-1 fallback.
pub open spec fn encoding_tag_spec(b: Seq<u8>) -> Seq<char> {
    if has_utf8_bom(b) {
        "UTF-8-BOM"@
    } else if has_utf16le_bom(b) {
        "UTF-16LE"@
    } else if has_utf16be_bom(b) {
        "UTF-16BE"@
    } else if valid_utf8(b) {
        "UTF-8"@
    } else {
        "Latin-1"@
    }
}

/// Relies on `std::str::from_utf8`: its validation accepts exactly the
/// well-formed UTF-8 byte sequences.
#[verifier::external_body]
pub(crate) fn utf8_valid(bytes: &[u8]) -> (r: bool)
    ensures
        r == valid_utf8(bytes@),
{
    std::str::from_utf8(bytes).is_ok()
}

/// Detect the encoding of the given bytes; the result is one of `UTF-8`,
/// `UTF-8-BOM`, `UTF-16LE`, `UTF-16BE`, `Latin-1`.
pub fn detect_encoding(bytes: &[u8]) -> (r: &'static str)
    ensures
        r@ == encoding_tag_spec(bytes@),
{
    let n = bytes.len();
    if n >= 3 && *slice_index_get(bytes, 0) == 0xEF && *slice_index_get(bytes, 1) == 0xBB
        && *slice_index_get(bytes, 2) == 0xBF {
        "UTF-8-BOM"
    } else if n >= 2 && *slice_index_get(bytes, 0) == 0xFF && *slice_index_get(bytes, 1) == 0xFE {
        "UTF-16LE"
    } else if n >= 2 && *slice_index_get(bytes, 0) == 0xFE && *slice_index_get(bytes, 1) == 0xFF {
        "UTF-16BE"
    } else if utf8_valid(bytes) {
        "UTF-8"
    } else {
        "Latin-1"
    }
}

/// What lossy UTF-8 decoding returns for a byte sequence: a function of the
/// bytes alone.
pub uninterp spec fn utf8_lossy_of(b: Seq<u8>) -> Seq<char>;

/// What UTF-16 little-endian decoding returns for a byte sequence (a
/// matching byte-order mark is dropped): a function of the bytes alone.
pub uninterp spec fn utf16le_of(b: Seq<u8>) -> Seq<char>;

/// What UTF-16 big-endian decoding returns for a byte sequence (a matching
/// byte-order mark is dropped): a function of the bytes alone.
pub uninterp spec fn utf16be_of(b: Seq<u8>) -> Seq<char>;

/// What Windows-1252 decoding returns for a byte sequence: a function of the
/// bytes alone.
pub uninterp spec fn win1252_of(b: Seq<u8>) -> Seq<char>;

/// Relies on `String::from_utf8_lossy`: ill-formed sequences become
/// replacement characters, and well-formed input decodes exactly.
#[verifier::external_body]
fn decode_utf8_lossy(bytes: &[u8]) -> (r: String)
    ensures
        r@ == utf8_lossy_of(bytes@),
        valid_utf8(bytes@) ==> r@ == decode_utf8(bytes@),
{
    String::from_utf8_lossy(bytes).into_owned()
}

/// Relies on `encoding_rs::UTF_16LE`'s `decode`: byte-order-mark sniffing
/// first — a recognised leading mark selects and is consumed by its own
/// encoding — then decoding with replacement of malformed units. The
/// callers reach this only for input starting FF FE, where that is plain
/// UTF-16 little-endian decoding without the mark; the name holds for
/// every input, since the result is a function of the bytes alone.
#[verifier::external_body]
fn decode_utf16le(bytes: &[u8]) -> (r: String)
    ensures
        r@ == utf16le_of(bytes@),
{
    let (cow, _, _) = encoding_rs::UTF_16LE.decode(bytes);
    cow.into_owned()
}

/// Relies on `encoding_rs::UTF_16BE`'s `decode`: byte-order-mark sniffing
/// first, then decoding with replacement of malformed units, as in the
/// little-endian wrapper; the callers reach this only for input starting
/// FE FF.
#[verifier::external_body]
fn decode_utf16be(bytes: &[u8]) -> (r: String)
    ensures
        r@ == utf16be_of(bytes@),
{
    let (cow, _, _) = encoding_rs::UTF_16BE.decode(bytes);
    cow.into_owned()
}

/// Relies on `encoding_rs::WINDOWS_1252`'s `decode`: byte-order-mark
/// sniffing first, then the Windows-1252 byte-to-character table over all
/// 256 byte values; the callers reach this only for input without a mark,
/// where it is the plain table.
#[verifier::external_body]
fn decode_win1252(bytes: &[u8]) -> (r: String)
    ensures
        r@ == win1252_of(bytes@),
{
    let (cow, _, _) = encoding_rs::WINDOWS_1252.decode(bytes);
    cow.into_owned()
}

/// Relies on `str`'s `PartialEq`: strings are equal iff their character
/// sequences are.
#[verifier::external_body]
pub(crate) fn str_eq(a: &str, b: &str) -> (r: bool)
    ensures
        r == (a@ == b@),
{
    a == b
}

/// What decoding under a given encoding tag yields.
pub open spec fn decode_spec(b: Seq<u8>, enc: Seq<char>) -> Seq<char> {
    if enc == "UTF-8"@ {
        utf8_lossy_of(b)
    } else if enc == "UTF-8-BOM"@ {
        if b.len() >= 3 {
            utf8_lossy_of(b.skip(3))
        } else {
            utf8_lossy_of(b)
        }
    } else if enc == "UTF-16LE"@ {
        utf16le_of(b)
    } else if enc == "UTF-16BE"@ {
        utf16be_of(b)
    } else {
        win1252_of(b)
    }
}

/// Decode bytes under the given encoding tag. Decoding never fails: malformed
/// input degrades to replacement characters. Under the plain `UTF-8` tag,
/// well-formed input decodes exactly, and under the `UTF-8-BOM` tag a
/// well-formed remainder after the mark decodes exactly.
pub fn decode_bytes(bytes: &Vec<u8>, encoding: &str) -> (r: Result<String, MatError>)
    ensures
        r is Ok,
        r matches Ok(s) ==> s@ == decode_spec(bytes@, encoding@),
        r matches Ok(s) ==> ((encoding@ == "UTF-8"@ && valid_utf8(bytes@)) ==> s@ == decode_utf8(
            bytes@,
        )),
        r matches Ok(s) ==> ((encoding@ == "UTF-8-BOM"@ && bytes@.len() >= 3 && valid_utf8(
            bytes@.skip(3),
        )) ==> s@ == decode_utf8(bytes@.skip(3))),
{
    proof {
        reveal_strlit("UTF-8");
        reveal_strlit("UTF-8-BOM");
        assert("UTF-8"@ != "UTF-8-BOM"@) by {
            assert("UTF-8"@.len() == 5);
            assert("UTF-8-BOM"@.len() == 9);
        }
    }
    if str_eq(encoding, "UTF-8") {
        Ok(decode_utf8_lossy(bytes.as_slice()))
    } else if str_eq(encoding, "UTF-8-BOM") {
        if bytes.len() >= 3 {
            let rest = slice_subrange(bytes.as_slice(), 3, bytes.len());
            proof {
                assert(rest@ =~= bytes@.skip(3));
            }
            Ok(decode_utf8_lossy(rest))
        } else {
            Ok(decode_utf8_lossy(bytes.as_slice()))
        }
    } else if str_eq(encoding, "UTF-16LE") {
        Ok(decode_utf16le(bytes.as_slice()))
    } else if str_eq(encoding, "UTF-16BE") {
        Ok(decode_utf16be(bytes.as_slice()))
    } else {
        Ok(decode_win1252(bytes.as_slice()))
    }
}

/// An ASCII letter, which ends a CSI control sequence.
pub open spec fn is_ascii_alpha_spec(c: char) -> bool {
    ('a' <= c && c <= 'z') || ('A' <= c && c <= 'Z')
}

/// Check whether a character is an ASCII letter.
pub fn is_ascii_alpha(c: char) -> (r: bool)
    ensures
        r == is_ascii_alpha_spec(c),
{
    ('a' <= c && c <= 'z') || ('A' <= c && c <= 'Z')
}

/// What remains of a text after consuming the body of a CSI sequence: every
/// character up to and including the first ASCII letter is dropped.
pub open spec fn skip_csi(s: Seq<char>) -> Seq<char>
    decreases s.len(),
{
    if s.len() == 0 {
        Seq::empty()
    } else if is_ascii_alpha_spec(s[0]) {
        s.skip(1)
    } else {
        skip_csi(s.skip(1))
    }
}

/// The text with ANSI escapes removed: `ESC [` starts a CSI sequence ending
/// at the first ASCII letter; any other escape drops the escape and one
/// following character; ordinary text passes through.
pub open spec fn strip_ansi_spec(s: Seq<char>) -> Seq<char>
    decreases s.len(),
    via strip_ansi_spec_decreases
{
    if s.len() == 0 {
        Seq::empty()
    } else if s[0] == '\u{1b}' {
        if s.len() >= 2 && s[1] == '[' {
            strip_ansi_spec(skip_csi(s.skip(2)))
        } else if s.len() >= 2 {
            strip_ansi_spec(s.skip(2))
        } else {
            Seq::empty()
        }
    } else {
        seq![s[0]] + strip_ansi_spec(s.skip(1))
    }
}

#[via_fn]
proof fn strip_ansi_spec_decreases(s: Seq<char>) {
    if s.len() >= 2 && s[0] == '\u{1b}' && s[1] == '[' {
        lemma_skip_csi_len(s.skip(2));
    }
}

/// Consuming the body of a CSI sequence never lengthens the text.
proof fn lemma_skip_csi_len(s: Seq<char>)
    ensures
        skip_csi(s).len() <= s.len(),
    decreases s.len(),
{
    if s.len() > 0 && !is_ascii_alpha_spec(s[0]) {
        lemma_skip_csi_len(s.skip(1));
    }
}

/// Strip ANSI escape sequences from text: CSI sequences `ESC [ ... letter`
/// and two-character escapes are removed; everything else passes through
/// verbatim.
pub fn strip_ansi(text: &str) -> (r: String)
    ensures
        r@ == strip_ansi_spec(text@),
{
    let chars = str_chars(text);
    let ghost s = chars@;
    let n = chars.len();
    let mut out: Vec<char> = Vec::new();
    let mut i: usize = 0;
    proof {
        assert(s.skip(0) =~= s);
    }
    while i < n
        invariant
            i <= n,
            n == chars.len(),
            s == chars@,
            strip_ansi_spec(s) == out@ + strip_ansi_spec(s.skip(i as int)),
        decreases n - i,
    {
        let c = chars[i];
        proof {
            assert(s.skip(i as int)[0] == s[i as int]);
            assert(s.skip(i as int).skip(1) =~= s.skip(i + 1));
        }
        if c == '\u{1b}' {
            if i + 1 < n && chars[i + 1] == '[' {
                proof {
                    assert(s.skip(i as int)[1] == s[i + 1]);
                    assert(s.skip(i as int).skip(2) =~= s.skip(i + 2));
                }
                let ghost body = s.skip(i + 2);
                let ghost entry = i + 2;
                i = i + 2;
                while i < n && !is_ascii_alpha(chars[i])
                    invariant
                        entry <= i <= n,
                        n == chars.len(),
                        s == chars@,
                        skip_csi(body) == skip_csi(s.skip(i as int)),
                        strip_ansi_spec(s) == out@ + strip_ansi_spec(skip_csi(body)),
                    decreases n - i,
                {
                    proof {
                        assert(s.skip(i as int)[0] == s[i as int]);
                        assert(s.skip(i as int).skip(1) =~= s.skip(i + 1));
                    }
                    i = i + 1;
                }
                if i < n {
                    proof {
                        assert(s.skip(i as int)[0] == s[i as int]);
                        assert(s.skip(i as int).skip(1) =~= s.skip(i + 1));
                    }
                    i = i + 1;
                } else {
                    proof {
                        assert(s.skip(i as int) =~= Seq::<char>::empty());
                    }
                }
            } else if i + 1 < n {
                proof {
                    assert(s.skip(i as int).skip(2) =~= s.skip(i + 2));
                }
                i = i + 2;
            } else {
                i = i + 1;
                proof {
                    assert(s.skip(i as int) =~= Seq::<char>::empty());
                }
            }
        } else {
            let ghost old_out = out@;
            out.push(c);
            proof {
                assert(out@ =~= old_out + seq![s[i as int]]);
            }
            i = i + 1;
        }
    }
    proof {
        assert(s.skip(n as int) =~= Seq::<char>::empty());
        assert(out@ + strip_ansi_spec(Seq::<char>::empty()) =~= out@);
    }
    chars_string(&out)
}

/// A run of spaces.
pub open spec fn spaces(n: nat) -> Seq<char> {
    Seq::new(n, |i: int| ' ')
}

/// How many spaces a tab seen at a column inserts: enough to advance to the
/// next multiple of the tab width.
pub open spec fn tab_fill(col: nat, w: nat) -> nat
    recommends
        w >= 1,
{
    (w - col % w) as nat
}

/// Tab expansion over a text, carrying the current column: a tab becomes
/// spaces up to the next tab stop, a line feed resets the column, a carriage
/// return passes through without resetting, and any other character advances
/// the column by its width (one for control characters).
pub open spec fn expand_tabs_rec(s: Seq<char>, col: nat, w: nat) -> Seq<char>
    decreases s.len(),
{
    if s.len() == 0 {
        Seq::empty()
    } else if s[0] == '\t' {
        spaces(tab_fill(col, w)) + expand_tabs_rec(s.skip(1), col + tab_fill(col, w), w)
    } else if s[0] == '\n' {
        seq!['\n'] + expand_tabs_rec(s.skip(1), 0, w)
    } else if s[0] == '\r' {
        seq!['\r'] + expand_tabs_rec(s.skip(1), col, w)
    } else {
        seq![s[0]] + expand_tabs_rec(s.skip(1), col + char_column_width(s[0]), w)
    }
}

/// The text with tabs expanded, starting at column zero.
pub open spec fn expand_tabs_spec(s: Seq<char>, w: nat) -> Seq<char> {
    expand_tabs_rec(s, 0, w)
}

/// A text that starts with a tab expands to a run of spaces that ends
/// exactly on a tab stop: the run's length fills the current column to the
/// next multiple of the tab width.
pub proof fn lemma_tab_run_ends_on_tab_stop(s: Seq<char>, col: nat, w: nat)
    requires
        w >= 1,
        s.len() > 0,
        s[0] == '\t',
    ensures
        1 <= tab_fill(col, w) <= w,
        (col + tab_fill(col, w)) % w == 0,
        expand_tabs_rec(s, col, w).take(tab_fill(col, w) as int) == spaces(tab_fill(col, w)),
{
    let n = tab_fill(col, w);
    assert(0 <= col % w < w) by {
        vstd::arithmetic::div_mod::lemma_mod_bound(col as int, w as int);
    }
    let wi = w as int;
    vstd::arithmetic::div_mod::lemma_fundamental_div_mod(col as int, wi);
    let q = col as int / wi;
    assert((col + n) as int == (q + 1) * wi) by (nonlinear_arith)
        requires
            (col + n) as int == wi * q + wi,
    ;
    vstd::arithmetic::div_mod::lemma_mod_multiples_basic(q + 1, wi);
    assert(expand_tabs_rec(s, col, w).take(n as int) =~= spaces(n));
}

/// Expand tabs to spaces with proper alignment. The tab width must be at
/// least one.
pub fn expand_tabs(text: &str, tab_width: usize) -> (r: String)
    requires
        tab_width >= 1,
    ensures
        r@ == expand_tabs_spec(text@, tab_width as nat),
{
    let chars = str_chars(text);
    let ghost s = chars@;
    let w = tab_width;
    let n = chars.len();
    let mut out: Vec<char> = Vec::new();
    let mut col_mod: usize = 0;
    let ghost mut col: nat = 0;
    let mut i: usize = 0;
    proof {
        assert(s.skip(0) =~= s);
        vstd::arithmetic::div_mod::lemma_small_mod(0, w as nat);
    }
    while i < n
        invariant
            i <= n,
            n == chars.len(),
            s == chars@,
            w == tab_width,
            w >= 1,
            col_mod < w,
            col_mod as nat == col % (w as nat),
            expand_tabs_spec(s, w as nat) == out@ + expand_tabs_rec(s.skip(i as int), col, w as nat),
        decreases n - i,
    {
        let c = chars[i];
        proof {
            assert(s.skip(i as int)[0] == s[i as int]);
            assert(s.skip(i as int).skip(1) =~= s.skip(i + 1));
        }
        if c == '\t' {
            let fill = w - col_mod;
            proof {
                assert(fill as nat == tab_fill(col, w as nat));
            }
            let ghost old_out = out@;
            let mut j: usize = 0;
            while j < fill
                invariant
                    j <= fill,
                    out@ == old_out + spaces(j as nat),
                decreases fill - j,
            {
                let ghost before = out@;
                out.push(' ');
                proof {
                    assert(out@ =~= old_out + spaces((j + 1) as nat));
                }
                j = j + 1;
            }
            proof {
                let wi = w as int;
                let old_col = col as int;
                vstd::arithmetic::div_mod::lemma_fundamental_div_mod(old_col, wi);
                col = col + tab_fill(col, w as nat);
                let q = old_col / wi;
                assert(col as int == wi * q + wi);
                assert(col as int == (q + 1) * wi) by (nonlinear_arith)
                    requires
                        col as int == wi * q + wi,
                ;
                vstd::arithmetic::div_mod::lemma_mod_multiples_basic(q + 1, wi);
            }
            col_mod = 0;
        } else if c == '\n' {
            out.push('\n');
            proof {
                col = 0;
                vstd::arithmetic::div_mod::lemma_small_mod(0, w as nat);
            }
            col_mod = 0;
        } else if c == '\r' {
            out.push('\r');
        } else {
            let cwc: usize = match crate::text::char_width_lookup(c) {
                Some(cw) => cw,
                None => 1,
            };
            proof {
                assert(cwc as nat == char_column_width(c));
                assert(cwc <= 3);
            }
            out.push(c);
            let step = if cwc >= w {
                cwc % w
            } else {
                cwc
            };
            proof {
                assert(step as nat == (cwc as nat) % (w as nat)) by {
                    if cwc < w {
                        vstd::arithmetic::div_mod::lemma_small_mod(cwc as nat, w as nat);
                    }
                }
            }
            let new_mod = if col_mod >= w - step {
                col_mod - (w - step)
            } else {
                col_mod + step
            };
            proof {
                let wi = w as int;
                let old_col = col as int;
                col = col + char_column_width(c);
                assert(new_mod as int == (col as int) % wi) by {
                    vstd::arithmetic::div_mod::lemma_add_mod_noop(old_col, cwc as int, wi);
                    let t = col_mod as int + step as int;
                    assert(t % wi == (col as int) % wi);
                    if t >= wi {
                        vstd::arithmetic::div_mod::lemma_mod_add_multiples_vanish(t - wi, wi);
                        vstd::arithmetic::div_mod::lemma_small_mod((t - wi) as nat, w as nat);
                    } else {
                        vstd::arithmetic::div_mod::lemma_small_mod(t as nat, w as nat);
                    }
                }
            }
            col_mod = new_mod;
        }
        i = i + 1;
    }
    proof {
        assert(s.skip(n as int) =~= Seq::<char>::empty());
        assert(out@ + expand_tabs_rec(Seq::<char>::empty(), col, w as nat) =~= out@);
    }
    chars_string(&out)
}

/// What Unicode lowercasing returns for a text: a function of the
/// characters alone.
pub uninterp spec fn lower_of(s: Seq<char>) -> Seq<char>;

/// Relies on `str::to_lowercase`: Unicode lowercasing, a function of the
/// characters alone.
#[verifier::external_body]
pub(crate) fn str_to_lowercase(s: &str) -> (r: String)
    ensures
        r@ == lower_of(s@),
{
    s.to_lowercase()
}

/// The extension of a path, scanning the file part from its end with the
/// characters gathered so far: a slash means there is none, a dot yields the
/// gathered characters provided the name does not begin at that dot.
pub open spec fn extension_rec(p: Seq<char>, acc: Seq<char>) -> Option<Seq<char>>
    decreases p.len(),
{
    if p.len() == 0 {
        None
    } else if p.last() == '/' {
        None
    } else if p.last() == '.' {
        if p.len() >= 2 && p[p.len() - 2] != '/' {
            Some(acc)
        } else {
            None
        }
    } else {
        extension_rec(p.drop_last(), seq![p.last()] + acc)
    }
}

/// The extension of a path: what follows the last dot of its file part, if
/// the file part has a dot after its first character.
pub open spec fn extension_of(p: Seq<char>) -> Option<Seq<char>> {
    extension_rec(p, Seq::empty())
}

/// Detect the file extension of a path, lowercased.
pub fn detect_extension(path: &str) -> (r: Option<String>)
    ensures
        (r is Some) == (extension_of(path@) is Some),
        r matches Some(e) ==> extension_of(path@) matches Some(raw) && e@ == lower_of(raw),
{
    let chars = str_chars(path);
    let ghost s = chars@;
    let n = chars.len();
    let mut j: usize = n;
    proof {
        assert(s.skip(n as int) =~= Seq::<char>::empty());
        assert(s.take(n as int) =~= s);
    }
    while j > 0
        invariant
            j <= n,
            n == chars.len(),
            s == chars@,
            s == path@,
            extension_of(s) == extension_rec(s.take(j as int), s.skip(j as int)),
        decreases j,
    {
        let c = chars[j - 1];
        proof {
            assert(s.take(j as int).last() == s[j - 1]);
            assert(s.take(j as int).drop_last() =~= s.take(j - 1));
            assert(seq![s[j - 1]] + s.skip(j as int) =~= s.skip(j - 1));
        }
        if c == '/' {
            proof {
                assert(s.take(j as int).len() == j);
                assert(extension_of(s) is None);
            }
            return None;
        } else if c == '.' {
            if j >= 2 && chars[j - 2] != '/' {
                proof {
                    assert(s.take(j as int)[j - 2] == s[j - 2]);
                    assert(extension_of(s) == Some(s.skip(j as int)));
                }
                let mut ext: Vec<char> = Vec::new();
                let mut k: usize = j;
                while k < n
                    invariant
                        j <= k <= n,
                        n == chars.len(),
                        s == chars@,
                        ext@ == s.subrange(j as int, k as int),
                    decreases n - k,
                {
                    ext.push(chars[k]);
                    proof {
                        assert(ext@ =~= s.subrange(j as int, k + 1));
                    }
                    k = k + 1;
                }
                proof {
                    assert(ext@ =~= s.skip(j as int));
                }
                let raw = chars_string(&ext);
                return Some(str_to_lowercase(raw.as_str()));
            } else {
                return None;
            }
        }
        j = j - 1;
    }
    proof {
        assert(s.take(0) =~= Seq::<char>::empty());
    }
    None
}

/// The file-name segment after the last dot, gathering characters from the
/// end until a dot; a name without a dot comes back whole.
pub open spec fn after_last_dot_rec(p: Seq<char>, acc: Seq<char>) -> Seq<char>
    decreases p.len(),
{
    if p.len() == 0 {
        acc
    } else if p.last() == '.' {
        acc
    } else {
        after_last_dot_rec(p.drop_last(), seq![p.last()] + acc)
    }
}

/// The segment after the last dot.
pub open spec fn after_last_dot(p: Seq<char>) -> Seq<char> {
    after_last_dot_rec(p, Seq::empty())
}

/// The segment of a name after its last dot, or the whole name without one.
pub fn after_last_dot_str(name: &str) -> (r: String)
    ensures
        r@ == after_last_dot(name@),
{
    let chars = str_chars(name);
    let ghost s = chars@;
    let n = chars.len();
    let mut j: usize = n;
    proof {
        assert(s.skip(n as int) =~= Seq::<char>::empty());
        assert(s.take(n as int) =~= s);
    }
    while j > 0
        invariant
            j <= n,
            n == chars@.len(),
            s == chars@,
            after_last_dot(s) == after_last_dot_rec(s.take(j as int), s.skip(j as int)),
        ensures
            j <= n,
            s == chars@,
            after_last_dot(s) == s.skip(j as int),
        decreases j,
    {
        let c = chars[j - 1];
        proof {
            assert(s.take(j as int).last() == s[j - 1]);
            assert(s.take(j as int).drop_last() =~= s.take(j - 1));
            assert(seq![s[j - 1]] + s.skip(j as int) =~= s.skip(j - 1));
        }
        if c == '.' {
            break ;
        }
        j = j - 1;
        proof {
            if j == 0 {
                assert(s.take(0) =~= Seq::<char>::empty());
            }
        }
    }
    let piece = crate::text::copy_range(&chars, j, n);
    proof {
        if j == 0 {
            assert(s.take(0) =~= Seq::<char>::empty());
        }
        assert(piece@ =~= s.skip(j as int));
        assert(after_last_dot(s) == s.skip(j as int));
    }
    chars_string(&piece)
}

/// Whether an extension names a markdown file.
pub open spec fn is_markdown_extension_spec(e: Seq<char>) -> bool {
    e == "md"@ || e == "markdown"@ || e == "mdown"@ || e == "mkd"@ || e == "mkdn"@
}

/// Check whether an extension indicates a markdown file.
pub fn is_markdown_extension(ext: &str) -> (r: bool)
    ensures
        r == is_markdown_extension_spec(ext@),
{
    str_eq(ext, "md") || str_eq(ext, "markdown") || str_eq(ext, "mdown") || str_eq(ext, "mkd")
        || str_eq(ext, "mkdn")
}

/// Relies on `std::io::IsTerminal` for standard input: whether it is
/// attached to a terminal; the answer depends on the process's environment,
/// so nothing is promised of it.
#[verifier::external_body]
pub fn is_stdin_piped() -> bool {
    !std::io::IsTerminal::is_terminal(&std::io::stdin())
}

/// Where the input comes from.
#[derive(Debug, Clone)]
pub enum InputSource {
    /// Read from a file at this path.
    File(String),
    /// Read from standard input.
    Stdin,
}

/// Determine the input source from the arguments: an explicit `-` or, with
/// no file given, a piped standard input select stdin; no file and a
/// terminal on stdin select nothing.
pub fn determine_input_source(args: &Args) -> (r: Option<InputSource>)
    ensures
        args.file matches Some(p) ==> if p@ == "-"@ {
            r == Some(InputSource::Stdin)
        } else {
            r matches Some(src) && src matches InputSource::File(q) && q@ == p@
        },
        args.file is None ==> r == Some(InputSource::Stdin) || r is None,
{
    match &args.file {
        Some(p) => {
            if str_eq(p.as_str(), "-") {
                Some(InputSource::Stdin)
            } else {
                Some(InputSource::File(p.clone()))
            }
        },
        None => {
            if is_stdin_piped() {
                Some(InputSource::Stdin)
            } else {
                None
            }
        },
    }
}

/// Loaded content: the decoded, cleaned text and its metadata.
#[derive(Debug)]
pub struct Content {
    /// The text after decoding, ANSI stripping, and tab expansion.
    pub text: String,
    /// Name of the source: the file path, or `stdin`.
    pub source_name: String,
    /// The file extension, if any, lowercased.
    pub extension: Option<String>,
    /// Whether the content should be rendered as markdown.
    pub is_markdown: bool,
    /// The detected encoding tag.
    pub encoding: String,
}

/// The decoded characters of raw input bytes, under the detected encoding.
pub open spec fn decoded_spec(b: Seq<u8>) -> Seq<char> {
    if has_utf8_bom(b) {
        utf8_lossy_of(b.skip(3))
    } else if has_utf16le_bom(b) {
        utf16le_of(b)
    } else if has_utf16be_bom(b) {
        utf16be_of(b)
    } else if valid_utf8(b) {
        decode_utf8(b)
    } else {
        win1252_of(b)
    }
}

/// The tab width every document is expanded with.
pub const TAB_WIDTH: usize = 4;

/// Whether loaded content counts as markdown, from the flags and the
/// extension.
pub open spec fn markdown_flag_spec(args: Args, extension: Option<Seq<char>>) -> bool {
    if args.no_markdown {
        false
    } else if args.markdown {
        true
    } else {
        extension matches Some(e) && is_markdown_extension_spec(e)
    }
}

/// Build content from raw input bytes: refuse binary input unless forced,
/// then decode under the detected encoding, strip ANSI escapes unless they
/// are preserved, and expand tabs.
pub fn load_content(
    raw_bytes: &Vec<u8>,
    source_name: &str,
    extension: &Option<String>,
    args: &Args,
) -> (r: Result<Content, MatError>)
    ensures
        (r is Err) == (!args.force_binary && is_binary_spec(raw_bytes@)),
        r matches Err(e) ==> e matches MatError::BinaryFile { path } && path@ == source_name@,
        r matches Ok(c) ==> {
            let decoded = decoded_spec(raw_bytes@);
            let cleaned = if args.ansi {
                decoded
            } else {
                strip_ansi_spec(decoded)
            };
            &&& c.text@ == expand_tabs_spec(cleaned, TAB_WIDTH as nat)
            &&& c.source_name@ == source_name@
            &&& c.encoding@ == encoding_tag_spec(raw_bytes@)
            &&& c.extension == *extension
            &&& c.is_markdown == markdown_flag_spec(
                *args,
                match *extension {
                    Some(e) => Some(e@),
                    None => None,
                },
            )
        },
{
    if !args.force_binary && is_binary(raw_bytes.as_slice()) {
        return Err(MatError::BinaryFile { path: source_name.to_owned() });
    }
    let encoding_name = detect_encoding(raw_bytes.as_slice());
    let text = match decode_bytes(raw_bytes, encoding_name) {
        Ok(t) => t,
        Err(e) => {
            return Err(e);
        },
    };
    proof {
        reveal_strlit("UTF-8");
        reveal_strlit("UTF-8-BOM");
        reveal_strlit("UTF-16LE");
        reveal_strlit("UTF-16BE");
        reveal_strlit("Latin-1");
        assert("UTF-8"@.len() == 5);
        assert("UTF-8-BOM"@.len() == 9);
        assert("UTF-16LE"@.len() == 8);
        assert("UTF-16BE"@.len() == 8);
        assert("Latin-1"@.len() == 7);
        assert("UTF-8"@ != "UTF-8-BOM"@) by {
            assert("UTF-8"@.len() != "UTF-8-BOM"@.len());
        }
        assert("UTF-8"@ != "UTF-16LE"@) by {
            assert("UTF-8"@.len() != "UTF-16LE"@.len());
        }
        assert("UTF-8"@ != "UTF-16BE"@) by {
            assert("UTF-8"@.len() != "UTF-16BE"@.len());
        }
        assert("UTF-8"@ != "Latin-1"@) by {
            assert("UTF-8"@.len() != "Latin-1"@.len());
        }
        assert("UTF-8-BOM"@ != "UTF-16LE"@) by {
            assert("UTF-8-BOM"@.len() != "UTF-16LE"@.len());
        }
        assert("UTF-8-BOM"@ != "UTF-16BE"@) by {
            assert("UTF-8-BOM"@.len() != "UTF-16BE"@.len());
        }
        assert("UTF-8-BOM"@ != "Latin-1"@) by {
            assert("UTF-8-BOM"@.len() != "Latin-1"@.len());
        }
        assert("UTF-16LE"@ != "UTF-16BE"@) by {
            assert("UTF-16LE"@[4] == '1');
            assert("UTF-16LE"@[6] == 'L');
            assert("UTF-16BE"@[6] == 'B');
        }
        assert("UTF-16LE"@ != "Latin-1"@) by {
            assert("UTF-16LE"@.len() != "Latin-1"@.len());
        }
        assert("UTF-16BE"@ != "Latin-1"@) by {
            assert("UTF-16BE"@.len() != "Latin-1"@.len());
        }
        assert(text@ == decoded_spec(raw_bytes@));
    }
    let text = if args.ansi {
        text
    } else {
        strip_ansi(text.as_str())
    };
    let text = expand_tabs(text.as_str(), TAB_WIDTH);
    let is_markdown = if args.no_markdown {
        false
    } else if args.markdown {
        true
    } else {
        match extension {
            Some(e) => is_markdown_extension(e.as_str()),
            None => false,
        }
    };
    Ok(
        Content {
            text,
            source_name: source_name.to_owned(),
            extension: clone_opt_string(extension),
            is_markdown,
            encoding: encoding_name.to_owned(),
        },
    )
}

/// Clone an optional string.
fn clone_opt_string(o: &Option<String>) -> (r: Option<String>)
    ensures
        r == *o,
{
    match o {
        Some(s) => Some(s.clone()),
        None => None,
    }
}

/// Byte offsets of each line start in a buffer, plus an end marker: offset
/// zero, one offset just after every line feed, and the buffer length if it
/// is not already last.
pub open spec fn newline_offsets(d: Seq<u8>) -> Seq<u64>
    decreases d.len(),
{
    if d.len() == 0 {
        Seq::empty()
    } else if d.last() == 0x0A {
        newline_offsets(d.drop_last()).push(d.len() as u64)
    } else {
        newline_offsets(d.drop_last())
    }
}

/// The full line-offset index of a buffer.
pub open spec fn line_offsets_spec(d: Seq<u8>) -> Seq<u64> {
    let base = seq![0u64] + newline_offsets(d);
    if base.last() != d.len() as u64 {
        base.push(d.len() as u64)
    } else {
        base
    }
}

/// Build the line-offset index of a buffer, for offset-addressed access to
/// its lines.
pub fn build_line_offsets(data: &[u8]) -> (r: Vec<u64>)
    ensures
        r@ == line_offsets_spec(data@),
{
    let n = data.len();
    let mut offsets: Vec<u64> = Vec::new();
    offsets.push(0);
    let mut i: usize = 0;
    proof {
        assert(offsets@ =~= seq![0u64] + newline_offsets(data@.take(0)));
    }
    while i < n
        invariant
            i <= n,
            n == data@.len(),
            offsets@ == seq![0u64] + newline_offsets(data@.take(i as int)),
            offsets@.len() >= 1,
        decreases n - i,
    {
        let b = *slice_index_get(data, i);
        proof {
            assert(data@.take(i + 1).drop_last() =~= data@.take(i as int));
            assert(data@.take(i + 1).last() == data@[i as int]);
        }
        if b == 0x0A {
            offsets.push((i + 1) as u64);
        }
        i = i + 1;
    }
    proof {
        assert(data@.take(n as int) =~= data@);
    }
    let last = offsets[offsets.len() - 1];
    if last != n as u64 {
        offsets.push(n as u64);
    }
    offsets
}

} // verus!
