//! The pattern engine: one regex flavor built from the user's flags, and the
//! trusted boundary to the regex crate.

use vstd::prelude::*;

use crate::cli::Args;
use crate::error::MatError;

verus! {

#[verifier::external_type_specification]
#[verifier::external_body]
pub struct ExRegex(regex::Regex);

#[verifier::external_type_specification]
#[verifier::external_body]
pub struct ExRegexError(regex::Error);

/// What `regex::escape` returns for a pattern: a function of the pattern
/// alone.
pub uninterp spec fn regex_escaped(p: Seq<char>) -> Seq<char>;

/// Whether `regex::Regex::new` accepts a pattern: a function of the pattern
/// alone.
pub uninterp spec fn regex_builds(p: Seq<char>) -> bool;

/// Whether a compiled pattern matches anywhere in a text: a function of the
/// pattern and the text.
pub uninterp spec fn regex_matches(p: Seq<char>, text: Seq<char>) -> bool;

/// The match ranges of a pattern over a text, as character offsets: a
/// function of the pattern and the text.
pub uninterp spec fn regex_match_ranges(p: Seq<char>, text: Seq<char>) -> Seq<(usize, usize)>;

/// Relies on `regex::escape`: quotes every regex metacharacter; the result
/// depends on the pattern text alone.
#[verifier::external_body]
pub(crate) fn regex_escape(p: &str) -> (r: String)
    ensures
        r@ == regex_escaped(p@),
{
    regex::escape(p)
}

/// A compiled pattern, paired with the pattern text it was compiled from.
pub struct Pattern {
    re: regex::Regex,
    source: String,
}

impl Pattern {
    /// The pattern text this regex was compiled from.
    pub closed spec fn pat(self) -> Seq<char> {
        self.source@
    }

    /// Whether this pattern matches anywhere in the text.
    pub fn matches(&self, text: &str) -> (r: bool)
        ensures
            r == regex_matches(self.pat(), text@),
    {
        pattern_is_match(self, text)
    }

    /// The character ranges this pattern matches in the text, in order,
    /// within bounds, sorted, and non-overlapping; nonempty exactly when the
    /// pattern matches.
    pub fn find_ranges(&self, text: &str) -> (r: Vec<(usize, usize)>)
        ensures
            r@ == regex_match_ranges(self.pat(), text@),
            forall|i: int| 0 <= i < r@.len() ==> (#[trigger] r@[i]).0 <= r@[i].1 <= text@.len(),
            forall|i: int| 0 <= i < r@.len() - 1 ==> (#[trigger] r@[i]).1 <= r@[i + 1].0,
            r@.len() > 0 <==> regex_matches(self.pat(), text@),
    {
        pattern_find_ranges(self, text)
    }
}

/// Relies on `regex::Regex::new`: whether a pattern compiles depends on the
/// pattern alone; on success the compiled regex is paired with the pattern
/// text it came from.
#[verifier::external_body]
pub(crate) fn pattern_new(p: &str) -> (r: Result<Pattern, regex::Error>)
    ensures
        r is Ok <==> regex_builds(p@),
        r matches Ok(pt) ==> pt.pat() == p@,
{
    match regex::Regex::new(p) {
        Ok(re) => Ok(Pattern { re, source: p.to_owned() }),
        Err(e) => Err(e),
    }
}

/// Relies on `regex::Regex::is_match`: whether the pattern matches anywhere
/// in the text; a function of the pattern and the text.
#[verifier::external_body]
pub(crate) fn pattern_is_match(p: &Pattern, text: &str) -> (r: bool)
    ensures
        r == regex_matches(p.pat(), text@),
{
    p.re.is_match(text)
}

/// Relies on `regex::Regex::find_iter`: successive non-overlapping matches,
/// leftmost first; the byte offsets, which the regex engine keeps on UTF-8
/// boundaries, are converted here to character offsets. The ranges lie
/// within the text, are sorted, and do not overlap; at least one range comes
/// back if and only if the pattern matches the text.
#[verifier::external_body]
pub(crate) fn pattern_find_ranges(p: &Pattern, text: &str) -> (r: Vec<(usize, usize)>)
    ensures
        r@ == regex_match_ranges(p.pat(), text@),
        forall|i: int| 0 <= i < r@.len() ==> (#[trigger] r@[i]).0 <= r@[i].1 <= text@.len(),
        forall|i: int| 0 <= i < r@.len() - 1 ==> (#[trigger] r@[i]).1 <= r@[i + 1].0,
        r@.len() > 0 <==> regex_matches(p.pat(), text@),
{
    let mut out = Vec::new();
    for m in p.re.find_iter(text) {
        let s = text[..m.start()].chars().count();
        let e = s + text[m.start()..m.end()].chars().count();
        out.push((s, e));
    }
    out
}

/// The pattern text after applying the user's flags, in order: quote
/// metacharacters, wrap in word boundaries, wrap in line anchors, prepend
/// the case-insensitivity flag.
pub open spec fn flavored_pattern_spec(
    p: Seq<char>,
    ignore_case: bool,
    fixed_strings: bool,
    word_regexp: bool,
    line_regexp: bool,
) -> Seq<char> {
    let p1 = if fixed_strings {
        regex_escaped(p)
    } else {
        p
    };
    let p2 = if word_regexp {
        "\\b"@ + p1 + "\\b"@
    } else {
        p1
    };
    let p3 = if line_regexp {
        "^"@ + p2 + "$"@
    } else {
        p2
    };
    if ignore_case {
        "(?i)"@ + p3
    } else {
        p3
    }
}

/// Build the regex pattern text for the given flags.
pub fn build_regex_pattern(
    pattern: &str,
    ignore_case: bool,
    fixed_strings: bool,
    word_regexp: bool,
    line_regexp: bool,
) -> (r: String)
    ensures
        r@ == flavored_pattern_spec(
            pattern@,
            ignore_case,
            fixed_strings,
            word_regexp,
            line_regexp,
        ),
{
    let mut s: String = if fixed_strings {
        regex_escape(pattern)
    } else {
        pattern.to_owned()
    };
    if word_regexp {
        let mut t = String::from_str("\\b");
        t.append(s.as_str());
        t.append("\\b");
        s = t;
    }
    if line_regexp {
        let mut t = String::from_str("^");
        t.append(s.as_str());
        t.append("$");
        s = t;
    }
    if ignore_case {
        let mut t = String::from_str("(?i)");
        t.append(s.as_str());
        s = t;
    }
    s
}

/// Compile the user's pattern under the flags in `args`. The result is `Ok`
/// exactly when the flavored pattern compiles; a failure carries the
/// original pattern and the regex error.
pub fn build_regex(pattern: &str, args: &Args) -> (r: Result<Pattern, MatError>)
    ensures
        ({
            let flavored = flavored_pattern_spec(
                pattern@,
                args.ignore_case,
                args.fixed_strings,
                args.word_regexp,
                args.line_regexp,
            );
            &&& r is Ok <==> regex_builds(flavored)
            &&& r matches Ok(pt) ==> pt.pat() == flavored
            &&& r matches Err(e) ==> e matches MatError::InvalidRegex { pattern: ep, .. }
                && ep@ == pattern@
        }),
{
    let flavored = build_regex_pattern(
        pattern,
        args.ignore_case,
        args.fixed_strings,
        args.word_regexp,
        args.line_regexp,
    );
    match pattern_new(flavored.as_str()) {
        Ok(p) => Ok(p),
        Err(e) => Err(MatError::InvalidRegex { pattern: pattern.to_owned(), cause: e }),
    }
}

} // verus!
