//! The syntax colorer: grammar selection is the library's own logic; the
//! stateful tokenizer is the highlighting crate's, behind trusted items.

use vstd::prelude::*;
use vstd::string::StrSliceExecFns;

use crate::ingest::after_last_dot;
use crate::ingest::lower_of;
use crate::ingest::str_to_lowercase;
use crate::line::spans_text;
use crate::line::wf_spans;
use crate::line::Document;
use crate::line::StyledSpan;
use crate::theme::Theme;

verus! {

/// The grammar name an extension maps to, over roughly forty common
/// languages.
pub open spec fn language_for_spec(e: Seq<char>) -> Option<Seq<char>> {
    if e == "rs"@ {
        Some("Rust"@)
    } else if e == "py"@ {
        Some("Python"@)
    } else if e == "js"@ {
        Some("JavaScript"@)
    } else if e == "ts"@ {
        Some("TypeScript"@)
    } else if e == "tsx"@ {
        Some("TypeScript"@)
    } else if e == "jsx"@ {
        Some("JavaScript"@)
    } else if e == "c"@ {
        Some("C"@)
    } else if e == "h"@ {
        Some("C"@)
    } else if e == "cpp"@ || e == "cc"@ || e == "cxx"@ {
        Some("C++"@)
    } else if e == "hpp"@ || e == "hh"@ || e == "hxx"@ {
        Some("C++"@)
    } else if e == "go"@ {
        Some("Go"@)
    } else if e == "java"@ {
        Some("Java"@)
    } else if e == "rb"@ {
        Some("Ruby"@)
    } else if e == "sh"@ || e == "bash"@ {
        Some("Bash"@)
    } else if e == "zsh"@ {
        Some("Bash"@)
    } else if e == "json"@ {
        Some("JSON"@)
    } else if e == "yaml"@ || e == "yml"@ {
        Some("YAML"@)
    } else if e == "toml"@ {
        Some("TOML"@)
    } else if e == "xml"@ {
        Some("XML"@)
    } else if e == "html"@ || e == "htm"@ {
        Some("HTML"@)
    } else if e == "css"@ {
        Some("CSS"@)
    } else if e == "sql"@ {
        Some("SQL"@)
    } else if e == "md"@ || e == "markdown"@ {
        Some("Markdown"@)
    } else if e == "php"@ {
        Some("PHP"@)
    } else if e == "swift"@ {
        Some("Swift"@)
    } else if e == "kt"@ || e == "kts"@ {
        Some("Kotlin"@)
    } else if e == "scala"@ {
        Some("Scala"@)
    } else if e == "r"@ {
        Some("R"@)
    } else if e == "lua"@ {
        Some("Lua"@)
    } else if e == "pl"@ || e == "pm"@ {
        Some("Perl"@)
    } else if e == "hs"@ {
        Some("Haskell"@)
    } else if e == "elm"@ {
        Some("Elm"@)
    } else if e == "erl"@ {
        Some("Erlang"@)
    } else if e == "ex"@ || e == "exs"@ {
        Some("Elixir"@)
    } else if e == "clj"@ || e == "cljs"@ {
        Some("Clojure"@)
    } else if e == "fs"@ || e == "fsx"@ {
        Some("F#"@)
    } else if e == "cs"@ {
        Some("C#"@)
    } else if e == "vb"@ {
        Some("Visual Basic"@)
    } else if e == "ps1"@ || e == "psm1"@ {
        Some("PowerShell"@)
    } else if e == "dockerfile"@ {
        Some("Dockerfile"@)
    } else if e == "makefile"@ || e == "mk"@ {
        Some("Makefile"@)
    } else if e == "cmake"@ {
        Some("CMake"@)
    } else if e == "tf"@ {
        Some("Terraform"@)
    } else if e == "vim"@ {
        Some("VimL"@)
    } else if e == "diff"@ || e == "patch"@ {
        Some("Diff"@)
    } else if e == "ini"@ || e == "cfg"@ {
        Some("INI"@)
    } else if e == "csv"@ {
        Some("CSV"@)
    } else {
        None
    }
}

/// Map a lowercased extension to its grammar name.
fn language_for(ext: &str) -> (r: Option<&'static str>)
    ensures
        r is Some <==> language_for_spec(ext@) is Some,
        r matches Some(l) ==> language_for_spec(ext@) == Some(l@),
{
    if crate::ingest::str_eq(ext, "rs") {
        Some("Rust")
    } else if crate::ingest::str_eq(ext, "py") {
        Some("Python")
    } else if crate::ingest::str_eq(ext, "js") {
        Some("JavaScript")
    } else if crate::ingest::str_eq(ext, "ts") {
        Some("TypeScript")
    } else if crate::ingest::str_eq(ext, "tsx") {
        Some("TypeScript")
    } else if crate::ingest::str_eq(ext, "jsx") {
        Some("JavaScript")
    } else if crate::ingest::str_eq(ext, "c") {
        Some("C")
    } else if crate::ingest::str_eq(ext, "h") {
        Some("C")
    } else if crate::ingest::str_eq(ext, "cpp") || crate::ingest::str_eq(ext, "cc") || crate::ingest::str_eq(ext, "cxx") {
        Some("C++")
    } else if crate::ingest::str_eq(ext, "hpp") || crate::ingest::str_eq(ext, "hh") || crate::ingest::str_eq(ext, "hxx") {
        Some("C++")
    } else if crate::ingest::str_eq(ext, "go") {
        Some("Go")
    } else if crate::ingest::str_eq(ext, "java") {
        Some("Java")
    } else if crate::ingest::str_eq(ext, "rb") {
        Some("Ruby")
    } else if crate::ingest::str_eq(ext, "sh") || crate::ingest::str_eq(ext, "bash") {
        Some("Bash")
    } else if crate::ingest::str_eq(ext, "zsh") {
        Some("Bash")
    } else if crate::ingest::str_eq(ext, "json") {
        Some("JSON")
    } else if crate::ingest::str_eq(ext, "yaml") || crate::ingest::str_eq(ext, "yml") {
        Some("YAML")
    } else if crate::ingest::str_eq(ext, "toml") {
        Some("TOML")
    } else if crate::ingest::str_eq(ext, "xml") {
        Some("XML")
    } else if crate::ingest::str_eq(ext, "html") || crate::ingest::str_eq(ext, "htm") {
        Some("HTML")
    } else if crate::ingest::str_eq(ext, "css") {
        Some("CSS")
    } else if crate::ingest::str_eq(ext, "sql") {
        Some("SQL")
    } else if crate::ingest::str_eq(ext, "md") || crate::ingest::str_eq(ext, "markdown") {
        Some("Markdown")
    } else if crate::ingest::str_eq(ext, "php") {
        Some("PHP")
    } else if crate::ingest::str_eq(ext, "swift") {
        Some("Swift")
    } else if crate::ingest::str_eq(ext, "kt") || crate::ingest::str_eq(ext, "kts") {
        Some("Kotlin")
    } else if crate::ingest::str_eq(ext, "scala") {
        Some("Scala")
    } else if crate::ingest::str_eq(ext, "r") {
        Some("R")
    } else if crate::ingest::str_eq(ext, "lua") {
        Some("Lua")
    } else if crate::ingest::str_eq(ext, "pl") || crate::ingest::str_eq(ext, "pm") {
        Some("Perl")
    } else if crate::ingest::str_eq(ext, "hs") {
        Some("Haskell")
    } else if crate::ingest::str_eq(ext, "elm") {
        Some("Elm")
    } else if crate::ingest::str_eq(ext, "erl") {
        Some("Erlang")
    } else if crate::ingest::str_eq(ext, "ex") || crate::ingest::str_eq(ext, "exs") {
        Some("Elixir")
    } else if crate::ingest::str_eq(ext, "clj") || crate::ingest::str_eq(ext, "cljs") {
        Some("Clojure")
    } else if crate::ingest::str_eq(ext, "fs") || crate::ingest::str_eq(ext, "fsx") {
        Some("F#")
    } else if crate::ingest::str_eq(ext, "cs") {
        Some("C#")
    } else if crate::ingest::str_eq(ext, "vb") {
        Some("Visual Basic")
    } else if crate::ingest::str_eq(ext, "ps1") || crate::ingest::str_eq(ext, "psm1") {
        Some("PowerShell")
    } else if crate::ingest::str_eq(ext, "dockerfile") {
        Some("Dockerfile")
    } else if crate::ingest::str_eq(ext, "makefile") || crate::ingest::str_eq(ext, "mk") {
        Some("Makefile")
    } else if crate::ingest::str_eq(ext, "cmake") {
        Some("CMake")
    } else if crate::ingest::str_eq(ext, "tf") {
        Some("Terraform")
    } else if crate::ingest::str_eq(ext, "vim") {
        Some("VimL")
    } else if crate::ingest::str_eq(ext, "diff") || crate::ingest::str_eq(ext, "patch") {
        Some("Diff")
    } else if crate::ingest::str_eq(ext, "ini") || crate::ingest::str_eq(ext, "cfg") {
        Some("INI")
    } else if crate::ingest::str_eq(ext, "csv") {
        Some("CSV")
    } else {
        None
    }
}

/// Detect the grammar name for a file name: the segment after its last
/// dot (or the whole name), lowercased, looked up in the extension table.
pub fn detect_language(filename: &str) -> (r: Option<&'static str>)
    ensures
        r is Some <==> language_for_spec(lower_of(after_last_dot(filename@))) is Some,
        r matches Some(l) ==> language_for_spec(lower_of(after_last_dot(filename@))) == Some(
            l@,
        ),
{
    let tail = crate::ingest::after_last_dot_str(filename);
    let lowered = str_to_lowercase(tail.as_str());
    language_for(lowered.as_str())
}

/// The highlighting theme name for a UI theme.
pub fn syntect_theme_name(theme: Theme) -> (r: &'static str)
    ensures
        theme is Light ==> r@ == "base16-ocean.light"@,
        theme is Dark ==> r@ == "base16-ocean.dark"@,
{
    match theme {
        Theme::Light => "base16-ocean.light",
        Theme::Dark => "base16-ocean.dark",
    }
}

#[verifier::external_type_specification]
#[verifier::external_body]
pub struct ExSyntaxSet(syntect::parsing::SyntaxSet);

#[verifier::external_type_specification]
#[verifier::external_body]
pub struct ExSyntaxReference(syntect::parsing::SyntaxReference);

#[verifier::external_type_specification]
#[verifier::external_body]
pub struct ExThemeSet(syntect::highlighting::ThemeSet);

#[verifier::external_type_specification]
#[verifier::external_body]
pub struct ExSynError(syntect::Error);

#[verifier::external_type_specification]
#[verifier::external_body]
pub struct ExHighlightLines<'a>(syntect::easy::HighlightLines<'a>);

/// Relies on `SyntaxSet::load_defaults_newlines`: the bundled grammar set.
#[verifier::external_body]
fn load_syntax_set() -> syntect::parsing::SyntaxSet {
    syntect::parsing::SyntaxSet::load_defaults_newlines()
}

/// Relies on `ThemeSet::load_defaults`: the bundled theme set.
#[verifier::external_body]
fn load_theme_set() -> syntect::highlighting::ThemeSet {
    syntect::highlighting::ThemeSet::load_defaults()
}

/// Relies on `SyntaxSet::find_syntax_by_name`: the grammar of that name, if
/// the set holds one.
#[verifier::external_body]
fn find_syntax_by_name<'a>(ss: &'a syntect::parsing::SyntaxSet, name: &str) -> Option<
    &'a syntect::parsing::SyntaxReference,
> {
    ss.find_syntax_by_name(name)
}

/// Relies on `SyntaxSet::find_syntax_by_extension`: the grammar registered
/// for that extension, if any.
#[verifier::external_body]
fn find_syntax_by_extension<'a>(ss: &'a syntect::parsing::SyntaxSet, ext: &str) -> Option<
    &'a syntect::parsing::SyntaxReference,
> {
    ss.find_syntax_by_extension(ext)
}

/// Relies on the theme set's map lookup and `HighlightLines::new`: a
/// stateful tokenizer for the grammar under the named theme, or nothing
/// when the set lacks that theme. The lookup and the construction share one
/// wrapper because the theme value's own type cannot be declared here.
#[verifier::external_body]
fn highlighter_new<'a>(
    syntax: &syntect::parsing::SyntaxReference,
    ts: &'a syntect::highlighting::ThemeSet,
    name: &str,
) -> Option<syntect::easy::HighlightLines<'a>> {
    let theme = ts.themes.get(name)?;
    Some(syntect::easy::HighlightLines::new(syntax, theme))
}

/// Relies on `HighlightLines::highlight_line`: styled regions that cover
/// the line in order, so their texts concatenate back to the line;
/// each region's color becomes an RGB foreground and its font-style bits
/// become the three attributes, with the background dropped. The tokenizer
/// carries state across lines, so only that covering fact is promised.
#[verifier::external_body]
fn highlight_tokens(
    hl: &mut syntect::easy::HighlightLines,
    text: &str,
    ss: &syntect::parsing::SyntaxSet,
) -> (r: Result<Vec<StyledSpan>, syntect::Error>)
    ensures
        r matches Ok(spans) ==> spans_text(spans@) == text@,
        r matches Ok(spans) ==> (forall|i: int|
            0 <= i < spans@.len() ==> (#[trigger] spans@[i]).style.bg is None),
{
    let ranges = hl.highlight_line(text, ss)?;
    Ok(ranges.into_iter().map(|(st, t)| StyledSpan {
        text: t.to_string(),
        style: crate::style::SpanStyle {
            fg: Some(crate::style::Color::Rgb(st.foreground.r, st.foreground.g, st.foreground.b)),
            bg: None,
            bold: st.font_style.contains(syntect::highlighting::FontStyle::BOLD),
            italic: st.font_style.contains(syntect::highlighting::FontStyle::ITALIC),
            underline: st.font_style.contains(syntect::highlighting::FontStyle::UNDERLINE),
        },
    }).collect())
}

/// Drop empty spans, keeping the text.
fn drop_empty_spans(spans: Vec<StyledSpan>) -> (r: Vec<StyledSpan>)
    ensures
        spans_text(r@) == spans_text(spans@),
        wf_spans(r@),
        (forall|i: int| 0 <= i < spans@.len() ==> (#[trigger] spans@[i]).style.bg is None)
            ==> (forall|i: int| 0 <= i < r@.len() ==> (#[trigger] r@[i]).style.bg is None),
{
    let n = spans.len();
    let mut r: Vec<StyledSpan> = Vec::new();
    let mut i: usize = 0;
    proof {
        assert(spans@.take(0) =~= Seq::<StyledSpan>::empty());
        assert(spans_text(r@) =~= spans_text(spans@.take(0)));
    }
    while i < n
        invariant
            i <= n,
            n == spans@.len(),
            wf_spans(r@),
            spans_text(r@) == spans_text(spans@.take(i as int)),
            (forall|k: int| 0 <= k < n ==> (#[trigger] spans@[k]).style.bg is None) ==> (
            forall|k: int| 0 <= k < r@.len() ==> (#[trigger] r@[k]).style.bg is None),
        decreases n - i,
    {
        let keep = spans[i].text.as_str().unicode_len() > 0;
        proof {
            assert(spans@.take(i + 1).drop_last() =~= spans@.take(i as int));
            assert(spans@.take(i + 1).last() == spans@[i as int]);
        }
        if keep {
            let ghost before = r@;
            let s = &spans[i];
            r.push(StyledSpan { text: s.text.clone(), style: s.style });
            proof {
                assert(r@.drop_last() =~= before);
                assert forall|k: int| 0 <= k < r@.len() implies (#[trigger] r@[k]).text@.len()
                    > 0 by {
                    if k < before.len() {
                        assert(r@[k] == before[k]);
                    }
                }
                assert(spans_text(r@) =~= spans_text(spans@.take(i + 1)));
            }
        } else {
            proof {
                assert(spans_text(spans@.take(i + 1)) =~= spans_text(spans@.take(i as int)));
            }
        }
        i = i + 1;
    }
    proof {
        assert(spans@.take(n as int) =~= spans@);
    }
    r
}

/// What syntax coloring promises line by line: number, marks, and raw text
/// survive, and each line either keeps its spans or is restyled well formed
/// with every background dropped.
pub open spec fn syntax_preserve_rel(before: Document, after: Document) -> bool {
    &&& after.lines@.len() == before.lines@.len()
    &&& (forall|i: int|
        0 <= i < before.lines@.len() ==> ({
            &&& (#[trigger] after.lines@[i]).number == before.lines@[i].number
            &&& after.lines@[i].is_match == before.lines@[i].is_match
            &&& after.lines@[i].is_context == before.lines@[i].is_context
            &&& after.lines@[i].text_spec() == before.lines@[i].text_spec()
            &&& (after.lines@[i].spans@ == before.lines@[i].spans@ || (wf_spans(
                after.lines@[i].spans@,
            ) && (forall|k: int|
                0 <= k < after.lines@[i].spans@.len()
                    ==> (#[trigger] after.lines@[i].spans@[k]).style.bg is None)))
        }))
    &&& after.max_line_width == before.max_line_width
    &&& after.source_name == before.source_name
    &&& after.encoding == before.encoding
}

/// Apply syntax highlighting to a document: pick a grammar by the explicit
/// language, the explicit extension, or the source name's extension; pick
/// the theme; then retokenize each line, replacing its spans while keeping
/// its raw text. A line the tokenizer refuses, and everything when no
/// grammar or theme is found, stays as it was.
pub fn apply_syntax_highlight(document: &mut Document, language: Option<&str>, theme: Theme)
    ensures
        final(document).lines@.len() == old(document).lines@.len(),
        forall|i: int|
            0 <= i < old(document).lines@.len() ==> ({
                &&& (#[trigger] final(document).lines@[i]).number == old(
                    document,
                ).lines@[i].number
                &&& final(document).lines@[i].is_match == old(document).lines@[i].is_match
                &&& final(document).lines@[i].is_context == old(document).lines@[i].is_context
                &&& final(document).lines@[i].text_spec() == old(document).lines@[i].text_spec()
                &&& (final(document).lines@[i].spans@ == old(document).lines@[i].spans@ || (
                wf_spans(final(document).lines@[i].spans@) && (forall|k: int|
                    0 <= k < final(document).lines@[i].spans@.len()
                        ==> (#[trigger] final(document).lines@[i].spans@[k]).style.bg is None)))
            }),
        final(document).max_line_width == old(document).max_line_width,
        final(document).source_name == old(document).source_name,
        final(document).encoding == old(document).encoding,
{
    let ss = load_syntax_set();
    let ts = load_theme_set();
    let syntax = match language {
        Some(lang) => {
            match find_syntax_by_name(&ss, lang) {
                Some(s) => Some(s),
                None => find_syntax_by_extension(&ss, lang),
            }
        },
        None => {
            let by_name = match detect_language(document.source_name.as_str()) {
                Some(lang) => find_syntax_by_name(&ss, lang),
                None => None,
            };
            match by_name {
                Some(s) => Some(s),
                None => {
                    let tail = crate::ingest::after_last_dot_str(document.source_name.as_str());
                    find_syntax_by_extension(&ss, tail.as_str())
                },
            }
        },
    };
    let syntax = match syntax {
        Some(s) => s,
        None => {
            return ;
        },
    };
    let theme_name = syntect_theme_name(theme);
    let mut highlighter = match highlighter_new(syntax, &ts, theme_name) {
        Some(h) => h,
        None => {
            return ;
        },
    };
    let n = document.lines.len();
    let mut i: usize = 0;
    while i < n
        invariant
            i <= n,
            n == document.lines@.len(),
            n == old(document).lines@.len(),
            document.max_line_width == old(document).max_line_width,
            document.source_name == old(document).source_name,
            document.encoding == old(document).encoding,
            forall|k: int|
                i <= k < n ==> #[trigger] document.lines@[k] == old(document).lines@[k],
            forall|k: int|
                0 <= k < i ==> ({
                    &&& (#[trigger] document.lines@[k]).number == old(document).lines@[k].number
                    &&& document.lines@[k].is_match == old(document).lines@[k].is_match
                    &&& document.lines@[k].is_context == old(document).lines@[k].is_context
                    &&& document.lines@[k].text_spec() == old(document).lines@[k].text_spec()
                    &&& (document.lines@[k].spans@ == old(document).lines@[k].spans@ || (
                    wf_spans(document.lines@[k].spans@) && (forall|j: int|
                        0 <= j < document.lines@[k].spans@.len()
                            ==> (#[trigger] document.lines@[k].spans@[j]).style.bg is None)))
                }),
        decreases n - i,
    {
        let text = document.lines[i].text();
        match highlight_tokens(&mut highlighter, text.as_str(), &ss) {
            Ok(tokens) => {
                let filtered = drop_empty_spans(tokens);
                if filtered.len() > 0 {
                    let number = document.lines[i].number;
                    let is_match = document.lines[i].is_match;
                    let is_context = document.lines[i].is_context;
                    document.lines.set(
                        i,
                        crate::line::Line { number, spans: filtered, is_match, is_context },
                    );
                }
            },
            Err(_) => {},
        }
        i = i + 1;
    }
}

} // verus!
