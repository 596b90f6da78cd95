//! The argument record that drives the pipeline, and the wrap mode.

use vstd::prelude::*;

verus! {

/// Line wrapping discipline for the viewer.
#[derive(Debug, Clone, Copy, PartialEq, Eq, Structural)]
pub enum WrapMode {
    /// No wrapping; horizontal scrolling is enabled.
    NoWrap,
    /// Soft wrap at the terminal width.
    Wrap,
    /// Hard truncation at the maximum width.
    Truncate,
}

impl Default for WrapMode {
    /// The default wrap mode is no wrapping.
    fn default() -> (r: WrapMode)
        ensures
            r == WrapMode::NoWrap,
    {
        WrapMode::NoWrap
    }
}

/// The options a run works from. The program's argument parser fills one of
/// these; defaults here are the plain zero values.
#[derive(Debug)]
pub struct Args {
    /// Input file; `-` means standard input.
    pub file: Option<String>,
    /// Show line numbers.
    pub line_numbers: bool,
    /// Disable syntax highlighting.
    pub no_highlight: bool,
    /// Force markdown rendering.
    pub markdown: bool,
    /// Disable markdown auto-detection.
    pub no_markdown: bool,
    /// Follow the file as it grows.
    pub follow: bool,
    /// Pattern whose matches are highlighted.
    pub search: Option<String>,
    /// Pattern that filters the document to matching lines.
    pub grep: Option<String>,
    /// Case-insensitive matching for search and grep.
    pub ignore_case: bool,
    /// Treat the pattern as a literal string.
    pub fixed_strings: bool,
    /// Match whole words only.
    pub word_regexp: bool,
    /// Match whole lines only.
    pub line_regexp: bool,
    /// Context lines after a grep match.
    pub after: Option<usize>,
    /// Context lines before a grep match.
    pub before: Option<usize>,
    /// Context lines before and after a grep match; overrides the two above.
    pub context: Option<usize>,
    /// Wrap mode.
    pub wrap: WrapMode,
    /// Maximum line width before truncation.
    pub max_width: usize,
    /// Explicit syntax-highlighting language.
    pub language: Option<String>,
    /// Color theme name.
    pub theme: Option<String>,
    /// Line range to keep.
    pub lines: Option<String>,
    /// Write directly to standard output, skipping the pager.
    pub no_pager: bool,
    /// Preserve ANSI escape codes in the input.
    pub ansi: bool,
    /// Display binary files anyway.
    pub force_binary: bool,
}

/// The all-defaults argument record.
pub open spec fn args_default_spec() -> Args {
    Args {
        file: None,
        line_numbers: false,
        no_highlight: false,
        markdown: false,
        no_markdown: false,
        follow: false,
        search: None,
        grep: None,
        ignore_case: false,
        fixed_strings: false,
        word_regexp: false,
        line_regexp: false,
        after: None,
        before: None,
        context: None,
        wrap: WrapMode::NoWrap,
        max_width: 0,
        language: None,
        theme: None,
        lines: None,
        no_pager: false,
        ansi: false,
        force_binary: false,
    }
}

impl Default for Args {
    /// Every flag off, every option empty.
    fn default() -> (r: Args)
        ensures
            r == args_default_spec(),
    {
        Args {
            file: None,
            line_numbers: false,
            no_highlight: false,
            markdown: false,
            no_markdown: false,
            follow: false,
            search: None,
            grep: None,
            ignore_case: false,
            fixed_strings: false,
            word_regexp: false,
            line_regexp: false,
            after: None,
            before: None,
            context: None,
            wrap: WrapMode::NoWrap,
            max_width: 0,
            language: None,
            theme: None,
            lines: None,
            no_pager: false,
            ansi: false,
            force_binary: false,
        }
    }
}

} // verus!
