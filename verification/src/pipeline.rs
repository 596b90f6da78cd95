//! The styled-document pipeline: from loaded content to the document the
//! viewer or the direct printer shows.

use vstd::prelude::*;

use crate::cli::Args;
use crate::error::MatError;
use crate::grep::grep_filter;
use crate::grep::GrepOptions;
use crate::ingest::Content;
use crate::line::Document;
use crate::markdown::render_markdown;
use crate::overlay::apply_search_highlight;
use crate::overlay::SearchState;
use crate::range::filter_line_range;
use crate::range::parse_line_range;
use crate::syntax::apply_syntax_highlight;
use crate::theme::get_theme;
use crate::theme::Theme;

verus! {

/// Build the styled document from loaded content: markdown rendering or a
/// plain split, the line-range filter, the grep filter, syntax coloring,
/// and the search overlay, in that order. Errors surface exactly where
/// their stage refuses: a bad line range, an empty or invalid grep or
/// search pattern. Alongside the document comes the search state for the
/// viewer, when a search pattern was given.
pub fn build_document(content: &Content, args: &Args, theme: Theme) -> (r: Result<
    (Document, Option<SearchState>),
    MatError,
>)
    ensures
        r matches Err(e) ==> ({
            ||| (e matches MatError::InvalidLineRange { .. } && args.lines is Some)
            ||| (e matches MatError::EmptyPattern && (args.grep is Some || args.search is Some))
            ||| (e matches MatError::InvalidRegex { .. } && (args.grep is Some || args.search
                is Some))
        }),
        r matches Ok(p) ==> ({
            &&& (args.search is None ==> p.1 is None)
            &&& (p.1 matches Some(st) ==> args.search is Some && st.current_match is None)
        }),
{
    let mut document = if content.is_markdown {
        render_markdown(content.text.as_str(), content.source_name.clone())
    } else {
        Document::from_text(
            content.text.as_str(),
            content.source_name.clone(),
            content.encoding.clone(),
        )
    };
    match &args.lines {
        Some(range) => {
            let total = document.line_count();
            let (start, end) = match parse_line_range(range.as_str(), total) {
                Ok(p) => p,
                Err(e) => {
                    return Err(e);
                },
            };
            filter_line_range(&mut document, start, end);
        },
        None => {},
    }
    match GrepOptions::from_args(args) {
        Ok(Some(grep_options)) => {
            document = grep_filter(&document, &grep_options);
        },
        Ok(None) => {},
        Err(e) => {
            return Err(e);
        },
    }
    if !args.no_highlight {
        let language = match &args.language {
            Some(l) => Some(l.as_str()),
            None => None,
        };
        apply_syntax_highlight(&mut document, language, theme);
    }
    let search_state = match SearchState::from_args(args) {
        Ok(s) => s,
        Err(e) => {
            return Err(e);
        },
    };
    match &search_state {
        Some(state) => {
            apply_search_highlight(&mut document, &state.pattern);
        },
        None => {},
    }
    Ok((document, search_state))
}

/// Pick the theme the arguments ask for, with terminal detection as the
/// fallback.
pub fn pick_theme(args: &Args) -> Theme {
    let arg = match &args.theme {
        Some(t) => Some(t.as_str()),
        None => None,
    };
    get_theme(arg)
}

} // verus!
