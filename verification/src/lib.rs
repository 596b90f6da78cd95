use vstd::prelude::*;

mod cli;
mod error;
mod follow;
mod grep;
mod ingest;
mod line;
mod markdown;
mod overlay;
mod pattern;
mod pipeline;
mod range;
mod render;
mod theme;
mod viewer;
mod style;
mod syntax;
mod text;

pub use cli::Args;
pub use cli::WrapMode;
pub use error::MatError;
pub use error::EXIT_ERROR;
pub use error::EXIT_INVALID_ARGS;
pub use error::EXIT_SUCCESS;
pub use grep::grep_filter;
pub use grep::merge_ranges;
pub use grep::GrepOptions;
pub use ingest::build_line_offsets;
pub use ingest::decode_bytes;
pub use ingest::detect_encoding;
pub use ingest::detect_extension;
pub use ingest::determine_input_source;
pub use ingest::expand_tabs;
pub use ingest::is_binary;
pub use ingest::is_markdown_extension;
pub use ingest::is_printable_byte;
pub use ingest::is_stdin_piped;
pub use ingest::load_content;
pub use ingest::strip_ansi;
pub use ingest::Content;
pub use ingest::InputSource;
pub use markdown::render_markdown;
pub use markdown::MdEvent;
pub use markdown::MdTag;
pub use overlay::apply_search_highlight;
pub use overlay::highlight_style;
pub use pattern::build_regex;
pub use pattern::build_regex_pattern;
pub use pattern::Pattern;
pub use overlay::highlight_line;
pub use pipeline::build_document;
pub use pipeline::pick_theme;
pub use range::filter_line_range;
pub use range::parse_line_range;
pub use ingest::TAB_WIDTH;
pub use render::clip_spans_with_scroll;
pub use render::gutter_cell;
pub use render::slice_spans;
pub use render::truncate_spans_with_indicator;
pub use render::render_plain_lines;
pub use render::status_bar_text;
pub use render::take_chars_until_width;
pub use render::truncate_with_indicator;
pub use render::truncate_with_scroll;
pub use render::usize_to_decimal;
pub use syntax::apply_syntax_highlight;
pub use syntax::detect_language;
pub use syntax::syntect_theme_name;
pub use text::char_width;
pub use theme::classify_background;
pub use theme::detected_theme;
pub use theme::get_theme;
pub use viewer::handle_key;
pub use viewer::KeyAction;
pub use viewer::KeyInput;
pub use style::Color;
pub use style::SpanStyle;
pub use follow::FollowReader;
pub use theme::Theme;
pub use theme::ThemeColors;
pub use viewer::App;
pub use viewer::InteractiveSearch;
pub use viewer::Mode;
pub use viewer::WrappedLine;
pub use overlay::MatchPosition;
pub use overlay::SearchState;
pub use line::Document;
pub use line::Line;
pub use line::StyledSpan;

verus! {

} // verus!
