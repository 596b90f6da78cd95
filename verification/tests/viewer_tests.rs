//! The viewer state, the rendering math, the markdown renderer, syntax
//! coloring, the theme, and the content loader, on concrete inputs.

use mat::apply_syntax_highlight;
use mat::detect_language;
use mat::load_content;
use mat::render_markdown;
use mat::take_chars_until_width;
use mat::truncate_with_indicator;
use mat::truncate_with_scroll;
use mat::App;
use mat::Args;
use mat::Color;
use mat::Document;
use mat::FollowReader;
use mat::MatError;
use mat::Theme;
use mat::ThemeColors;
use mat::WrapMode;

fn create_test_doc(lines: usize) -> Document {
    let text: String = (1..=lines).map(|i| format!("Line {}\n", i)).collect();
    Document::from_text(text.trim_end(), "test.txt".to_string(), "UTF-8".to_string())
}

fn dark_palette() -> ThemeColors {
    ThemeColors::for_theme(Theme::Dark)
}

#[test]
fn app_test_scroll_down() {
    let doc = create_test_doc(100);
    let mut app = App::new(doc, false, None, dark_palette(), false, None, WrapMode::NoWrap, 200);
    app.set_terminal_size(80, 24);

    assert_eq!(app.scroll_line, 0);
    app.scroll_down(5);
    assert_eq!(app.scroll_line, 5);

    app.scroll_down(1000);
    assert_eq!(app.scroll_line, 77);
}

#[test]
fn app_test_scroll_up() {
    let doc = create_test_doc(100);
    let mut app = App::new(doc, false, None, dark_palette(), false, None, WrapMode::NoWrap, 200);
    app.scroll_line = 50;

    app.scroll_up(10);
    assert_eq!(app.scroll_line, 40);

    app.scroll_up(1000);
    assert_eq!(app.scroll_line, 0);
}

#[test]
fn app_test_go_to_top_bottom() {
    let doc = create_test_doc(100);
    let mut app = App::new(doc, false, None, dark_palette(), false, None, WrapMode::NoWrap, 200);
    app.set_terminal_size(80, 24);
    app.scroll_line = 50;

    app.go_to_top();
    assert_eq!(app.scroll_line, 0);

    app.go_to_bottom();
    assert_eq!(app.scroll_line, 77);
}

#[test]
fn test_gutter_width() {
    let doc = create_test_doc(9);
    let app = App::new(doc, true, None, dark_palette(), false, None, WrapMode::NoWrap, 200);
    assert_eq!(app.gutter_width(), 3);

    let doc = create_test_doc(99);
    let app = App::new(doc, true, None, dark_palette(), false, None, WrapMode::NoWrap, 200);
    assert_eq!(app.gutter_width(), 4);

    let doc = create_test_doc(999);
    let app = App::new(doc, true, None, dark_palette(), false, None, WrapMode::NoWrap, 200);
    assert_eq!(app.gutter_width(), 5);
}

#[test]
fn test_wrap_mode_scroll() {
    let text = "Short\nThis is a much longer line that should wrap at width 20\nAnother";
    let doc = Document::from_text(text, "test.txt".to_string(), "UTF-8".to_string());
    let mut app = App::new(doc, false, None, dark_palette(), false, None, WrapMode::Wrap, 200);
    app.set_terminal_size(20, 10);

    app.build_wrapped_lines();

    let total = app.total_wrapped_lines();
    assert!(total > 3, "Expected wrapping to increase line count, got {}", total);
}

#[test]
fn test_wrap_mode_no_horizontal_scroll() {
    let doc = create_test_doc(10);
    let mut app = App::new(doc, false, None, dark_palette(), false, None, WrapMode::Wrap, 200);
    app.set_terminal_size(80, 24);

    app.scroll_right(10);
    assert_eq!(app.scroll_col, 0);

    app.scroll_left(10);
    assert_eq!(app.scroll_col, 0);
}

#[test]
fn test_wrap_cache_matches_formula() {
    // For narrow characters, the wrap cache holds one row per content
    // width, at least one per line: the formula total.
    let text = "Short\nThis is a much longer line that should wrap at width 20\n\nAnother";
    let doc = Document::from_text(text, "test.txt".to_string(), "UTF-8".to_string());
    let mut app = App::new(doc, false, None, dark_palette(), false, None, WrapMode::Wrap, 200);
    app.set_terminal_size(20, 10);
    app.build_wrapped_lines();
    let cache_len = app.wrapped_lines.as_ref().unwrap().len();
    assert_eq!(cache_len, app.total_wrapped_lines());
}

#[test]
fn test_scroll_stays_clamped() {
    // After every scroll the top row stays between zero and the greatest
    // allowed top row.
    let doc = create_test_doc(30);
    let mut app = App::new(doc, false, None, dark_palette(), false, None, WrapMode::NoWrap, 200);
    app.set_terminal_size(80, 11);
    app.scroll_down(1000);
    assert_eq!(app.scroll_line, 20);
    app.scroll_half_page_up();
    assert_eq!(app.scroll_line, 15);
    app.scroll_half_page_down();
    assert_eq!(app.scroll_line, 20);
}

#[test]
fn test_follow_append_monotonic() {
    // Appended lines never disturb earlier ones and take the next numbers.
    let doc = create_test_doc(3);
    let mut app = App::new(doc, false, None, dark_palette(), false, None, WrapMode::NoWrap, 200);
    app.set_terminal_size(80, 24);
    let before: Vec<String> = app.document.lines.iter().map(|l| l.text()).collect();
    app.append_follow_lines(&vec!["tail one".to_string(), "tail two".to_string()]);
    assert_eq!(app.document.line_count(), 5);
    for (i, t) in before.iter().enumerate() {
        assert_eq!(&app.document.lines[i].text(), t);
        assert_eq!(app.document.lines[i].number, i + 1);
    }
    assert_eq!(app.document.lines[3].number, 4);
    assert_eq!(app.document.lines[3].text(), "tail one");
    assert_eq!(app.document.lines[4].number, 5);
    assert_eq!(app.document.lines[4].text(), "tail two");
}

#[test]
fn test_follow_reader_truncation_reset() {
    let mut reader = FollowReader::new("somewhere".to_string(), 100);
    assert_eq!(reader.position(), 100);
    assert_eq!(reader.observe_size(40), None);
    assert_eq!(reader.position(), 0);
    assert_eq!(reader.observe_size(40), Some(0));
    reader.advance_to(40);
    assert_eq!(reader.observe_size(40), None);
}

#[test]
fn test_truncate_with_scroll() {
    assert_eq!(truncate_with_scroll("Hello World", 0, 5), "Hello");
    assert_eq!(truncate_with_scroll("Hello World", 6, 5), "World");
    assert_eq!(truncate_with_scroll("Hello World", 0, 20), "Hello World         ");
}

#[test]
fn test_truncate_cjk() {
    let text = "Hello世界";
    assert_eq!(truncate_with_scroll(text, 0, 7), "Hello世");
}

#[test]
fn test_truncate_with_indicator() {
    let result = truncate_with_indicator("Hello", 0, 10, 15);
    assert!(result.starts_with("Hello"));
    assert!(!result.contains('…'));

    let result = truncate_with_indicator("Hello World This Is Long", 0, 10, 15);
    assert!(result.contains('…'));
}

#[test]
fn test_take_until_width_iterator() {
    let chars: Vec<char> = "Hello World".chars().collect();
    let result: String = take_chars_until_width(&chars, 5).iter().collect();
    assert_eq!(result, "Hello");

    let chars: Vec<char> = "Hello世界".chars().collect();
    let result: String = take_chars_until_width(&chars, 7).iter().collect();
    assert_eq!(result, "Hello世");
}

#[test]
fn test_theme_from_str() {
    assert_eq!(Theme::from_str("light"), Some(Theme::Light));
    assert_eq!(Theme::from_str("LIGHT"), Some(Theme::Light));
    assert_eq!(Theme::from_str("dark"), Some(Theme::Dark));
    assert_eq!(Theme::from_str("DARK"), Some(Theme::Dark));
    assert_eq!(Theme::from_str("invalid"), None);
}

#[test]
fn test_theme_colors() {
    let light = ThemeColors::for_theme(Theme::Light);
    let dark = ThemeColors::for_theme(Theme::Dark);

    assert_eq!(light.search_bg, Color::Yellow);
    assert_eq!(dark.search_bg, Color::Yellow);

    assert_ne!(light.status_bg, dark.status_bg);
}

#[test]
fn test_detect_language() {
    assert_eq!(detect_language("main.rs"), Some("Rust"));
    assert_eq!(detect_language("script.py"), Some("Python"));
    assert_eq!(detect_language("app.js"), Some("JavaScript"));
    assert_eq!(detect_language("README.md"), Some("Markdown"));
    assert_eq!(detect_language("unknown.xyz"), None);
}

#[test]
fn test_syntax_highlight_rust() {
    let code = "fn main() {\n    println!(\"Hello\");\n}";
    let mut doc = Document::from_text(code, "test.rs".to_string(), "UTF-8".to_string());

    apply_syntax_highlight(&mut doc, None, Theme::Dark);

    assert!(doc.lines[0].spans.len() > 0);
}

#[test]
fn test_syntax_highlight_with_explicit_language() {
    let code = "def hello():\n    print('Hi')";
    let mut doc = Document::from_text(code, "unknown.txt".to_string(), "UTF-8".to_string());

    apply_syntax_highlight(&mut doc, Some("Python"), Theme::Dark);

    assert!(doc.lines[0].spans.len() > 0);
}

#[test]
fn test_syntax_highlight_unknown_language() {
    let text = "Just some plain text";
    let mut doc = Document::from_text(text, "unknown.xyz".to_string(), "UTF-8".to_string());

    let original_spans_len = doc.lines[0].spans.len();
    apply_syntax_highlight(&mut doc, None, Theme::Dark);

    assert_eq!(doc.lines[0].spans.len(), original_spans_len);
}

#[test]
fn test_render_heading() {
    let md = "# Hello World";
    let doc = render_markdown(md, "test.md".to_string());

    assert!(!doc.lines.is_empty(), "Document should have lines");
    let all_text: String = doc.lines.iter().map(|l| l.text()).collect();
    assert!(all_text.contains("Hello World"), "Expected 'Hello World' in document");
}

#[test]
fn test_render_code_block() {
    let md = "```rust\nfn main() {}\n```";
    let doc = render_markdown(md, "test.md".to_string());

    assert!(doc.lines.len() >= 3);
}

#[test]
fn test_render_list() {
    let md = "- Item 1\n- Item 2\n- Item 3";
    let doc = render_markdown(md, "test.md".to_string());

    assert!(doc.lines.len() >= 3);
    let text = doc.lines[0].text();
    assert!(text.contains("Item 1"));
}

#[test]
fn test_render_inline_code() {
    let md = "Use `println!` to print";
    let doc = render_markdown(md, "test.md".to_string());

    let text = doc.lines[0].text();
    assert!(text.contains("println!"));
}

#[test]
fn test_render_emphasis() {
    let md = "This is *italic* and **bold**";
    let doc = render_markdown(md, "test.md".to_string());

    let text = doc.lines[0].text();
    assert!(text.contains("italic"));
    assert!(text.contains("bold"));
}

#[test]
fn test_binary_block_scenario() {
    // A zero byte blocks loading unless binary display is forced.
    let bytes: Vec<u8> = b"Hello\x00World".to_vec();
    let err = load_content(&bytes, "f", &None, &Args::default()).unwrap_err();
    assert!(matches!(err, MatError::BinaryFile { .. }));
    assert_eq!(err.exit_code(), 1);
}

#[test]
fn test_force_binary_scenario() {
    let bytes: Vec<u8> = b"Hello\x00World".to_vec();
    let args = Args { force_binary: true, ..Default::default() };
    let content = load_content(&bytes, "f", &None, &args).unwrap();
    assert!(content.text.contains("Hello"));
}

#[test]
fn test_classify_background_luminance() {
    assert_eq!(mat::classify_background(255, 255, 255), Theme::Light);
    assert_eq!(mat::classify_background(0, 0, 0), Theme::Dark);
    assert_eq!(mat::classify_background(30, 30, 40), Theme::Dark);
    assert_eq!(mat::classify_background(230, 230, 220), Theme::Light);
}

#[test]
fn test_usize_to_decimal_digits() {
    let r: String = mat::usize_to_decimal(0).iter().collect();
    assert_eq!(r, "0");
    let r: String = mat::usize_to_decimal(907).iter().collect();
    assert_eq!(r, "907");
}

#[test]
fn test_handle_key_quit_and_toggle() {
    let doc = create_test_doc(5);
    let mut app = App::new(doc, false, None, dark_palette(), false, None, WrapMode::NoWrap, 200);
    app.set_terminal_size(80, 3);

    assert_eq!(mat::handle_key(mat::KeyInput::Char('j'), &mut app), mat::KeyAction::Nothing);
    assert_eq!(app.scroll_line, 1);

    assert_eq!(mat::handle_key(mat::KeyInput::Char('f'), &mut app), mat::KeyAction::ToggleFollow);

    assert_eq!(mat::handle_key(mat::KeyInput::Char('q'), &mut app), mat::KeyAction::Quit);
    assert!(app.should_quit);
}

#[test]
fn test_status_bar_sections() {
    let doc = create_test_doc(12);
    let mut app = App::new(doc, false, None, dark_palette(), false, None, WrapMode::NoWrap, 200);
    app.set_terminal_size(60, 10);
    let bar = mat::status_bar_text(&app);
    assert_eq!(bar.chars().count(), 60);
    assert!(bar.contains("test.txt"));
    assert!(bar.contains("(1/12)"));
    assert!(bar.contains("Col 1/"));
}

#[test]
fn test_clip_spans_with_scroll_styles() {
    // Span-level clipping re-splits at the scroll boundary, keeps each
    // fragment's own style, and pads with a plain span.
    let spans = vec![
        mat::StyledSpan::new("Hello ", mat::SpanStyle::new().fg(Color::Red)),
        mat::StyledSpan::new("world", mat::SpanStyle::new().bold()),
    ];
    let out = mat::clip_spans_with_scroll(&spans, 3, 6);
    let text: String = out.iter().map(|s| s.text.as_str()).collect::<Vec<_>>().join("");
    assert_eq!(text, "lo wor");
    assert_eq!(out[0].text, "lo ");
    assert_eq!(out[0].style.fg, Some(Color::Red));
    assert_eq!(out[1].text, "wor");
    assert!(out[1].style.bold);

    let wide = vec![mat::StyledSpan::new("Hello世界", mat::SpanStyle::new().bold())];
    let clipped = mat::clip_spans_with_scroll(&wide, 0, 7);
    let text: String = clipped.iter().map(|s| s.text.as_str()).collect::<Vec<_>>().join("");
    assert_eq!(text, "Hello世");
}

#[test]
fn test_truncate_spans_with_indicator_ellipsis() {
    let spans = vec![mat::StyledSpan::new(
        "Hello World This Is Long",
        mat::SpanStyle::new().fg(Color::Green),
    )];
    let out = mat::truncate_spans_with_indicator(&spans, 0, 10, 15);
    let text: String = out.iter().map(|s| s.text.as_str()).collect::<Vec<_>>().join("");
    assert!(text.contains('…'));
    assert_eq!(text.chars().map(|c| if c == '…' { 1 } else { 1 }).count(), 15);
    let short = mat::truncate_spans_with_indicator(&spans, 0, 200, 30);
    let text: String = short.iter().map(|s| s.text.as_str()).collect::<Vec<_>>().join("");
    assert!(!text.contains('…'));
    assert!(text.starts_with("Hello World This Is Long"));
}

#[test]
fn test_slice_spans_wrapped_row() {
    let spans = vec![
        mat::StyledSpan::new("abc", mat::SpanStyle::new().fg(Color::Red)),
        mat::StyledSpan::new("defg", mat::SpanStyle::new().bold()),
    ];
    let out = mat::slice_spans(&spans, 2, 4);
    let text: String = out.iter().map(|s| s.text.as_str()).collect::<Vec<_>>().join("");
    assert_eq!(text, "cdef");
    assert_eq!(out[0].text, "c");
    assert_eq!(out[0].style.fg, Some(Color::Red));
    assert_eq!(out[1].text, "def");
    assert!(out[1].style.bold);
}

#[test]
fn test_render_markdown_h1_frame() {
    // A level-one heading is framed by fifty-column borders and followed by
    // a blank line.
    let doc = render_markdown("# Hi", "test.md".to_string());
    assert!(doc.lines.len() >= 4);
    let top = doc.lines[0].text();
    assert!(top.starts_with('╔') && top.ends_with('╗'));
    assert_eq!(top.chars().count(), 52);
    assert!(doc.lines[1].text().contains("Hi"));
    let bottom = doc.lines[2].text();
    assert!(bottom.starts_with('╚') && bottom.ends_with('╝'));
    assert_eq!(doc.lines[3].text(), "");
}

#[test]
fn test_render_markdown_task_marker() {
    let md = "- [x] done\n- [ ] open";
    let doc = render_markdown(md, "test.md".to_string());
    let all: String = doc.lines.iter().map(|l| l.text()).collect::<Vec<_>>().join(";");
    assert!(all.contains("[x]"));
    assert!(all.contains("done"));
    assert!(all.contains("[ ]"));
    assert!(all.contains("open"));
}

#[test]
fn test_search_edit_keeps_snapshot() {
    // Entering search snapshots the document; edits keep the snapshot and
    // cancel restores it, styles included.
    let doc = create_test_doc(4);
    let mut app = App::new(doc, false, None, dark_palette(), false, None, WrapMode::NoWrap, 200);
    app.set_terminal_size(80, 24);
    let before: Vec<usize> = app.document.lines.iter().map(|l| l.spans.len()).collect();
    app.enter_search_mode(true);
    app.search_add_char('L');
    app.search_add_char('i');
    assert!(app.original_document.is_some());
    app.search_backspace();
    app.cancel_search();
    assert!(app.original_document.is_none());
    let after: Vec<usize> = app.document.lines.iter().map(|l| l.spans.len()).collect();
    assert_eq!(before, after);
}
