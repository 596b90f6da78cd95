//! The ingest stages and the styled model, on concrete inputs.

use mat::build_line_offsets;
use mat::decode_bytes;
use mat::detect_encoding;
use mat::detect_extension;
use mat::expand_tabs;
use mat::is_binary;
use mat::is_markdown_extension;
use mat::is_printable_byte;
use mat::is_stdin_piped;
use mat::strip_ansi;
use mat::Color;
use mat::Document;
use mat::Line;
use mat::SpanStyle;
use mat::StyledSpan;

#[test]
fn test_text_file() {
    let text = b"Hello, world!\nThis is a text file.\n";
    assert!(!is_binary(text));
}

#[test]
fn test_binary_with_null() {
    let binary = b"Hello\x00World";
    assert!(is_binary(binary));
}

#[test]
fn binary_test_empty_file() {
    let empty: &[u8] = &[];
    assert!(!is_binary(empty));
}

#[test]
fn test_utf8_text() {
    let utf8 = "Hello, 世界! Привет мир! 🌍".as_bytes();
    assert!(!is_binary(utf8));
}

#[test]
fn test_mostly_binary() {
    let mut binary = vec![0x01u8; 40];
    binary.extend_from_slice(b"Hello");
    assert!(is_binary(&binary));
}

#[test]
fn test_is_printable_byte() {
    assert!(is_printable_byte(b' '));
    assert!(is_printable_byte(b'A'));
    assert!(is_printable_byte(b'\n'));
    assert!(is_printable_byte(b'\t'));
    assert!(is_printable_byte(0x80));
    assert!(!is_printable_byte(0x00));
    assert!(!is_printable_byte(0x01));
    assert!(!is_printable_byte(0x1F));
}

#[test]
fn test_detect_utf8() {
    let text = "Hello, world!".as_bytes();
    assert_eq!(detect_encoding(text), "UTF-8");
}

#[test]
fn test_detect_utf8_bom() {
    let mut bytes = vec![0xEF, 0xBB, 0xBF];
    bytes.extend_from_slice(b"Hello");
    assert_eq!(detect_encoding(&bytes), "UTF-8-BOM");
}

#[test]
fn test_detect_utf16_le_bom() {
    let bytes = vec![0xFF, 0xFE, 0x48, 0x00];
    assert_eq!(detect_encoding(&bytes), "UTF-16LE");
}

#[test]
fn test_detect_utf16_be_bom() {
    let bytes = vec![0xFE, 0xFF, 0x00, 0x48];
    assert_eq!(detect_encoding(&bytes), "UTF-16BE");
}

#[test]
fn test_detect_latin1() {
    let bytes = vec![0xE4, 0xF6, 0xFC];
    assert_eq!(detect_encoding(&bytes), "Latin-1");
}

#[test]
fn test_decode_utf8() {
    let text = "Hello, 世界!".as_bytes().to_vec();
    let result = decode_bytes(&text, "UTF-8").unwrap();
    assert_eq!(result, "Hello, 世界!");
}

#[test]
fn test_decode_utf8_bom() {
    let mut bytes = vec![0xEF, 0xBB, 0xBF];
    bytes.extend_from_slice("Hello".as_bytes());
    let result = decode_bytes(&bytes, "UTF-8-BOM").unwrap();
    assert_eq!(result, "Hello");
}

#[test]
fn test_decode_latin1() {
    let bytes = vec![0xE4, 0xF6, 0xFC];
    let result = decode_bytes(&bytes, "Latin-1").unwrap();
    assert!(result.contains('ä') || result.contains('ö') || result.contains('ü'));
}

#[test]
fn test_detect_extension() {
    assert_eq!(detect_extension("foo.rs"), Some("rs".to_string()));
    assert_eq!(detect_extension("foo.MD"), Some("md".to_string()));
    assert_eq!(detect_extension("foo"), None);
    assert_eq!(detect_extension("/path/to/file.txt"), Some("txt".to_string()));
}

#[test]
fn test_is_markdown_extension() {
    assert!(is_markdown_extension("md"));
    assert!(is_markdown_extension("markdown"));
    assert!(is_markdown_extension("mdown"));
    assert!(!is_markdown_extension("txt"));
    assert!(!is_markdown_extension("rs"));
}

#[test]
fn test_expand_tabs_basic() {
    assert_eq!(expand_tabs("a\tb", 4), "a   b");
    assert_eq!(expand_tabs("ab\tc", 4), "ab  c");
    assert_eq!(expand_tabs("abc\td", 4), "abc d");
    assert_eq!(expand_tabs("abcd\te", 4), "abcd    e");
}

#[test]
fn test_expand_tabs_multiline() {
    assert_eq!(expand_tabs("a\tb\nc\td", 4), "a   b\nc   d");
}

#[test]
fn test_expand_tabs_custom_width() {
    assert_eq!(expand_tabs("a\tb", 2), "a b");
    assert_eq!(expand_tabs("ab\tc", 2), "ab  c");
}

#[test]
fn test_tab_expansion_boundary_columns() {
    // Every run of spaces a tab expands to ends on a multiple of the width.
    let out = expand_tabs("a\tb", 4);
    assert_eq!(out, "a   b");
    assert_eq!(out.chars().count(), 5);
}

#[test]
fn test_strip_ansi_basic() {
    assert_eq!(strip_ansi("\x1b[31mHello\x1b[0m"), "Hello");
    assert_eq!(strip_ansi("\x1b[1mBold\x1b[0m"), "Bold");
    assert_eq!(strip_ansi("\x1b[1;31mRed Bold\x1b[0m"), "Red Bold");
}

#[test]
fn test_strip_ansi_preserves_normal_text() {
    assert_eq!(strip_ansi("Hello World"), "Hello World");
    assert_eq!(strip_ansi("No escape codes here"), "No escape codes here");
}

#[test]
fn test_is_stdin_piped_in_test_environment() {
    let _ = is_stdin_piped();
}

#[test]
fn test_build_line_offsets() {
    let data = b"Hello\nWorld\nTest\n";
    let offsets = build_line_offsets(data);
    assert_eq!(offsets.len(), 4);
    assert_eq!(offsets[0], 0);
    assert_eq!(offsets[1], 6);
    assert_eq!(offsets[2], 12);
    assert_eq!(offsets[3], 17);
}

#[test]
fn test_span_style_builder() {
    let style = SpanStyle::new().fg(Color::Red).bold().underline();
    assert_eq!(style.fg, Some(Color::Red));
    assert!(style.bold);
    assert!(style.underline);
    assert!(!style.italic);
}

#[test]
fn test_styled_span_width() {
    let span = StyledSpan::plain("Hello");
    assert_eq!(span.width(), 5);

    let cjk = StyledSpan::plain("世界");
    assert_eq!(cjk.width(), 4);
}

#[test]
fn test_line_width() {
    let line = Line::plain(1, "Hello, World!");
    assert_eq!(line.width(), 13);
}

#[test]
fn test_line_text() {
    let line = Line {
        number: 1,
        spans: vec![
            StyledSpan::plain("Hello"),
            StyledSpan::plain(", "),
            StyledSpan::plain("World!"),
        ],
        is_match: false,
        is_context: false,
    };
    assert_eq!(line.text(), "Hello, World!");
}

#[test]
fn test_span_widths_sum_to_line_width() {
    // The sum of the span widths equals the display width of the raw text.
    let line = Line {
        number: 1,
        spans: vec![StyledSpan::plain("Hello"), StyledSpan::plain("世界")],
        is_match: false,
        is_context: false,
    };
    let sum: usize = line.spans.iter().map(|s| s.width()).sum();
    assert_eq!(sum, line.width());
    assert_eq!(line.width(), 9);
}

#[test]
fn test_document_from_text() {
    let text = "Line 1\nLine 2\nLine 3";
    let doc = Document::from_text(text, "test.txt".to_string(), "UTF-8".to_string());

    assert_eq!(doc.line_count(), 3);
    assert_eq!(doc.lines[0].number, 1);
    assert_eq!(doc.lines[1].number, 2);
    assert_eq!(doc.lines[2].number, 3);
    assert_eq!(doc.max_line_width, 6);
}

#[test]
fn test_empty_document() {
    let doc = Document::from_text("", "test.txt".to_string(), "UTF-8".to_string());
    assert_eq!(doc.line_count(), 0);
    assert_eq!(doc.max_line_width, 0);
}

#[test]
fn test_decode_utf16_le() {
    let bytes = vec![0xFF, 0xFE, 0x48, 0x00, 0x69, 0x00];
    let result = decode_bytes(&bytes, "UTF-16LE").unwrap();
    assert_eq!(result, "Hi");
}

#[test]
fn test_decode_utf16_be() {
    let bytes = vec![0xFE, 0xFF, 0x00, 0x48, 0x00, 0x69];
    let result = decode_bytes(&bytes, "UTF-16BE").unwrap();
    assert_eq!(result, "Hi");
}

#[test]
fn test_render_plain_lines_with_numbers() {
    let doc = Document::from_text(
        "alpha\nbeta",
        "f".to_string(),
        "UTF-8".to_string(),
    );
    let out = mat::render_plain_lines(&doc, true);
    assert_eq!(out, vec!["1 alpha", "2 beta"]);
    let bare = mat::render_plain_lines(&doc, false);
    assert_eq!(bare, vec!["alpha", "beta"]);
}

#[test]
fn test_gutter_cell_alignment() {
    assert_eq!(mat::gutter_cell(7, 4), "  7 ");
    assert_eq!(mat::gutter_cell(42, 4), " 42 ");
}
