//! The pattern engine, the grep filter, the line range, and the search
//! overlay, on concrete inputs.

use mat::build_regex;
use mat::filter_line_range;
use mat::grep_filter;
use mat::highlight_line;
use mat::highlight_style;
use mat::merge_ranges;
use mat::parse_line_range;
use mat::Args;
use mat::Color;
use mat::Document;
use mat::GrepOptions;
use mat::InteractiveSearch;
use mat::MatError;
use mat::MatchPosition;
use mat::SearchState;

fn create_test_doc() -> Document {
    let text = "apple\nbanana\ncherry\napricot\nblueberry\ncoconut\navocado";
    Document::from_text(text, "test.txt".to_string(), "UTF-8".to_string())
}

fn plain_pattern(p: &str) -> mat::Pattern {
    build_regex(p, &Args::default()).unwrap()
}

#[test]
fn test_basic_grep() {
    let doc = create_test_doc();
    let options = GrepOptions { pattern: plain_pattern("a"), before: 0, after: 0 };

    let filtered = grep_filter(&doc, &options);

    let match_lines: Vec<_> = filtered.lines.iter().filter(|l| l.is_match).collect();
    assert_eq!(match_lines.len(), 4);
}

#[test]
fn test_grep_with_context() {
    let doc = create_test_doc();
    let options = GrepOptions { pattern: plain_pattern("cherry"), before: 1, after: 1 };

    let filtered = grep_filter(&doc, &options);

    assert_eq!(filtered.lines.len(), 3);
    assert_eq!(filtered.lines[0].number, 2);
    assert!(filtered.lines[0].is_context);
    assert_eq!(filtered.lines[1].number, 3);
    assert!(filtered.lines[1].is_match);
    assert_eq!(filtered.lines[2].number, 4);
    assert!(filtered.lines[2].is_context);
}

#[test]
fn test_grep_with_separator() {
    let doc = create_test_doc();
    let options = GrepOptions { pattern: plain_pattern("^(apple|coconut)$"), before: 0, after: 0 };

    let filtered = grep_filter(&doc, &options);

    assert_eq!(filtered.lines.len(), 3);
    assert_eq!(filtered.lines[1].number, 0);
}

#[test]
fn test_merge_ranges() {
    let ranges = vec![(0, 3), (2, 5), (7, 10)];
    let merged = merge_ranges(ranges);
    assert_eq!(merged, vec![(0, 5), (7, 10)]);
}

#[test]
fn test_merge_ranges_idempotent_and_order_blind() {
    // Merging already-disjoint sorted intervals is the identity, merging
    // again changes nothing, and the input order does not matter.
    let disjoint = vec![(0usize, 2usize), (4, 6), (8, 9)];
    assert_eq!(merge_ranges(disjoint.clone()), disjoint);
    let once = merge_ranges(vec![(0, 3), (2, 5), (7, 10)]);
    assert_eq!(merge_ranges(once.clone()), once);
    let shuffled = merge_ranges(vec![(7, 10), (2, 5), (0, 3)]);
    assert_eq!(shuffled, once);
}

#[test]
fn test_build_regex_case_insensitive() {
    let args = Args { ignore_case: true, ..Default::default() };
    let regex = build_regex("ABC", &args).unwrap();
    assert!(regex.matches("abc"));
    assert!(regex.matches("ABC"));
}

#[test]
fn test_build_regex_fixed_strings() {
    let args = Args { fixed_strings: true, ..Default::default() };
    let regex = build_regex("[a-z]", &args).unwrap();
    assert!(regex.matches("[a-z]"));
    assert!(!regex.matches("abc"));
}

#[test]
fn test_build_regex_word_boundary() {
    let args = Args { word_regexp: true, ..Default::default() };
    let regex = build_regex("test", &args).unwrap();
    assert!(regex.matches("test"));
    assert!(regex.matches("a test here"));
    assert!(!regex.matches("testing"));
}

#[test]
fn test_parse_line_range_full() {
    assert_eq!(parse_line_range("10:20", 100).unwrap(), (10, 20));
}

#[test]
fn test_parse_line_range_from_start() {
    assert_eq!(parse_line_range(":50", 100).unwrap(), (1, 50));
}

#[test]
fn test_parse_line_range_to_end() {
    assert_eq!(parse_line_range("50:", 100).unwrap(), (50, 100));
}

#[test]
fn test_parse_line_range_single() {
    assert_eq!(parse_line_range("42", 100).unwrap(), (42, 42));
}

#[test]
fn test_parse_line_range_clamp() {
    assert_eq!(parse_line_range("50:200", 100).unwrap(), (50, 100));
}

#[test]
fn test_parse_line_range_invalid() {
    assert!(parse_line_range("abc", 100).is_err());
    assert!(parse_line_range("20:10", 100).is_err());
    assert!(parse_line_range("0:10", 100).is_err());
    assert!(parse_line_range("", 100).is_err());
}

#[test]
fn test_highlight_line_single() {
    let pattern = plain_pattern("world");
    let style = highlight_style();

    let spans = highlight_line("Hello world!", &pattern, &style);

    assert_eq!(spans.len(), 3);
    assert_eq!(spans[0].text, "Hello ");
    assert_eq!(spans[1].text, "world");
    assert_eq!(spans[2].text, "!");
    assert_eq!(spans[1].style.bg, Some(Color::Yellow));
}

#[test]
fn test_highlight_line_multiple() {
    let pattern = plain_pattern("a");
    let style = highlight_style();

    let spans = highlight_line("banana", &pattern, &style);

    assert_eq!(spans.len(), 6);
    assert_eq!(spans[0].text, "b");
    assert_eq!(spans[1].text, "a");
    assert_eq!(spans[2].text, "n");
    assert_eq!(spans[3].text, "a");
    assert_eq!(spans[4].text, "n");
    assert_eq!(spans[5].text, "a");
}

#[test]
fn test_highlight_line_no_match() {
    let pattern = plain_pattern("xyz");
    let style = highlight_style();

    let spans = highlight_line("Hello world", &pattern, &style);

    assert_eq!(spans.len(), 1);
    assert_eq!(spans[0].text, "Hello world");
}

#[test]
fn test_search_state_navigation() {
    let pattern = plain_pattern("a");
    let mut state = SearchState {
        pattern,
        matches: vec![
            MatchPosition { line_idx: 0, start_col: 0, end_col: 1 },
            MatchPosition { line_idx: 2, start_col: 3, end_col: 4 },
            MatchPosition { line_idx: 5, start_col: 1, end_col: 2 },
        ],
        current_match: None,
    };

    assert_eq!(state.next_match(), Some(0));
    assert_eq!(state.current_match, Some(0));

    assert_eq!(state.next_match(), Some(2));
    assert_eq!(state.current_match, Some(1));

    assert_eq!(state.next_match(), Some(5));
    assert_eq!(state.current_match, Some(2));

    assert_eq!(state.next_match(), Some(0));
    assert_eq!(state.current_match, Some(0));

    assert_eq!(state.prev_match(), Some(5));
    assert_eq!(state.current_match, Some(2));
}

#[test]
fn test_interactive_search_basic() {
    let mut search = InteractiveSearch::new(false);
    assert!(search.is_empty());

    search.push_char('h');
    search.push_char('e');
    search.push_char('l');
    search.push_char('l');
    search.push_char('o');

    assert_eq!(search.query, "hello");
    assert!(!search.is_empty());

    search.pop_char();
    assert_eq!(search.query, "hell");

    search.clear();
    assert!(search.is_empty());
}

#[test]
fn test_compile_pattern() {
    let mut search = InteractiveSearch::new(false);
    search.query = "test".to_string();

    let pattern = search.compile_pattern();
    assert!(pattern.is_some());

    let regex = pattern.unwrap();
    assert!(regex.matches("this is a test"));
    assert!(!regex.matches("This is a TEST"));
}

#[test]
fn test_compile_pattern_case_insensitive() {
    let mut search = InteractiveSearch::new(true);
    search.query = "test".to_string();

    let pattern = search.compile_pattern();
    assert!(pattern.is_some());

    let regex = pattern.unwrap();
    assert!(regex.matches("this is a TEST"));
}

#[test]
fn test_overlay_preserves_text() {
    // The overlay never changes a line's raw text, and a never-matching
    // pattern leaves the document exactly as it was.
    let mut doc = create_test_doc();
    let texts: Vec<String> = doc.lines.iter().map(|l| l.text()).collect();
    mat::apply_search_highlight(&mut doc, &plain_pattern("a"));
    let after: Vec<String> = doc.lines.iter().map(|l| l.text()).collect();
    assert_eq!(texts, after);

    let mut doc2 = create_test_doc();
    let spans_before: Vec<usize> = doc2.lines.iter().map(|l| l.spans.len()).collect();
    mat::apply_search_highlight(&mut doc2, &plain_pattern("zzz-never"));
    let spans_after: Vec<usize> = doc2.lines.iter().map(|l| l.spans.len()).collect();
    assert_eq!(spans_before, spans_after);
    assert_eq!(texts, doc2.lines.iter().map(|l| l.text()).collect::<Vec<_>>());
}

#[test]
fn test_line_range_scenario() {
    // File of ten lines, range 3:5: lines three through five stay, the
    // rest go.
    let text: String = (1..=10).map(|i| format!("Line {}\n", i)).collect();
    let mut doc = Document::from_text(&text, "f".to_string(), "UTF-8".to_string());
    let (start, end) = parse_line_range("3:5", doc.line_count()).unwrap();
    filter_line_range(&mut doc, start, end);
    let texts: Vec<String> = doc.lines.iter().map(|l| l.text()).collect();
    assert_eq!(texts, vec!["Line 3", "Line 4", "Line 5"]);
}

#[test]
fn test_grep_word_boundary_scenario() {
    // `test` with the word flag matches `test` and `a test here`, not
    // `testing`.
    let doc = Document::from_text(
        "test\ntesting\na test here",
        "f".to_string(),
        "UTF-8".to_string(),
    );
    let args = Args {
        grep: Some("test".to_string()),
        word_regexp: true,
        ..Default::default()
    };
    let options = GrepOptions::from_args(&args).unwrap().unwrap();
    let filtered = grep_filter(&doc, &options);
    let matched: Vec<String> =
        filtered.lines.iter().filter(|l| l.is_match).map(|l| l.text()).collect();
    assert_eq!(matched, vec!["test", "a test here"]);
}

#[test]
fn test_grep_context_merge_scenario() {
    // Overlapping context windows merge into one group without a
    // separator; windows separated by a one-line gap stay two groups with
    // one separator between them.
    let doc = Document::from_text(
        "a\nb\nMATCH1\nc\nMATCH2\nd\ne",
        "f".to_string(),
        "UTF-8".to_string(),
    );
    let args = Args {
        grep: Some("MATCH".to_string()),
        before: Some(1),
        after: Some(1),
        ..Default::default()
    };
    let options = GrepOptions::from_args(&args).unwrap().unwrap();
    let filtered = grep_filter(&doc, &options);
    let texts: Vec<String> = filtered.lines.iter().map(|l| l.text()).collect();
    assert_eq!(texts, vec!["b", "MATCH1", "c", "MATCH2", "d"]);
    assert!(filtered.lines.iter().all(|l| l.number != 0));

    let gapped = Document::from_text(
        "a\nb\nMATCH1\nc\nd\ne\nMATCH2\nf",
        "f".to_string(),
        "UTF-8".to_string(),
    );
    let filtered = grep_filter(&gapped, &options);
    let texts: Vec<String> = filtered.lines.iter().map(|l| l.text()).collect();
    assert_eq!(texts, vec!["b", "MATCH1", "c", "--", "e", "MATCH2", "f"]);
    assert_eq!(filtered.lines.iter().filter(|l| l.number == 0).count(), 1);
}

#[test]
fn test_grep_separator_between_groups_only() {
    // Separators appear exactly between groups, never first or last.
    let doc = create_test_doc();
    let options = GrepOptions { pattern: plain_pattern("^(apple|coconut)$"), before: 0, after: 0 };
    let filtered = grep_filter(&doc, &options);
    assert_ne!(filtered.lines[0].number, 0);
    assert_ne!(filtered.lines[filtered.lines.len() - 1].number, 0);
    for w in filtered.lines.windows(2) {
        assert!(!(w[0].number == 0 && w[1].number == 0));
    }
}

#[test]
fn test_grep_invalid_regex_error() {
    let args = Args { grep: Some("[invalid".to_string()), ..Default::default() };
    let err = match GrepOptions::from_args(&args) {
        Err(e) => e,
        Ok(_) => panic!("expected an invalid-regex error"),
    };
    assert!(matches!(err, MatError::InvalidRegex { .. }));
    assert_eq!(err.exit_code(), 2);
}

#[test]
fn test_grep_empty_pattern_error() {
    let args = Args { grep: Some(String::new()), ..Default::default() };
    let err = match GrepOptions::from_args(&args) {
        Err(e) => e,
        Ok(_) => panic!("expected an empty-pattern error"),
    };
    assert!(matches!(err, MatError::EmptyPattern));
    assert_eq!(err.exit_code(), 1);
}

#[test]
fn test_invalid_line_range_error_code() {
    let err = parse_line_range("abc", 10).unwrap_err();
    assert!(matches!(err, MatError::InvalidLineRange { .. }));
    assert_eq!(err.exit_code(), 2);
}
