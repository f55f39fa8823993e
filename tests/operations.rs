use native_extensions::codec::base64_encode_optimized;
use native_extensions::keywords::fast_string_contains;
use native_extensions::markdown::markdown_to_html;
use native_extensions::pattern::{capture_group, extract_url_from_text, find_all_patterns, PatternError};

fn keyword_list(words: &[&str]) -> Vec<String> {
    words.iter().map(|s| s.to_string()).collect()
}

#[test]
fn test_extract_url() {
    let text = "navigate to example.com for more info";
    let pattern = r"(?:navigate|go|open)\s+(?:to\s+)?([^\s]+\.[a-z]{2,})";
    let result = extract_url_from_text(text, pattern).unwrap();
    assert_eq!(result, Some("example.com".to_string()));
}

#[test]
fn test_fast_string_contains() {
    let text = "create a todo list";
    let keywords = keyword_list(&["create", "make", "generate"]);
    assert!(fast_string_contains(text, &keywords));
}

#[test]
fn test_markdown_to_html() {
    let text = "This is **bold** and *italic* text";
    let result = markdown_to_html(text);
    assert!(result.contains("<strong>bold</strong>"));
    assert!(result.contains("<em>italic</em>"));
}

#[test]
fn test_base64_encode() {
    let data = b"Hello, World!";
    let result = base64_encode_optimized(data);
    assert_eq!(result, "SGVsbG8sIFdvcmxkIQ==");
}

#[test]
fn extract_lowercases_the_text() {
    let pattern = r"(?:navigate|go|open)\s+(?:to\s+)?([^\s]+\.[a-z]{2,})";
    let result = extract_url_from_text("Navigate to Example.COM now", pattern).unwrap();
    assert_eq!(result, Some("example.com".to_string()));
}

#[test]
fn extract_without_match_is_none() {
    let result = extract_url_from_text("nothing here", r"open\s+(\S+)").unwrap();
    assert_eq!(result, None);
}

#[test]
fn extract_without_group_is_none() {
    let result = extract_url_from_text("open site.org", r"open\s+\S+").unwrap();
    assert_eq!(result, None);
}

#[test]
fn extract_invalid_pattern_fails() {
    match extract_url_from_text("anything", "(unclosed") {
        Err(PatternError::InvalidPattern { pattern, message }) => {
            assert_eq!(pattern, "(unclosed");
            assert!(!message.is_empty());
        }
        other => panic!("expected an invalid pattern, got {:?}", other),
    }
}

#[test]
fn find_all_keeps_order_and_skips_misses() {
    let result = find_all_patterns("Go To Example.com and then SEARCH cats", vec!["search", "zzz", "go to", "c.t"]).unwrap();
    assert_eq!(
        result,
        vec![
            ("search".to_string(), "search".to_string()),
            ("go to".to_string(), "go to".to_string()),
            ("c.t".to_string(), "cat".to_string()),
        ]
    );
}

#[test]
fn find_all_reports_first_match_and_duplicates() {
    let result = find_all_patterns("a1 b2 a3", vec![r"a\d", r"a\d"]).unwrap();
    assert_eq!(
        result,
        vec![("a\\d".to_string(), "a1".to_string()), ("a\\d".to_string(), "a1".to_string())]
    );
}

#[test]
fn find_all_with_no_patterns_is_empty() {
    assert_eq!(find_all_patterns("text", vec![]).unwrap(), vec![]);
}

#[test]
fn find_all_invalid_pattern_fails_whole_call() {
    match find_all_patterns("abc", vec!["a", "[b", "c", "(d"]) {
        Err(e) => {
            let PatternError::InvalidPattern { pattern, .. } = &e;
            assert_eq!(pattern, "[b");
            assert!(e.describe().starts_with("Invalid regex pattern '[b': "));
        }
        Ok(v) => panic!("expected a failure, got {:?}", v),
    }
}

#[test]
fn contains_is_case_insensitive() {
    assert!(fast_string_contains("Please CREATE it", &keyword_list(&["create"])));
    assert!(fast_string_contains("please create it", &keyword_list(&["CREATE"])));
}

#[test]
fn contains_without_keywords_is_false() {
    assert!(!fast_string_contains("create a todo list", &keyword_list(&[])));
    assert!(!fast_string_contains("", &keyword_list(&[])));
}

#[test]
fn contains_empty_keyword_matches_any_text() {
    assert!(fast_string_contains("", &keyword_list(&[""])));
    assert!(fast_string_contains("abc", &keyword_list(&[""])));
}

#[test]
fn contains_is_substring_not_word() {
    assert!(fast_string_contains("recreated", &keyword_list(&["create"])));
    assert!(!fast_string_contains("create a list", &keyword_list(&["delete", "remove"])));
}

#[test]
fn contains_grows_with_keywords() {
    let mut keywords = keyword_list(&["delete"]);
    assert!(!fast_string_contains("make a list", &keywords));
    keywords.push("make".to_string());
    assert!(fast_string_contains("make a list", &keywords));
    keywords.push("zzz".to_string());
    assert!(fast_string_contains("make a list", &keywords));
}

#[test]
fn base64_padding_cases() {
    assert_eq!(base64_encode_optimized(b""), "");
    assert_eq!(base64_encode_optimized(b"f"), "Zg==");
    assert_eq!(base64_encode_optimized(b"fo"), "Zm8=");
    assert_eq!(base64_encode_optimized(b"foo"), "Zm9v");
    assert_eq!(base64_encode_optimized(b"foobar"), "Zm9vYmFy");
    assert_eq!(base64_encode_optimized(&[0xfb, 0xff, 0xbf]), "+/+/");
}

#[test]
fn markdown_bold_alone() {
    assert_eq!(markdown_to_html("**bold**"), "<strong>bold</strong>");
}

#[test]
fn markdown_italic_alone() {
    assert_eq!(markdown_to_html("*italic*"), "<em>italic</em>");
}

#[test]
fn markdown_bold_and_italic() {
    assert_eq!(markdown_to_html("**a** and *b*"), "<strong>a</strong> and <em>b</em>");
}

#[test]
fn markdown_two_bold_spans_stay_apart() {
    assert_eq!(markdown_to_html("**a** and **b**"), "<strong>a</strong> and <strong>b</strong>");
}

#[test]
fn markdown_unclosed_marker_stays() {
    assert_eq!(markdown_to_html("*unclosed"), "*unclosed");
    assert_eq!(markdown_to_html("**unclosed"), "<em></em>unclosed");
}

#[test]
fn markdown_span_does_not_cross_line_break() {
    assert_eq!(markdown_to_html("*a\nb*"), "*a\nb*");
    assert_eq!(markdown_to_html("**a\nb**"), "<em></em>a\nb<em></em>");
}

#[test]
fn markdown_plain_text_unchanged() {
    assert_eq!(markdown_to_html("no markers, é ü"), "no markers, é ü");
    assert_eq!(markdown_to_html(""), "");
}

#[test]
fn markdown_triple_star() {
    assert_eq!(markdown_to_html("***x***"), "<strong><em>x</strong></em>");
}

#[test]
fn capture_group_picks_by_index() {
    let groups = vec![Some("go to a.com".to_string()), None, Some("a.com".to_string())];
    assert_eq!(capture_group(&groups, 0), Some("go to a.com".to_string()));
    assert_eq!(capture_group(&groups, 1), None);
    assert_eq!(capture_group(&groups, 2), Some("a.com".to_string()));
    assert_eq!(capture_group(&groups, 3), None);
}
