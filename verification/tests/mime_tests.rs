use thrum::mime::{extract_body_text, extract_part_body, extract_mime_text, extract_snippet,
    strip_html_tags, truncate_at_word_boundary};
use thrum::mime::parse_references;

#[test]
fn extract_snippet_plain_text() {
    let input = b"Hello, this is a plain text email body.";
    let result = extract_snippet(input);
    assert_eq!(result, "Hello, this is a plain text email body.");
}

#[test]
fn extract_snippet_truncates() {
    let long = "word ".repeat(50);
    let result = extract_snippet(long.as_bytes());
    assert!(result.len() <= 110);
    assert!(result.ends_with("..."));
}

#[test]
fn extract_snippet_strips_html() {
    let input = b"<p>Hello <b>world</b></p>";
    let result = extract_snippet(input);
    assert_eq!(result, "Hello world");
}

#[test]
fn extract_snippet_empty() {
    let result = extract_snippet(b"");
    assert_eq!(result, "");
}

#[test]
fn parse_references_single() {
    let input = b"References: <abc@example.com>\r\n";
    let refs = parse_references(input);
    assert_eq!(refs, vec!["abc@example.com"]);
}

#[test]
fn parse_references_multiple() {
    let input = b"References: <abc@example.com> <def@example.com> <ghi@example.com>\r\n";
    let refs = parse_references(input);
    assert_eq!(
        refs,
        vec!["abc@example.com", "def@example.com", "ghi@example.com"]
    );
}

#[test]
fn parse_references_empty() {
    let refs = parse_references(b"");
    assert!(refs.is_empty());
}

#[test]
fn parse_references_no_angle_brackets() {
    let refs = parse_references(b"References: no-brackets\r\n");
    assert!(refs.is_empty());
}

#[test]
fn extract_body_text_prefers_plain_in_multipart() {
    // Simulates the text of a top-level multipart/alternative message
    let input = b"--boundary123\r\n\
        Content-Type: text/plain; charset=\"UTF-8\"\r\n\
        \r\n\
        Hello plain world\r\n\
        --boundary123\r\n\
        Content-Type: text/html; charset=\"UTF-8\"\r\n\
        \r\n\
        <html><body><p>Hello HTML world</p></body></html>\r\n\
        --boundary123--";
    let result = extract_body_text(input);
    assert!(
        result.contains("Hello plain world"),
        "Should prefer plain text, got: {result}"
    );
    assert!(
        !result.contains("HTML"),
        "Should not contain HTML content, got: {result}"
    );
}

#[test]
fn extract_body_text_falls_back_to_html_when_no_plain() {
    let input = b"--boundary456\r\n\
        Content-Type: text/html; charset=\"UTF-8\"\r\n\
        \r\n\
        <html><body><p>Only HTML here</p></body></html>\r\n\
        --boundary456--";
    let result = extract_body_text(input);
    assert!(
        result.contains("Only HTML here"),
        "Should strip HTML and return text, got: {result}"
    );
    assert!(
        !result.contains("<html>"),
        "Should have stripped HTML tags, got: {result}"
    );
}

#[test]
fn extract_body_text_plain_text_passthrough() {
    let input = b"Just a simple plain text email.";
    let result = extract_body_text(input);
    assert_eq!(result, "Just a simple plain text email.");
}

#[test]
fn extract_body_text_with_boundary_in_content_type_header() {
    // The text includes a nested multipart with boundary= in a header line
    let input = b"Content-Type: multipart/alternative; boundary=\"inner\"\r\n\
        \r\n\
        --inner\r\n\
        Content-Type: text/plain\r\n\
        \r\n\
        Plain text body\r\n\
        --inner\r\n\
        Content-Type: text/html\r\n\
        \r\n\
        <b>HTML body</b>\r\n\
        --inner--";
    let result = extract_body_text(input);
    assert!(
        result.contains("Plain text body"),
        "Should extract plain text, got: {result}"
    );
}

#[test]
fn extract_snippet_prefers_plain_in_multipart() {
    let input = b"--snipbound\r\n\
        Content-Type: text/plain\r\n\
        \r\n\
        Snippet plain text\r\n\
        --snipbound\r\n\
        Content-Type: text/html\r\n\
        \r\n\
        <p>Snippet HTML</p>\r\n\
        --snipbound--";
    let result = extract_snippet(input);
    assert!(
        result.contains("Snippet plain text"),
        "Snippet should prefer plain text, got: {result}"
    );
}

#[test]
fn html_only_multipart_keeps_text_and_drops_markup() {
    let input = b"--b1\r\n\
        Content-Type: text/html\r\n\
        \r\n\
        <html><style>p { color: red; }</style><body><p>Visible text</p></body></html>\r\n\
        --b1--";
    let result = extract_body_text(input);
    assert!(result.contains("Visible text"), "got: {result}");
    assert!(!result.contains('<') || !result.contains('>'), "got: {result}");
    assert!(!result.contains("color: red"), "got: {result}");
}

#[test]
fn snippet_never_exceeds_limit_and_marks_cut() {
    let long = "a".repeat(500);
    let result = extract_snippet(long.as_bytes());
    assert!(result.len() <= 103);
    assert!(result.ends_with("..."));
    let spaced = "five ".repeat(60);
    let result2 = extract_snippet(spaced.as_bytes());
    assert!(result2.len() <= 103);
    assert!(result2.ends_with("..."));
}

#[test]
fn strip_html_tags_decodes_entities() {
    let result = strip_html_tags("a &amp; b &lt;c&gt; &quot;d&quot; &#39;e&apos; f&nbsp;g");
    assert_eq!(result, "a & b <c> \"d\" 'e' f g");
}

#[test]
fn strip_html_tags_removes_script_blocks() {
    let result = strip_html_tags("before<SCRIPT>var x = 1;</SCRIPT>after");
    assert_eq!(result, "beforeafter");
}

#[test]
fn strip_html_tags_truncates_unclosed_style() {
    let result = strip_html_tags("keep this<style>p { x } and never close");
    assert_eq!(result, "keep this");
}

#[test]
fn extract_part_body_takes_text_after_blank_line() {
    assert_eq!(
        extract_part_body("Content-Type: text/plain\r\n\r\nBody here"),
        Some("Body here".to_string())
    );
    assert_eq!(
        extract_part_body("Content-Type: text/plain\n\nOther body"),
        Some("Other body".to_string())
    );
    assert_eq!(extract_part_body("no separator at all"), None);
}

#[test]
fn extract_mime_text_without_boundary_is_none() {
    assert_eq!(extract_mime_text("plain text, no markers"), None);
}

#[test]
fn truncate_at_word_boundary_exact_values() {
    assert_eq!(truncate_at_word_boundary("short", 10), "short");
    assert_eq!(truncate_at_word_boundary("one two three", 9), "one two...");
    assert_eq!(truncate_at_word_boundary("abcdefghij", 4), "abcd...");
}

#[test]
fn header_block_is_skipped_for_body() {
    let input = b"Content-Type: text/plain\r\nX-Other: y\r\n\r\nActual content";
    assert_eq!(extract_body_text(input), "Actual content");
}

#[test]
fn raw_html_document_is_stripped() {
    let input = b"<!DOCTYPE html><html><body>Greetings</body></html>";
    assert_eq!(extract_body_text(input), "Greetings");
}

#[test]
fn multibyte_text_is_decoded_not_copied_bytewise() {
    // two UTF-8 bytes decode to one character; a byte-for-byte copy would
    // differ
    let input = "caf\u{e9} au lait".as_bytes();
    assert_eq!(extract_body_text(input), "caf\u{e9} au lait");
    assert_eq!(extract_snippet(input), "caf\u{e9} au lait");
}

#[test]
fn invalid_bytes_decode_lossily() {
    let input = b"ok \xff end";
    assert_eq!(extract_body_text(input), "ok \u{fffd} end");
}
