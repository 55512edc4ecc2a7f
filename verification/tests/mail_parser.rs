use mail_parser_rust::count_boundary_lines;
use mail_parser_rust::decode_text;
use mail_parser_rust::detect_encoding;
use mail_parser_rust::find_all;
use mail_parser_rust::parse_headers;
use mail_parser_rust::replace_all;
use mail_parser_rust::sanitize_filename;
use mail_parser_rust::MailError;
use mail_parser_rust::PatternRegistry;

#[test]
fn test_encoding_detection() {
    let utf8_text = "Hello, world! 你好世界".as_bytes();
    let result = detect_encoding(utf8_text);
    assert_eq!(result, "UTF-8");

    // Test ASCII fast path
    let ascii_text = b"Hello, world!";
    let result = detect_encoding(ascii_text);
    assert_eq!(result, "ASCII");

    // Test empty input
    let empty = b"";
    let result = detect_encoding(empty);
    assert_eq!(result, "UTF-8");
}

#[test]
fn test_decode_fast() {
    // Test UTF-8
    let utf8_text = "Hello, world! 你好世界".as_bytes();
    let decoded = decode_text(utf8_text, None);
    assert!(decoded.contains("你好世界"));

    // Test with encoding hint
    let text = b"Hello";
    let decoded = decode_text(text, Some("utf-8"));
    assert_eq!(decoded, "Hello");

    // Test empty input
    let empty = b"";
    let decoded = decode_text(empty, None);
    assert_eq!(decoded, "");
}

#[test]
fn test_email_extraction() {
    let reg = PatternRegistry::new().unwrap();
    let text = "Contact john@example.com or jane@test.org";
    let emails = reg.extract_emails(text);
    assert_eq!(emails.len(), 2);
    assert!(emails.contains(&"john@example.com".to_string()));
    assert!(emails.contains(&"jane@test.org".to_string()));

    // Test case insensitivity (should lowercase)
    let text = "Email: JOHN@EXAMPLE.COM";
    let emails = reg.extract_emails(text);
    assert_eq!(emails[0], "john@example.com");

    // Test no emails
    let text = "No emails here";
    let emails = reg.extract_emails(text);
    assert_eq!(emails.len(), 0);
}

#[test]
fn test_url_extraction() {
    let reg = PatternRegistry::new().unwrap();
    let text = "Visit https://example.com or http://test.org/path";
    let urls = reg.extract_urls(text);
    assert_eq!(urls.len(), 2);
    assert!(urls.contains(&"https://example.com".to_string()));
    assert!(urls.contains(&"http://test.org/path".to_string()));

    // Test no URLs
    let text = "No URLs here";
    let urls = reg.extract_urls(text);
    assert_eq!(urls.len(), 0);
}

#[test]
fn test_filename_sanitization() {
    let bad_name = "test<file>:name?.txt";
    let sanitized = sanitize_filename(bad_name);
    assert!(!sanitized.contains('<'));
    assert!(!sanitized.contains('>'));
    assert!(!sanitized.contains(':'));
    assert!(!sanitized.contains('?'));

    // Test whitespace trimming
    let name = "  filename.txt  ";
    let sanitized = sanitize_filename(name);
    assert_eq!(sanitized, "filename.txt");

    // Test dot trimming
    let name = "...filename.txt...";
    let sanitized = sanitize_filename(name);
    assert!(!sanitized.starts_with('.'));
    assert!(!sanitized.ends_with('.'));

    // Test length limit
    let long_name = "a".repeat(300);
    let sanitized = sanitize_filename(&long_name);
    assert!(sanitized.len() <= 255);
}

#[test]
fn test_regex_findall() {
    let pattern = r"\d+";
    let text = "I have 42 apples and 123 oranges";
    let matches = find_all(pattern, text).unwrap();
    assert_eq!(matches.len(), 2);
    assert!(matches.contains(&"42".to_string()));
    assert!(matches.contains(&"123".to_string()));

    // Test invalid regex
    let invalid = r"[invalid(";
    let result = find_all(invalid, text);
    assert!(result.is_err());
}

#[test]
fn test_regex_replace() {
    let pattern = r"\d+";
    let replacement = "NUM";
    let text = "I have 42 apples and 123 oranges";
    let result = replace_all(pattern, replacement, text).unwrap();
    assert_eq!(result, "I have NUM apples and NUM oranges");

    // Test invalid regex
    let invalid = r"[invalid(";
    let result = replace_all(invalid, "X", text);
    assert!(result.is_err());
}

#[test]
fn test_email_extraction_keeps_occurrence_order_and_duplicates() {
    let reg = PatternRegistry::new().unwrap();
    let emails = reg.extract_emails("Contact john@example.com or jane@test.org");
    assert_eq!(emails, vec!["john@example.com".to_string(), "jane@test.org".to_string()]);

    // duplicates are reported once per occurrence
    let emails = reg.extract_emails("a@b.com then A@B.COM");
    assert_eq!(emails, vec!["a@b.com".to_string(), "a@b.com".to_string()]);
}

#[test]
fn test_url_extraction_exact_order() {
    let reg = PatternRegistry::new().unwrap();
    let urls = reg.extract_urls("Visit https://example.com or http://test.org/path");
    assert_eq!(urls, vec!["https://example.com".to_string(), "http://test.org/path".to_string()]);
}

#[test]
fn test_sanitize_is_idempotent_on_plain_names() {
    for name in ["test<file>:name?.txt", "  filename.txt  ", "...filename.txt...", "", "a"] {
        let once = sanitize_filename(name);
        let twice = sanitize_filename(&once);
        assert_eq!(twice, once);
    }
    let long_name = "a".repeat(300);
    let once = sanitize_filename(&long_name);
    let twice = sanitize_filename(&once);
    assert_eq!(twice, once);
    assert_eq!(once.len(), 255);
}

#[test]
fn test_sanitize_replaces_one_for_one() {
    assert_eq!(sanitize_filename("test<file>:name?.txt"), "test_file__name_.txt");
    assert_eq!(sanitize_filename("a\u{0}b\u{1f}c"), "a_b_c");
}

#[test]
fn test_parse_headers_basic() {
    let headers = parse_headers("From: john@example.com\nSubject: Test\n");
    assert_eq!(
        headers,
        vec![
            "from".to_string(),
            "john@example.com".to_string(),
            "subject".to_string(),
            "Test".to_string()
        ]
    );
}

#[test]
fn test_parse_headers_stops_at_blank_line_and_drops_continuations() {
    let text = "Subject: Hello\n folded continuation\nX-Odd line without colon\nTo:  a@b.c  \n\nFrom: body@not.header\n";
    let headers = parse_headers(text);
    assert_eq!(
        headers,
        vec!["subject".to_string(), "Hello".to_string(), "to".to_string(), "a@b.c".to_string()]
    );
}

#[test]
fn test_parse_headers_empty_value_is_skipped() {
    // a colon with nothing after it does not match the header shape
    assert_eq!(parse_headers("Name:\n"), Vec::<String>::new());
    // a colon followed only by whitespace yields an empty, trimmed value
    assert_eq!(parse_headers("Name: \n"), vec!["name".to_string(), "".to_string()]);
}

#[test]
fn test_count_boundary_lines() {
    let text = "From alice@example.com\nHello\n\nFrom bob@example.com\nHi\nNot From a boundary\n";
    assert_eq!(count_boundary_lines(text), 2);
    assert_eq!(count_boundary_lines(""), 0);
    assert_eq!(count_boundary_lines("no boundaries here\nat all\n"), 0);
}

#[test]
fn test_metadata_batch_matches_single_extraction() {
    let reg = PatternRegistry::new().unwrap();
    let t1 = "Contact me at john@example.com".to_string();
    let t2 = "Visit https://example.com".to_string();
    let texts = vec![t1.clone(), t2.clone()];
    let results = reg.process_metadata_batch(&texts);
    assert_eq!(results.len(), 2);
    assert_eq!(results[0].emails, reg.extract_emails(&t1));
    assert_eq!(results[0].urls, reg.extract_urls(&t1));
    assert_eq!(results[1].emails, reg.extract_emails(&t2));
    assert_eq!(results[1].urls, reg.extract_urls(&t2));
    assert_eq!(results[0].email_count, 1);
    assert_eq!(results[0].url_count, 0);
    assert_eq!(results[1].email_count, 0);
    assert_eq!(results[1].url_count, 1);
}

#[test]
fn test_decode_falls_back_to_windows_1252() {
    // 0xE9 is not valid UTF-8 on its own; windows-1252 reads it as an e-acute
    let data = b"caf\xe9";
    assert_eq!(decode_text(data, None), "café");
}

#[test]
fn test_decode_with_windows_1252_hint() {
    let data = b"caf\xe9";
    assert_eq!(decode_text(data, Some("windows-1252")), "café");
}

#[test]
fn test_decode_unknown_label_falls_back_to_lossy_utf8() {
    // the label is unrecognized, so UTF-8 decodes 0xFF with a replacement,
    // and the reported replacement routes to the lossy decode of the input
    let data = b"\xff";
    assert_eq!(decode_text(data, Some("no-such-encoding")), "\u{FFFD}");
}

#[test]
fn test_detect_encoding_uses_statistical_detector() {
    // not valid UTF-8, so the tiered policy reaches the statistical detector
    let data = b"l'\xe9t\xe9 est arriv\xe9, venez d\xe9guster un caf\xe9 cr\xe8me";
    assert_eq!(detect_encoding(data), "windows-1252");
}

#[test]
fn test_error_messages() {
    let err = find_all("[invalid(", "text").unwrap_err();
    assert!(matches!(err, MailError::InvalidPattern(_)));
    assert!(!err.message().is_empty());
    let io = MailError::IoError("cannot open".to_string());
    assert_eq!(io.message(), "cannot open");
}

#[test]
fn test_find_all_empty_result() {
    let matches = find_all(r"\d+", "no digits").unwrap();
    assert!(matches.is_empty());
}

#[test]
fn test_parse_headers_handles_crlf_line_endings() {
    let headers = parse_headers("From: john@example.com\r\nSubject: Test\r\n\r\nBody: no\r\n");
    assert_eq!(
        headers,
        vec![
            "from".to_string(),
            "john@example.com".to_string(),
            "subject".to_string(),
            "Test".to_string()
        ]
    );
}

#[test]
fn test_count_boundary_lines_handles_crlf() {
    assert_eq!(count_boundary_lines("From a\r\nbody\r\nFrom b\r\n"), 2);
}
