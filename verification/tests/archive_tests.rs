use emx_txtar::{
    BinaryReason, Command, EncodingConfig, EncodingDetection, File, SnippetParseError, SnippetRef,
};

#[test]
fn test_file_needs_binary_encoding_utf8() {
    let file = File::new("normal.txt", "hello 世界".as_bytes());
    assert!(!file.is_binary);
}

#[test]
fn test_file_needs_binary_encoding_binary() {
    let file = File::new("image.jpg", &[0xFF, 0xD8, 0xFF, 0xE0]);
    assert!(file.is_binary);
}

#[test]
fn test_archive_name() {
    let text_file = File::new("test.txt", "hello".as_bytes());
    assert_eq!(text_file.archive_name(), "test.txt");

    let binary_file = File::with_encoding("image.jpg", &[0xFF, 0xD8], true);
    assert_eq!(binary_file.archive_name(), "image.jpg[.base64]");
}

#[test]
fn test_parse_archive_name() {
    assert_eq!(
        File::parse_archive_name("test.txt"),
        ("test.txt".to_string(), false)
    );
    assert_eq!(
        File::parse_archive_name("image.jpg[.base64]"),
        ("image.jpg".to_string(), true)
    );
}

#[test]
fn test_content_marker_detection() {
    let content = "This is a file\n-- some_file.txt --\nwith marker pattern";
    let file = File::new("test.txt", content.as_bytes());
    assert!(file.is_binary);
    assert_eq!(file.binary_reason, Some(BinaryReason::ContentConflict));
}

#[test]
fn test_content_marker_detection_empty_marker() {
    let content = "This is a file\n--   --\nwith empty marker";
    let file = File::new("test.txt", content.as_bytes());
    assert!(!file.is_binary);
}

#[test]
fn test_encoding_detection_text() {
    let data = "Hello, world!".as_bytes();
    let detection = File::detect_encoding("test.txt", data, &EncodingConfig::default());
    assert!(matches!(detection, EncodingDetection::Text { .. }));
}

#[test]
fn test_encoding_detection_binary_utf8() {
    let data = b"\xFF\xFE\xFD";
    let detection = File::detect_encoding("test.txt", data, &EncodingConfig::default());
    assert!(matches!(detection, EncodingDetection::Binary { reason: BinaryReason::InvalidUtf8 }));
}

#[test]
fn test_encoding_detection_content_conflict() {
    let data = b"-- file.txt --\ncontent";
    let detection = File::detect_encoding("test.txt", data, &EncodingConfig::default());
    assert!(matches!(detection, EncodingDetection::Binary { reason: BinaryReason::ContentConflict }));
}

#[test]
fn test_encoding_config_disable_content_check() {
    let data = b"-- file.txt --\ncontent";
    let config = EncodingConfig {
        check_content_markers: false,
        validate_utf8: true,
    };
    let detection = File::detect_encoding("test.txt", data, &config);
    assert!(matches!(detection, EncodingDetection::Text { .. }));
}

#[test]
fn test_encoding_config_disable_utf8_check() {
    let data = b"\xFF\xFE\xFD";
    let config = EncodingConfig {
        check_content_markers: true,
        validate_utf8: false,
    };
    let detection = File::detect_encoding("test.txt", data, &config);
    assert!(matches!(detection, EncodingDetection::Text { .. }));
}

#[test]
fn test_command_parse_simple() {
    let input = "[command: rg](#search1)";
    let cmd = Command::parse(input).unwrap();
    assert_eq!(cmd.name, "rg");
    assert_eq!(cmd.href, "search1");
}

#[test]
fn test_command_parse_with_spaces() {
    let input = "[command: rg ](#search2)";
    let cmd = Command::parse(input).unwrap();
    assert_eq!(cmd.name, "rg");
    assert_eq!(cmd.href, "search2");
}

#[test]
fn test_command_parse_complex_name() {
    let input = "[command: git diff](#change1)";
    let cmd = Command::parse(input).unwrap();
    assert_eq!(cmd.name, "git diff");
    assert_eq!(cmd.href, "change1");
}

#[test]
fn test_command_parse_invalid_no_href() {
    let input = "[command: rg]";
    assert!(Command::parse(input).is_none());
}

#[test]
fn test_command_parse_invalid_no_hash() {
    let input = "[command: rg](search1)";
    assert!(Command::parse(input).is_none());
}

#[test]
fn test_snippet_ref_parse_simple() {
    let input = "[.snippet:42]";
    let ref_obj = SnippetRef::parse(input).unwrap();
    assert!(ref_obj.command_href.is_none());
    assert_eq!(ref_obj.line, 42);
}

#[test]
fn test_snippet_ref_parse_with_full_href() {
    let input = "[.snippet#search1:10]";
    let ref_obj = SnippetRef::parse(input).unwrap();
    assert_eq!(ref_obj.command_href.as_deref(), Some("search1"));
    assert_eq!(ref_obj.line, 10);
}

#[test]
fn test_snippet_ref_parse_with_shorthand_href() {
    let input = "[.#search1:10]";
    let ref_obj = SnippetRef::parse(input).unwrap();
    assert_eq!(ref_obj.command_href.as_deref(), Some("search1"));
    assert_eq!(ref_obj.line, 10);
}

#[test]
fn test_snippet_ref_parse_invalid_no_bracket() {
    let input = ".snippet:42";
    assert!(SnippetRef::parse(input).is_err());
}

#[test]
fn test_snippet_ref_parse_invalid_no_dot_hash() {
    let input = "search1:10";
    assert!(SnippetRef::parse(input).is_err());
}

#[test]
fn test_snippet_ref_parse_error_invalid_format() {
    let input = "invalid";
    let err = SnippetRef::parse(input).unwrap_err();
    assert!(matches!(err, SnippetParseError::InvalidFormat));
}

#[test]
fn test_snippet_ref_parse_error_missing_bracket() {
    let input = "[.snippet:42";
    let err = SnippetRef::parse(input).unwrap_err();
    assert!(matches!(err, SnippetParseError::MissingClosingBracket));
}
