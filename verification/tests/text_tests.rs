use ata::text::fix_newlines;
use ata::text::post_process;
use ata::text::remove_leading_newlines;
use ata::text::remove_quotation_marks;
use ata::text::sanitize_input;
use ata::text::sanitize_response;
use ata::text::store_and_do_nothing;
use ata::text::join_and_clear;

#[test]
fn leading_newlines() {
    assert_eq!(
        sanitize_input("foo\"bar".to_string()),
        "foo\\\"bar".to_string()
    );
}

#[test]
fn sanitize_strips_trailing_newlines() {
    assert_eq!(sanitize_input("hello\n\n\n".to_string()), "hello".to_string());
    assert_eq!(sanitize_input("".to_string()), "".to_string());
    assert_eq!(sanitize_input("\n".to_string()), "".to_string());
}

#[test]
fn store_returns_nothing() {
    let mut buffer: Vec<String> = Vec::new();
    let out = store_and_do_nothing(&mut buffer, "tail\\");
    assert_eq!(out, "".to_string());
    assert_eq!(buffer, vec!["tail\\".to_string()]);
}

#[test]
fn join_translates_escapes() {
    let mut buffer: Vec<String> = vec!["first\\".to_string()];
    let out = join_and_clear(&mut buffer, "nsecond");
    assert_eq!(out, "first\nsecond".to_string());
    assert!(buffer.is_empty());
}

#[test]
fn split_escape_yields_one_newline() {
    let mut buffer: Vec<String> = Vec::new();
    let first = post_process(&mut buffer, "\\");
    assert_eq!(first, "".to_string());
    assert_eq!(buffer.len(), 1);
    let second = post_process(&mut buffer, "n");
    assert_eq!(second, "\n".to_string());
    assert!(buffer.is_empty());
}

#[test]
fn unbuffered_delta_passes_through() {
    let mut buffer: Vec<String> = Vec::new();
    // The narrow repair applies only to split escapes: an unbuffered single
    // delta keeps its two-character escape.
    let out = fix_newlines(&mut buffer, "a\\nb");
    assert_eq!(out, "a\\nb".to_string());
    assert!(buffer.is_empty());
}

#[test]
fn buffered_join_repairs_split_escape_in_words() {
    let mut buffer: Vec<String> = Vec::new();
    assert_eq!(fix_newlines(&mut buffer, "Hello\\"), "".to_string());
    let out = fix_newlines(&mut buffer, "nWorld");
    assert_eq!(out, "Hello\nWorld".to_string());
}

#[test]
fn escaped_backslash_passes_through() {
    let mut buffer: Vec<String> = Vec::new();
    // An even run of trailing backslashes is complete: nothing is buffered.
    let out = fix_newlines(&mut buffer, "tail\\\\");
    assert_eq!(out, "tail\\\\".to_string());
    assert!(buffer.is_empty());
    // An odd run still buffers: the final backslash is unpaired.
    let out = fix_newlines(&mut buffer, "tail\\\\\\");
    assert_eq!(out, "".to_string());
    assert_eq!(buffer.len(), 1);
}

#[test]
fn quotation_marks_removed() {
    assert_eq!(
        remove_quotation_marks("\"quoted\"".to_string()),
        "quoted".to_string()
    );
    assert_eq!(remove_quotation_marks("ab".to_string()), "".to_string());
}

#[test]
fn leading_newlines_removed() {
    assert_eq!(
        remove_leading_newlines("\n\nhello\n".to_string()),
        "hello\n".to_string()
    );
    assert_eq!(remove_leading_newlines("hi".to_string()), "hi".to_string());
}

#[test]
fn response_sanitized() {
    assert_eq!(
        sanitize_response("\"\\nfoo\"".to_string()),
        "foo".to_string()
    );
    assert_eq!(
        sanitize_response("\"line one\\nline two\"".to_string()),
        "line one\nline two".to_string()
    );
}
