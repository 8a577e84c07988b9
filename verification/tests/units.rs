use mdbook_wavedrom::{escape_html_bytes, file_already_listed, Wavedrom};

#[test]
fn escapes_each_markup_byte() {
    let escaped = escape_html_bytes(b"<>\"&x");
    assert_eq!(b"&lt;&gt;&quot;&amp;x".to_vec(), escaped);
}

#[test]
fn escape_keeps_plain_text() {
    let escaped = escape_html_bytes(b"plain text 123");
    assert_eq!(b"plain text 123".to_vec(), escaped);
}

#[test]
fn preprocessor_name() {
    assert_eq!("wavedrom", Wavedrom.name());
}

#[test]
fn supports_html_renderer_only() {
    assert!(Wavedrom.supports_renderer("html"));
    assert!(!Wavedrom.supports_renderer("markdown"));
    assert!(!Wavedrom.supports_renderer(""));
}

#[test]
fn finds_listed_file_by_suffix() {
    let entries = vec![Some("theme/wavedrom.min.js".to_string())];
    assert!(file_already_listed(&entries, "wavedrom.min.js"));
}

#[test]
fn missing_file_is_not_listed() {
    let entries = vec![Some("other.js".to_string())];
    assert!(!file_already_listed(&entries, "wavedrom.min.js"));
    let empty: Vec<Option<String>> = Vec::new();
    assert!(!file_already_listed(&empty, "wavedrom.min.js"));
}

#[test]
fn non_string_entry_counts_as_listed() {
    let entries = vec![Some("other.js".to_string()), None];
    assert!(file_already_listed(&entries, "wavedrom.min.js"));
}
