use webtools::error::AppError;
use webtools::text::clean_inline;

#[test]
fn clean_inline_collapses_whitespace() {
    assert_eq!(clean_inline("  a\u{a0}\u{2003}b \n c  "), "a b c");
    assert_eq!(clean_inline(""), "");
    assert_eq!(clean_inline(" \t\n"), "");
}

#[test]
fn error_message_is_its_text() {
    assert_eq!(AppError::Usage("bad flag".to_string()).message(), "bad flag");
    assert_eq!(AppError::Runtime("boom".to_string()).message(), "boom");
    let json_error = serde_json::from_str::<serde_json::Value>("{").unwrap_err();
    let shown = json_error.to_string();
    assert_eq!(AppError::from(json_error).message(), shown);
}
