use shadowenv::prompt_widget::{widget, GLYPH};

#[test]
fn test_run_with_empty_data() {
    assert_eq!(widget(""), None);
}

#[test]
fn test_run_with_zero_hash() {
    assert_eq!(widget("00000000:{}"), None);
}

#[test]
fn test_run_with_nonzero_hash() {
    assert_eq!(widget("12345678:{}"), Some(GLYPH));
    assert_eq!(GLYPH, "\x1b[38;5;245m\u{2591}\x1b[0m");
}

#[test]
fn test_run_with_malformed_data() {
    assert_eq!(widget("invalid:data"), Some(GLYPH));
    assert_eq!(widget(":"), Some(GLYPH));
    assert_eq!(widget("12345678:"), Some(GLYPH));
}

#[test]
fn test_run_with_unicode_hash() {
    assert_eq!(widget("🦀rust:{}"), Some(GLYPH));
}

#[test]
fn widget_is_empty_for_a_short_run_of_zeros_only_when_eight() {
    assert_eq!(widget("0000000"), Some(GLYPH));
    assert_eq!(widget("00000000"), None);
    assert_eq!(widget("0000000000000000:{\"scalars\":[],\"lists\":[]}"), None);
}
