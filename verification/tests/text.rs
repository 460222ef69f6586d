use sentence_gpt_rs_mlx::text::normalize_training_document;

#[test]
fn normalization_keeps_lowercase_letters_and_single_spaces() {
    assert_eq!(normalize_training_document("Hello,  World!\n"), "hello world");
    assert_eq!(normalize_training_document("  leading and trailing  "), "leading and trailing");
    assert_eq!(normalize_training_document("a1b2 c3"), "ab c");
    assert_eq!(normalize_training_document(""), "");
    assert_eq!(normalize_training_document("123 !!!"), "");
}

#[test]
fn normalization_lowercases_through_unicode_mappings() {
    // 'À' lowercases to 'à', which is not an ASCII letter.
    assert_eq!(normalize_training_document("ÀB"), "b");
    // The Kelvin sign lowercases to an ASCII 'k'.
    assert_eq!(normalize_training_document("\u{212A}ELVIN"), "kelvin");
}

#[test]
fn normalization_is_idempotent() {
    let once = normalize_training_document("The  Quick\tBrown FOX, jumped!");
    assert_eq!(once, "the quick brown fox jumped");
    assert_eq!(normalize_training_document(&once), once);
}

#[test]
fn normalized_text_has_no_leading_trailing_or_double_spaces() {
    let normalized = normalize_training_document("\t Mixed   CASE \n text \r\n");
    assert_eq!(normalized, "mixed case text");
    assert!(!normalized.starts_with(' '));
    assert!(!normalized.ends_with(' '));
    assert!(!normalized.contains("  "));
    assert!(normalized.chars().all(|c| c == ' ' || c.is_ascii_lowercase()));
}
