use text_analyzer::chars::{is_whitespace, normalize};

#[test]
fn is_whitespace_agrees_with_the_standard_predicate_everywhere() {
    for code in 0..=0x10ffffu32 {
        if let Some(c) = char::from_u32(code) {
            assert_eq!(is_whitespace(c), c.is_whitespace(), "U+{:04X}", code);
        }
    }
}

#[test]
fn is_whitespace_on_named_characters() {
    assert!(is_whitespace(' '));
    assert!(is_whitespace('\t'));
    assert!(is_whitespace('\n'));
    assert!(is_whitespace('\r'));
    assert!(is_whitespace('\u{a0}'));
    assert!(is_whitespace('\u{3000}'));
    assert!(!is_whitespace('a'));
    assert!(!is_whitespace('!'));
    assert!(!is_whitespace('\u{8}'));
    assert!(!is_whitespace('\u{e}'));
    assert!(!is_whitespace('\u{1fff}'));
    assert!(!is_whitespace('\u{200b}'));
    assert!(!is_whitespace('越'));
}

#[test]
fn normalize_folds_to_lowercase() {
    assert_eq!(normalize('A'), 'a');
    assert_eq!(normalize('a'), 'a');
    assert_eq!(normalize('Z'), 'z');
    assert_eq!(normalize('É'), 'é');
    assert_eq!(normalize('Ω'), 'ω');
    assert_eq!(normalize('!'), '!');
    assert_eq!(normalize('7'), '7');
    assert_eq!(normalize('終'), '終');
}

#[test]
fn normalize_keeps_the_first_scalar_of_the_lowercase_form() {
    assert_eq!(normalize('\u{130}'), 'i');
    for code in 0..=0x10ffffu32 {
        if let Some(c) = char::from_u32(code) {
            assert_eq!(Some(normalize(c)), c.to_lowercase().next());
        }
    }
}
