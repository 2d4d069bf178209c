use backend::categories::{category_labels, is_vague_or_generic_category};
use backend::text::{
    char_is_white_space, is_blank_str, join_strings, normalize, same_text, split_str,
    split_words, to_lowercase_str, trim_str,
};

#[test]
fn trim_removes_unicode_white_space_at_both_ends() {
    assert_eq!(trim_str("  \t hello world \n"), "hello world");
    assert_eq!(trim_str("\u{3000}x\u{a0}"), "x");
    assert_eq!(trim_str("   "), "");
    assert_eq!(trim_str(""), "");
    assert_eq!(trim_str("a"), "a");
}

#[test]
fn trim_is_idempotent_on_examples() {
    for s in ["  a b  ", "\u{2028}z", "", " x\u{85}"] {
        let once = trim_str(s);
        assert_eq!(trim_str(&once), once);
    }
}

#[test]
fn white_space_matches_std() {
    for c in ['\t', '\n', ' ', '\u{85}', '\u{a0}', '\u{1680}', '\u{2000}', '\u{200a}', '\u{2028}',
        '\u{2029}', '\u{202f}', '\u{205f}', '\u{3000}', 'a', '\u{200b}', '_', '\u{feff}']
    {
        assert_eq!(char_is_white_space(c), c.is_whitespace(), "{:?}", c);
    }
}

#[test]
fn blank_strings() {
    assert!(is_blank_str(" \t\n"));
    assert!(is_blank_str(""));
    assert!(!is_blank_str(" a "));
}

#[test]
fn lowercase_and_normalize() {
    assert_eq!(to_lowercase_str("ÉCOLE"), "école");
    assert_eq!(normalize("  Le Seigneur DES Anneaux "), "le seigneur des anneaux");
}

#[test]
fn split_on_separator_like_std() {
    let cases = ["Fiction / Science Fiction / General", "a / / b", " / ", "", "no sep", " / / ", "a/b"];
    for c in cases {
        let expected: Vec<String> = c.split(" / ").map(|s| s.to_string()).collect();
        assert_eq!(split_str(c, " / "), expected, "{:?}", c);
    }
}

#[test]
fn split_words_like_std() {
    for c in ["  Le  petit prince ", "", "   ", "one", "a\tb\nc"] {
        let expected: Vec<String> = c.split_whitespace().map(|s| s.to_string()).collect();
        assert_eq!(split_words(c), expected);
    }
}

#[test]
fn join_like_std() {
    let parts = vec!["a".to_string(), "b".to_string(), "c".to_string()];
    assert_eq!(join_strings(&parts, ", "), "a, b, c");
    assert_eq!(join_strings(&vec![], ", "), "");
    assert_eq!(join_strings(&vec!["x".to_string()], ", "), "x");
}

#[test]
fn same_text_compares_characters() {
    assert!(same_text("abc", "abc"));
    assert!(!same_text("abc", "abd"));
    assert!(!same_text("abc", "ab"));
}

#[test]
fn category_path_labels_are_split_and_trimmed() {
    assert_eq!(
        category_labels("Fiction / Science Fiction /  Space Opera "),
        vec!["Fiction".to_string(), "Science Fiction".to_string(), "Space Opera".to_string()]
    );
    assert_eq!(category_labels("Cooking"), vec!["Cooking".to_string()]);
    assert_eq!(category_labels(""), vec!["".to_string()]);
}

#[test]
fn vague_categories_are_recognised() {
    assert!(is_vague_or_generic_category("Fiction"));
    assert!(is_vague_or_generic_category("  GENERAL "));
    assert!(is_vague_or_generic_category("Général"));
    assert!(is_vague_or_generic_category(""));
    assert!(is_vague_or_generic_category("   "));
    assert!(is_vague_or_generic_category("Young Adult Fiction"));
    assert!(!is_vague_or_generic_category("Science Fiction"));
    assert!(!is_vague_or_generic_category("Cooking"));
}

#[test]
fn vague_check_ignores_surrounding_space() {
    for c in ["fiction", " Fiction ", "Histoire", "  Histoire\t"] {
        assert_eq!(is_vague_or_generic_category(c), is_vague_or_generic_category(c.trim()));
    }
}

#[test]
fn vague_test_ignores_white_padding() {
    for name in ["Fiction", "Science", "général", ""] {
        let padded = format!(" \t{}\n ", name);
        assert_eq!(is_vague_or_generic_category(&padded), is_vague_or_generic_category(name));
    }
}
