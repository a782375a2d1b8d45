use grammar_check::text::{find_sub, split_lines, split_str, str_eq};
use grammar_check::tokenizer::{is_int_literal, tokenizer, TokenType};

#[test]
fn test_tokenizer() {
    let example1 = "contact A B 20 50\nrate 5 20 35\n\ndelay A 3\n";

    let tokens = tokenizer(example1);

    assert_eq!(
        tokens,
        vec![
            TokenType::Keyword("contact".to_string()),
            TokenType::Text,
            TokenType::Text,
            TokenType::Int,
            TokenType::Int,
            TokenType::Linebreak,
            TokenType::Keyword("rate".to_string()),
            TokenType::Int,
            TokenType::Int,
            TokenType::Int,
            TokenType::Linebreak,
            TokenType::Keyword("delay".to_string()),
            TokenType::Text,
            TokenType::Int,
            TokenType::Linebreak,
        ]
    )
}

#[test]
fn empty_input_has_no_tokens() {
    assert_eq!(tokenizer(""), vec![]);
}

#[test]
fn extra_spaces_and_blank_lines_are_skipped() {
    assert_eq!(
        tokenizer("  a  b \n\n\nc"),
        vec![
            TokenType::Text,
            TokenType::Text,
            TokenType::Linebreak,
            TokenType::Text,
            TokenType::Linebreak,
        ]
    );
}

#[test]
fn int_literal_classification() {
    assert!(is_int_literal("0"));
    assert!(is_int_literal("20"));
    assert!(is_int_literal("-5"));
    assert!(is_int_literal("+7"));
    assert!(is_int_literal("2147483647"));
    assert!(is_int_literal("-2147483648"));
    assert!(!is_int_literal("2147483648"));
    assert!(!is_int_literal("-2147483649"));
    assert!(!is_int_literal("99999999999999999999"));
    assert!(!is_int_literal(""));
    assert!(!is_int_literal("-"));
    assert!(!is_int_literal("+"));
    assert!(!is_int_literal("1a"));
    assert!(!is_int_literal("a1"));
    assert!(!is_int_literal("1 2"));
}

#[test]
fn words_that_are_not_integers_are_text() {
    assert_eq!(
        tokenizer("hello 2147483648 -12"),
        vec![
            TokenType::Text,
            TokenType::Text,
            TokenType::Int,
            TokenType::Linebreak,
        ]
    );
}

#[test]
fn carriage_returns_are_stripped() {
    assert_eq!(
        tokenizer("rate 1\r\ncontact\r\n"),
        vec![
            TokenType::Keyword("rate".to_string()),
            TokenType::Int,
            TokenType::Linebreak,
            TokenType::Keyword("contact".to_string()),
            TokenType::Linebreak,
        ]
    );
}

#[test]
fn str_eq_compares_contents() {
    assert!(str_eq("abc", "abc"));
    assert!(!str_eq("abc", "abd"));
    assert!(!str_eq("abc", "ab"));
    assert!(str_eq("", ""));
}

#[test]
fn find_sub_finds_leftmost() {
    assert_eq!(find_sub("a | b | c", " | "), Some(1));
    assert_eq!(find_sub("abc", "x"), None);
    assert_eq!(find_sub("abc", "abcd"), None);
    assert_eq!(find_sub("abab", "ab"), Some(0));
}

#[test]
fn split_str_splits_on_separator() {
    let pieces = split_str("C S | C", " | ");
    assert_eq!(pieces, vec!["C S".to_string(), "C".to_string()]);

    let pieces = split_str("a  b", " ");
    assert_eq!(
        pieces,
        vec!["a".to_string(), "".to_string(), "b".to_string()]
    );

    assert_eq!(split_str("", "|"), vec!["".to_string()]);
}

#[test]
fn split_lines_drops_final_empty_line() {
    assert_eq!(split_lines(""), Vec::<String>::new());
    assert_eq!(split_lines("a\nb"), vec!["a".to_string(), "b".to_string()]);
    assert_eq!(split_lines("a\nb\n"), vec!["a".to_string(), "b".to_string()]);
    assert_eq!(
        split_lines("a\r\n\nb"),
        vec!["a".to_string(), "".to_string(), "b".to_string()]
    );
}
