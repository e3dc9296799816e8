use lexer::diagnostic::{push_decimal, push_spaces};
use lexer::tokenize::{InvalidCharacter, Tokenizer};

fn report(input: &str) -> String {
    Tokenizer::new().tokenize(input.to_string()).unwrap_err().message()
}

fn numeral(n: usize) -> String {
    let mut text = String::new();
    push_decimal(&mut text, n);
    text
}

#[test]
fn report_points_at_the_column() {
    assert_eq!(report("1+@2"), "1+@2\n  ^ Tokenizer error: invalid character @ (column 2)");
}

#[test]
fn report_at_column_zero_has_no_indent() {
    assert_eq!(report("#"), "#\n^ Tokenizer error: invalid character # (column 0)");
}

#[test]
fn report_writes_the_column_in_decimal() {
    assert_eq!(
        report("aaaaaaaaaaaa?"),
        "aaaaaaaaaaaa?\n            ^ Tokenizer error: invalid character ? (column 12)"
    );
}

#[test]
fn report_shows_a_non_ascii_character() {
    assert_eq!(report("a=é"), "a=é\n  ^ Tokenizer error: invalid character é (column 2)");
}

#[test]
fn report_is_made_from_the_fields() {
    let error = InvalidCharacter { character: 'X', column: 3, line: "abcX".to_string() };
    assert_eq!(error.message(), "abcX\n   ^ Tokenizer error: invalid character X (column 3)");
}

#[test]
fn numeral_of_zero_is_one_digit() {
    assert_eq!(numeral(0), "0");
}

#[test]
fn numeral_has_no_leading_zeros() {
    assert_eq!(numeral(7), "7");
    assert_eq!(numeral(10), "10");
    assert_eq!(numeral(109), "109");
    assert_eq!(numeral(12345), "12345");
}

#[test]
fn numeral_of_the_largest_value() {
    assert_eq!(numeral(usize::MAX), format!("{}", usize::MAX));
}

#[test]
fn numeral_is_appended_to_what_is_there() {
    let mut text = String::from("n=");
    push_decimal(&mut text, 42);
    assert_eq!(text, "n=42");
}

#[test]
fn spaces_are_appended_to_what_is_there() {
    let mut text = String::from("|");
    push_spaces(&mut text, 3);
    assert_eq!(text, "|   ");
    push_spaces(&mut text, 0);
    assert_eq!(text, "|   ");
}
