use lexer::encoding::split_ascii_prefix;
use lexer::util::{split_digits, split_spaces, split_var_names};

#[test]
fn letters_run_stops_at_a_digit() {
    assert_eq!(split_var_names("abc123"), 3);
}

#[test]
fn letters_run_may_reach_the_end() {
    assert_eq!(split_var_names("abc"), 3);
    assert_eq!(split_var_names("z"), 1);
}

#[test]
fn letters_run_stops_at_other_characters() {
    assert_eq!(split_var_names("a b"), 1);
    assert_eq!(split_var_names("abC"), 2);
    assert_eq!(split_var_names("ab{"), 2);
    assert_eq!(split_var_names("ab`"), 2);
    assert_eq!(split_var_names("abé"), 2);
}

#[test]
fn digits_run_stops_at_a_letter() {
    assert_eq!(split_digits("123abc"), 3);
}

#[test]
fn digits_run_may_reach_the_end() {
    assert_eq!(split_digits("0123456789"), 10);
    assert_eq!(split_digits("7"), 1);
}

#[test]
fn digits_run_stops_at_other_characters() {
    assert_eq!(split_digits("1+2"), 1);
    assert_eq!(split_digits("12/"), 2);
    assert_eq!(split_digits("12:"), 2);
    assert_eq!(split_digits("12٣"), 2);
}

#[test]
fn spaces_run_stops_at_anything_else() {
    assert_eq!(split_spaces("   x"), 3);
    assert_eq!(split_spaces(" "), 1);
    assert_eq!(split_spaces(" \t"), 1);
    assert_eq!(split_spaces("  \u{a0}"), 2);
}

#[test]
fn ascii_prefix_is_split_off() {
    assert_eq!(split_ascii_prefix("ab€c", 2), ("ab", "€c"));
    assert_eq!(split_ascii_prefix("ab", 0), ("", "ab"));
    assert_eq!(split_ascii_prefix("ab", 2), ("ab", ""));
}
