//! Character-run classifiers: how far a run of letters, digits or spaces
//! reaches from the front of a text.

use crate::encoding::{ascii_char, lemma_ascii_prefix, lemma_byte_after_ascii_prefix,
    lemma_first_byte};
use crate::grammar::{is_digit, is_letter, is_space, lemma_run_length_is_maximal,
    lemma_run_length_is_unique, run_length, CharClass};
use vstd::prelude::*;
use vstd::utf8::encode_utf8;

verus! {

/// Whether a byte is the ASCII character of a member of the class.
fn class_has_byte(class: CharClass, b: u8) -> (found: bool)
    ensures
        found == (b < 0x80 && class.contains(ascii_char(b))),
{
    match class {
        CharClass::Letter => 'a' as u8 <= b && b <= 'z' as u8,
        CharClass::Digit => '0' as u8 <= b && b <= '9' as u8,
        CharClass::Space => b == ' ' as u8,
    }
}

/// The length of the run of characters of `class` at the front of `s`, which
/// begins with one.
fn split_run(s: &str, class: CharClass) -> (n: usize)
    requires
        s@.len() > 0,
        class.contains(s@[0]),
    ensures
        n == run_length(s@, class),
        1 <= n <= s@.len(),
{
    let bytes = s.as_bytes();
    proof {
        lemma_first_byte(s@);
    }
    let mut n: usize = 1;
    while n < bytes.len() && class_has_byte(class, bytes[n])
        invariant
            1 <= n <= bytes.len(),
            bytes@ == encode_utf8(s@),
            forall|i: int|
                0 <= i < n ==> bytes[i] < 0x80 && class.contains(ascii_char(#[trigger] bytes[i])),
        decreases bytes.len() - n,
    {
        n += 1;
    }
    proof {
        lemma_ascii_prefix(s@, n as int);
        lemma_byte_after_ascii_prefix(s@, n as int);
        assert forall|i: int| 0 <= i < n implies class.contains(#[trigger] s@[i]) by {
            assert(s@[i] == ascii_char(bytes[i]));
        }
        lemma_run_length_is_unique(s@, class, n as nat);
    }
    n
}

/// The number of leading lowercase letters of `s`, which begins with one:
/// the length of the word at its front.
pub fn split_var_names(s: &str) -> (n: usize)
    requires
        s@.len() > 0,
        is_letter(s@[0]),
    ensures
        n == run_length(s@, CharClass::Letter),
        1 <= n <= s@.len(),
        forall|i: int| 0 <= i < n ==> is_letter(#[trigger] s@[i]),
        n < s@.len() ==> !is_letter(s@[n as int]),
{
    proof {
        lemma_run_length_is_maximal(s@, CharClass::Letter);
    }
    split_run(s, CharClass::Letter)
}

/// The number of leading decimal digits of `s`, which begins with one: the
/// length of the number at its front.
pub fn split_digits(s: &str) -> (n: usize)
    requires
        s@.len() > 0,
        is_digit(s@[0]),
    ensures
        n == run_length(s@, CharClass::Digit),
        1 <= n <= s@.len(),
        forall|i: int| 0 <= i < n ==> is_digit(#[trigger] s@[i]),
        n < s@.len() ==> !is_digit(s@[n as int]),
{
    proof {
        lemma_run_length_is_maximal(s@, CharClass::Digit);
    }
    split_run(s, CharClass::Digit)
}

/// The number of leading spaces of `s`, which begins with one.
pub fn split_spaces(s: &str) -> (n: usize)
    requires
        s@.len() > 0,
        is_space(s@[0]),
    ensures
        n == run_length(s@, CharClass::Space),
        1 <= n <= s@.len(),
        forall|i: int| 0 <= i < n ==> is_space(#[trigger] s@[i]),
        n < s@.len() ==> !is_space(s@[n as int]),
{
    proof {
        lemma_run_length_is_maximal(s@, CharClass::Space);
    }
    split_run(s, CharClass::Space)
}

} // verus!
