//! The lexical grammar as mathematics: the character classes, the reserved
//! symbols, and the token stream that a text stands for.

use crate::encoding::is_ascii_char;
use crate::tokenize::TokenKind;
use vstd::prelude::*;

verus! {

/// The mathematical value of a token: its kind and its text as a sequence of
/// characters.
pub struct TokenView {
    pub kind: TokenKind,
    pub text: Seq<char>,
}

/// The letters of identifiers: `a` to `z`.
pub open spec fn is_letter(c: char) -> bool {
    'a' <= c <= 'z'
}

/// The decimal digits.
pub open spec fn is_digit(c: char) -> bool {
    '0' <= c <= '9'
}

/// The only separator is the space character; tabs and line breaks are not
/// part of the language.
pub open spec fn is_space(c: char) -> bool {
    c == ' '
}

/// The reserved symbols of one character: `+ - * / ( ) > < = ;`.
pub open spec fn is_symbol(c: char) -> bool {
    c == '+' || c == '-' || c == '*' || c == '/' || c == '(' || c == ')' || c == '>' || c == '<'
        || c == '=' || c == ';'
}

/// The reserved symbols of two characters: `==`, `!=`, `>=` and `<=`.
pub open spec fn is_symbol_pair(first: char, second: char) -> bool {
    (first == '=' || first == '!' || first == '>' || first == '<') && second == '='
}

/// The text of the keyword `return`.
pub open spec fn return_keyword() -> Seq<char> {
    seq!['r', 'e', 't', 'u', 'r', 'n']
}

/// The text that the end-of-input token carries: a single NUL character.
pub open spec fn end_text() -> Seq<char> {
    seq!['\0']
}

/// The token that ends every stream.
pub open spec fn end_of_input() -> TokenView {
    TokenView { kind: TokenKind::EOF, text: end_text() }
}

/// A class of characters of which a maximal run is read in one step.
#[derive(Clone, Copy, PartialEq, Eq, Structural, Debug)]
pub enum CharClass {
    Letter,
    Digit,
    Space,
}

impl CharClass {
    /// Whether `c` belongs to the class.
    pub open spec fn contains(self, c: char) -> bool {
        match self {
            CharClass::Letter => is_letter(c),
            CharClass::Digit => is_digit(c),
            CharClass::Space => is_space(c),
        }
    }
}

/// The number of leading characters of `s` that belong to `class`.
pub open spec fn run_length(s: Seq<char>, class: CharClass) -> nat
    decreases s.len(),
{
    if s.len() > 0 && class.contains(s[0]) {
        1 + run_length(s.skip(1), class)
    } else {
        0
    }
}

/// What stands at the front of a text that is not empty.
pub enum LexemeView {
    /// A token of the given kind, made of the first `len` characters.
    Token { kind: TokenKind, len: nat },
    /// `len` separators, which give no token.
    Blank { len: nat },
    /// A character with which nothing begins.
    Invalid,
}

/// The lexeme at the front of `s`. The rules are tried in this order, so a
/// symbol of two characters wins over one of a single character, and a word
/// is a keyword only if the whole run of letters is.
pub open spec fn first_lexeme(s: Seq<char>) -> LexemeView
    recommends
        s.len() > 0,
{
    if s.len() >= 2 && is_symbol_pair(s[0], s[1]) {
        LexemeView::Token { kind: TokenKind::Reserved, len: 2 }
    } else if is_symbol(s[0]) {
        LexemeView::Token { kind: TokenKind::Reserved, len: 1 }
    } else if is_space(s[0]) {
        LexemeView::Blank { len: run_length(s, CharClass::Space) }
    } else if is_letter(s[0]) {
        let len: nat = run_length(s, CharClass::Letter);
        if s.take(len as int) == return_keyword() {
            LexemeView::Token { kind: TokenKind::RETURN, len }
        } else {
            LexemeView::Token { kind: TokenKind::IDENT, len }
        }
    } else if is_digit(s[0]) {
        LexemeView::Token { kind: TokenKind::NUM, len: run_length(s, CharClass::Digit) }
    } else {
        LexemeView::Invalid
    }
}

/// A run is no longer than the text, and not empty where the text begins
/// with a character of the class.
pub proof fn lemma_run_length_bounds(s: Seq<char>, class: CharClass)
    ensures
        run_length(s, class) <= s.len(),
        s.len() > 0 && class.contains(s[0]) ==> run_length(s, class) >= 1,
    decreases s.len(),
{
    if s.len() > 0 && class.contains(s[0]) {
        lemma_run_length_bounds(s.skip(1), class);
    }
}

/// The run is the longest prefix made of characters of the class: they all
/// belong to it, and the character behind them, if there is one, does not.
pub proof fn lemma_run_length_is_maximal(s: Seq<char>, class: CharClass)
    ensures
        run_length(s, class) <= s.len(),
        forall|i: int| 0 <= i < run_length(s, class) ==> class.contains(#[trigger] s[i]),
        run_length(s, class) < s.len() ==> !class.contains(s[run_length(s, class) as int]),
    decreases s.len(),
{
    if s.len() > 0 && class.contains(s[0]) {
        let rest = s.skip(1);
        lemma_run_length_is_maximal(rest, class);
        assert forall|i: int| 0 <= i < run_length(s, class) implies class.contains(
            #[trigger] s[i],
        ) by {
            if i > 0 {
                assert(rest[i - 1] == s[i]);
            }
        }
        if run_length(s, class) < s.len() {
            assert(rest[run_length(rest, class) as int] == s[run_length(s, class) as int]);
        }
    }
}

/// Only one length is that of a prefix made of characters of the class and
/// followed by none of them.
pub proof fn lemma_run_length_is_unique(s: Seq<char>, class: CharClass, n: nat)
    requires
        n <= s.len(),
        forall|i: int| 0 <= i < n ==> class.contains(#[trigger] s[i]),
        n < s.len() ==> !class.contains(s[n as int]),
    ensures
        n == run_length(s, class),
{
    lemma_run_length_is_maximal(s, class);
}

/// A lexeme takes at least one character and no more than there are.
pub proof fn lemma_first_lexeme_bounds(s: Seq<char>)
    requires
        s.len() > 0,
    ensures
        first_lexeme(s) matches LexemeView::Token { len, .. } ==> 0 < len <= s.len(),
        first_lexeme(s) matches LexemeView::Blank { len } ==> 0 < len <= s.len(),
{
    lemma_run_length_bounds(s, CharClass::Space);
    lemma_run_length_bounds(s, CharClass::Letter);
    lemma_run_length_bounds(s, CharClass::Digit);
}

/// Every character of a lexeme is ASCII.
pub proof fn lemma_lexeme_is_ascii(s: Seq<char>)
    requires
        s.len() > 0,
    ensures
        first_lexeme(s) matches LexemeView::Token { len, .. } ==> forall|i: int|
            0 <= i < len ==> is_ascii_char(#[trigger] s[i]),
        first_lexeme(s) matches LexemeView::Blank { len } ==> forall|i: int|
            0 <= i < len ==> is_ascii_char(#[trigger] s[i]),
{
    lemma_run_length_is_maximal(s, CharClass::Space);
    lemma_run_length_is_maximal(s, CharClass::Letter);
    lemma_run_length_is_maximal(s, CharClass::Digit);
}

/// The result of reading `s` to its end: the tokens in source order, closed
/// by the end-of-input token, or the column of the first character with which
/// no lexeme begins. The column counts the characters before it.
pub open spec fn token_stream(s: Seq<char>) -> Result<Seq<TokenView>, nat>
    decreases s.len(),
{
    if s.len() == 0 {
        Ok(seq![end_of_input()])
    } else {
        proof {
            lemma_first_lexeme_bounds(s);
        }
        match first_lexeme(s) {
            LexemeView::Token { kind, len } => {
                let token = TokenView { kind, text: s.take(len as int) };
                match token_stream(s.skip(len as int)) {
                    Ok(rest) => Ok(seq![token] + rest),
                    Err(column) => Err(len + column),
                }
            },
            LexemeView::Blank { len } => {
                match token_stream(s.skip(len as int)) {
                    Ok(rest) => Ok(rest),
                    Err(column) => Err(len + column),
                }
            },
            LexemeView::Invalid => Err(0),
        }
    }
}

} // verus!
