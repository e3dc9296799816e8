//! Tokens and the tokenizer that produces them.

use crate::encoding::{is_ascii_char, lemma_ascii_prefix, lemma_byte_after_ascii_prefix,
    lemma_first_byte, split_ascii_prefix};
use crate::grammar::{end_of_input, end_text, first_lexeme, lemma_first_lexeme_bounds,
    lemma_lexeme_is_ascii, return_keyword, token_stream, LexemeView, TokenView};
use crate::properties::{is_accepted_at, is_well_formed_stream, lemma_error_is_first_unaccepted,
    lemma_stream_is_well_formed};
use crate::util::{split_digits, split_spaces, split_var_names};
use std::collections::VecDeque;
use vstd::prelude::*;
use vstd::string::{StrSliceExecFns, StringSliceAdditionalSpecFns};
use vstd::utf8::{is_ascii_chars, is_ascii_chars_encode_utf8};

verus! {

/// What a token is.
#[allow(non_camel_case_types)]
#[derive(Clone, Copy, PartialEq, Eq, Structural, Debug)]
pub enum TokenKind {
    /// A fixed operator or punctuation symbol.
    Reserved,
    /// An identifier: a run of lowercase letters other than a keyword.
    IDENT,
    /// A number: a run of decimal digits.
    NUM,
    /// The keyword `return`.
    RETURN,
    /// The sentinel that ends every token stream.
    EOF,
}

/// A token: its kind and an owned copy of the text it was read from.
#[derive(Debug)]
pub struct Token {
    pub kind: TokenKind,
    pub string: String,
}

impl View for Token {
    type V = TokenView;

    open spec fn view(&self) -> TokenView {
        TokenView { kind: self.kind, text: self.string@ }
    }
}

impl DeepView for Token {
    type V = TokenView;

    open spec fn deep_view(&self) -> TokenView {
        self@
    }
}

impl Token {
    /// Makes the token of the given kind and text.
    pub fn new(kind: TokenKind, string: String) -> (token: Self)
        ensures
            token.kind == kind,
            token.string == string,
    {
        Token { kind, string }
    }
}

/// The lexical error: a character with which no lexeme begins.
#[derive(Debug)]
pub struct InvalidCharacter {
    /// The offending character.
    pub character: char,
    /// Its column: the number of characters before it.
    pub column: usize,
    /// The whole text that was being read.
    pub line: String,
}

/// What the tokenizer finds at the front of a text, lengths in characters.
#[derive(Clone, Copy, Debug)]
pub enum Lexeme {
    /// A token of the given kind, made of the first `len` characters.
    Token { kind: TokenKind, len: usize },
    /// `len` separators, which give no token.
    Blank { len: usize },
    /// A character with which nothing begins.
    Invalid,
}

impl View for Lexeme {
    type V = LexemeView;

    open spec fn view(&self) -> LexemeView {
        match *self {
            Lexeme::Token { kind, len } => LexemeView::Token { kind, len: len as nat },
            Lexeme::Blank { len } => LexemeView::Blank { len: len as nat },
            Lexeme::Invalid => LexemeView::Invalid,
        }
    }
}

/// Whether `word` is the keyword `return`.
pub fn is_return_keyword(word: &str) -> (found: bool)
    ensures
        found == (word@ == return_keyword()),
{
    let bytes = word.as_bytes();
    let found = bytes.len() == 6 && bytes[0] == 'r' as u8 && bytes[1] == 'e' as u8 && bytes[2]
        == 't' as u8 && bytes[3] == 'u' as u8 && bytes[4] == 'r' as u8 && bytes[5] == 'n' as u8;
    proof {
        if found {
            lemma_ascii_prefix(word@, 6);
            lemma_byte_after_ascii_prefix(word@, 6);
            assert(word@ =~= return_keyword());
        }
        if word@ == return_keyword() {
            assert(is_ascii_chars(word@));
            is_ascii_chars_encode_utf8(word@);
        }
    }
    found
}

/// Reads the lexeme at the front of `remain`, which is not empty.
pub fn scan(remain: &str) -> (lexeme: Lexeme)
    requires
        remain@.len() > 0,
    ensures
        lexeme@ == first_lexeme(remain@),
{
    let bytes = remain.as_bytes();
    let next = remain.get_char(0);
    proof {
        lemma_first_byte(remain@);
        if is_ascii_char(next) {
            lemma_byte_after_ascii_prefix(remain@, 1);
        }
    }
    if (next == '=' || next == '!' || next == '>' || next == '<') && bytes.len() > 1 && bytes[1]
        == '=' as u8 {
        Lexeme::Token { kind: TokenKind::Reserved, len: 2 }
    } else if next == '+' || next == '-' || next == '*' || next == '/' || next == '(' || next == ')'
        || next == '>' || next == '<' || next == '=' || next == ';' {
        Lexeme::Token { kind: TokenKind::Reserved, len: 1 }
    } else if next == ' ' {
        Lexeme::Blank { len: split_spaces(remain) }
    } else if 'a' <= next && next <= 'z' {
        let len: usize = split_var_names(remain);
        proof {
            lemma_lexeme_is_ascii(remain@);
        }
        let (word, _) = split_ascii_prefix(remain, len);
        if is_return_keyword(word) {
            Lexeme::Token { kind: TokenKind::RETURN, len }
        } else {
            Lexeme::Token { kind: TokenKind::IDENT, len }
        }
    } else if '0' <= next && next <= '9' {
        Lexeme::Token { kind: TokenKind::NUM, len: split_digits(remain) }
    } else {
        Lexeme::Invalid
    }
}

/// The tokenizer. It holds no state: every call of
/// [`tokenize`](Tokenizer::tokenize) stands for itself.
pub struct Tokenizer {}

/// The stream of a text of which `consumed` characters gave the tokens `done`
/// and the rest gives `rest`.
spec fn resume(done: Seq<TokenView>, consumed: nat, rest: Result<Seq<TokenView>, nat>) -> Result<
    Seq<TokenView>,
    nat,
> {
    match rest {
        Ok(tokens) => Ok(done + tokens),
        Err(column) => Err(consumed + column),
    }
}

impl Tokenizer {
    /// Makes a tokenizer.
    pub fn new() -> (tokenizer: Self)
        ensures
            tokenizer == (Tokenizer {}),
    {
        Tokenizer {}
    }

    /// Reads `input` from left to right into its tokens, closed by the
    /// end-of-input token. Stops at the first character with which no lexeme
    /// begins and reports it with its column and the text.
    pub fn tokenize(&self, input: String) -> (result: Result<VecDeque<Token>, InvalidCharacter>)
        ensures
            match result {
                Ok(tokens) => token_stream(input@) == Ok::<Seq<TokenView>, nat>(
                    tokens.deep_view(),
                ),
                Err(error) => {
                    &&& token_stream(input@) == Err::<Seq<TokenView>, nat>(error.column as nat)
                    &&& error.column < input@.len()
                    &&& error.character == input@[error.column as int]
                    &&& error.line@ == input@
                },
            },
            result is Ok <==> forall|i: int| 0 <= i < input@.len() ==> is_accepted_at(input@, i),
            result matches Ok(tokens) ==> is_well_formed_stream(tokens.deep_view()),
            result matches Err(error) ==> {
                &&& !is_accepted_at(input@, error.column as int)
                &&& forall|i: int| 0 <= i < error.column ==> is_accepted_at(input@, i)
            },
    {
        let mut tokens: VecDeque<Token> = VecDeque::new();
        let mut char_count: usize = 0;
        let mut remain: &str = input.as_str();
        // Every character that is read takes one byte, so the characters run
        // out when the bytes do.
        let total: usize = remain.as_bytes().len();
        let ghost mut done: Seq<TokenView> = Seq::empty();
        proof {
            assert(input@.skip(0) =~= input@);
            assert(done + token_stream(input@)->Ok_0 =~= token_stream(input@)->Ok_0);
        }
        while char_count < total
            invariant
                char_count <= total,
                char_count <= input@.len(),
                remain@ == input@.skip(char_count as int),
                remain.spec_bytes().len() == total - char_count,
                tokens.deep_view() == done,
                token_stream(input@) == resume(done, char_count as nat, token_stream(remain@)),
            decreases total - char_count,
        {
            proof {
                lemma_byte_after_ascii_prefix(remain@, 0);
                lemma_first_lexeme_bounds(remain@);
                lemma_lexeme_is_ascii(remain@);
            }
            match scan(remain) {
                Lexeme::Token { kind, len } => {
                    let (text, rest) = split_ascii_prefix(remain, len);
                    tokens.push_back(Token::new(kind, text.to_owned()));
                    proof {
                        let token = TokenView { kind, text: remain@.take(len as int) };
                        assert(tokens.deep_view() =~= done.push(token));
                        assert(input@.skip(char_count as int).skip(len as int) =~= input@.skip(
                            char_count + len,
                        ));
                        match token_stream(rest@) {
                            Ok(more) => {
                                assert(done + (seq![token] + more) =~= done.push(token) + more);
                            },
                            Err(_) => {},
                        }
                        done = done.push(token);
                    }
                    char_count += len;
                    remain = rest;
                },
                Lexeme::Blank { len } => {
                    let (_, rest) = split_ascii_prefix(remain, len);
                    proof {
                        assert(input@.skip(char_count as int).skip(len as int) =~= input@.skip(
                            char_count + len,
                        ));
                    }
                    char_count += len;
                    remain = rest;
                },
                Lexeme::Invalid => {
                    let character = remain.get_char(0);
                    proof {
                        lemma_error_is_first_unaccepted(input@);
                    }
                    return Err(InvalidCharacter { character, column: char_count, line: input });
                },
            }
        }
        proof {
            lemma_byte_after_ascii_prefix(remain@, 0);
            assert(tokens.deep_view().push(end_of_input()) =~= done + seq![end_of_input()]);
        }
        tokens.push_back(Token::new(TokenKind::EOF, end_string()));
        proof {
            assert(tokens.deep_view() =~= done.push(end_of_input()));
            lemma_error_is_first_unaccepted(input@);
            lemma_stream_is_well_formed(input@);
        }
        Ok(tokens)
    }
}

/// The text of the end-of-input token.
fn end_string() -> (text: String)
    ensures
        text@ == end_text(),
{
    proof {
        reveal_strlit("\0");
    }
    let text = "\0".to_owned();
    assert(text@ =~= end_text());
    text
}

} // verus!
