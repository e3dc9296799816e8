//! What holds of every token stream.

use crate::grammar::{end_of_input, first_lexeme, is_digit, is_letter, is_space, is_symbol,
    is_symbol_pair, lemma_first_lexeme_bounds, lemma_run_length_is_maximal,
    lemma_run_length_is_unique, return_keyword, run_length, token_stream, CharClass, LexemeView,
    TokenView};
use crate::tokenize::TokenKind;
use vstd::prelude::*;

verus! {

/// The characters of the language: the symbols of one character, the space,
/// the letters and the digits.
pub open spec fn is_recognized(c: char) -> bool {
    is_symbol(c) || is_space(c) || is_letter(c) || is_digit(c)
}

/// Whether the character at `i` can stand where it stands: it is recognized,
/// or it is the `!` of a `!=`.
pub open spec fn is_accepted_at(s: Seq<char>, i: int) -> bool {
    is_recognized(s[i]) || (i + 1 < s.len() && is_symbol_pair(s[i], s[i + 1]))
}

/// Whether `text` is one of the reserved symbols.
pub open spec fn is_reserved_text(text: Seq<char>) -> bool {
    ||| text.len() == 1 && is_symbol(text[0])
    ||| text.len() == 2 && is_symbol_pair(text[0], text[1])
}

/// Whether the text of a token is one that its kind allows.
pub open spec fn is_well_formed_token(token: TokenView) -> bool {
    match token.kind {
        TokenKind::Reserved => is_reserved_text(token.text),
        TokenKind::IDENT => {
            &&& token.text.len() > 0
            &&& forall|i: int| 0 <= i < token.text.len() ==> is_letter(#[trigger] token.text[i])
            &&& token.text != return_keyword()
        },
        TokenKind::NUM => {
            &&& token.text.len() > 0
            &&& forall|i: int| 0 <= i < token.text.len() ==> is_digit(#[trigger] token.text[i])
        },
        TokenKind::RETURN => token.text == return_keyword(),
        TokenKind::EOF => token == end_of_input(),
    }
}

/// Whether `tokens` is a complete stream: it ends with the end-of-input
/// token, which stands nowhere else, and every token is well formed.
pub open spec fn is_well_formed_stream(tokens: Seq<TokenView>) -> bool {
    &&& tokens.len() > 0
    &&& tokens.last() == end_of_input()
    &&& forall|i: int| 0 <= i < tokens.len() - 1 ==> (#[trigger] tokens[i]).kind != TokenKind::EOF
    &&& forall|i: int| 0 <= i < tokens.len() ==> is_well_formed_token(#[trigger] tokens[i])
}

/// Every character of a lexeme is accepted where it stands.
proof fn lemma_lexeme_is_accepted(s: Seq<char>)
    requires
        s.len() > 0,
    ensures
        first_lexeme(s) matches LexemeView::Token { len, .. } ==> forall|i: int|
            0 <= i < len ==> is_accepted_at(s, i),
        first_lexeme(s) matches LexemeView::Blank { len } ==> forall|i: int|
            0 <= i < len ==> is_accepted_at(s, i),
        first_lexeme(s) is Invalid ==> !is_accepted_at(s, 0),
{
    lemma_run_length_is_maximal(s, CharClass::Space);
    lemma_run_length_is_maximal(s, CharClass::Letter);
    lemma_run_length_is_maximal(s, CharClass::Digit);
}

/// Whether a character is accepted depends only on it and the one behind it.
proof fn lemma_accepted_in_suffix(s: Seq<char>, n: int, i: int)
    requires
        0 <= n <= s.len(),
        0 <= i < s.len() - n,
    ensures
        is_accepted_at(s.skip(n), i) == is_accepted_at(s, n + i),
{
}

/// A text has a token stream exactly if each of its characters is accepted
/// where it stands; if one is not, the error is the column of the first such
/// character.
pub proof fn lemma_error_is_first_unaccepted(s: Seq<char>)
    ensures
        match token_stream(s) {
            Ok(_) => forall|i: int| 0 <= i < s.len() ==> is_accepted_at(s, i),
            Err(column) => {
                &&& column < s.len()
                &&& !is_accepted_at(s, column as int)
                &&& forall|i: int| 0 <= i < column ==> is_accepted_at(s, i)
            },
        },
    decreases s.len(),
{
    if s.len() > 0 {
        lemma_first_lexeme_bounds(s);
        lemma_lexeme_is_accepted(s);
        let len: nat = match first_lexeme(s) {
            LexemeView::Token { len, .. } => len,
            LexemeView::Blank { len } => len,
            LexemeView::Invalid => 0,
        };
        if len > 0 {
            let rest = s.skip(len as int);
            lemma_error_is_first_unaccepted(rest);
            match token_stream(rest) {
                Ok(_) => {
                    assert forall|i: int| 0 <= i < s.len() implies is_accepted_at(s, i) by {
                        if i >= len {
                            lemma_accepted_in_suffix(s, len as int, i - len);
                        }
                    }
                },
                Err(column) => {
                    lemma_accepted_in_suffix(s, len as int, column as int);
                    assert forall|i: int| 0 <= i < len + column implies is_accepted_at(s, i) by {
                        if i >= len {
                            lemma_accepted_in_suffix(s, len as int, i - len);
                        }
                    }
                },
            }
        }
    }
}

/// The token at the front of a text is well formed.
proof fn lemma_first_token_is_well_formed(s: Seq<char>)
    requires
        s.len() > 0,
    ensures
        first_lexeme(s) matches LexemeView::Token { kind, len } ==> kind != TokenKind::EOF
            && is_well_formed_token(TokenView { kind, text: s.take(len as int) }),
{
    lemma_run_length_is_maximal(s, CharClass::Letter);
    lemma_run_length_is_maximal(s, CharClass::Digit);
}

/// Every token stream is complete: the end-of-input token is its last token
/// and stands nowhere else, no identifier or number is empty, and every
/// reserved token is one of the reserved symbols.
pub proof fn lemma_stream_is_well_formed(s: Seq<char>)
    ensures
        token_stream(s) matches Ok(tokens) ==> is_well_formed_stream(tokens),
    decreases s.len(),
{
    if s.len() > 0 {
        lemma_first_lexeme_bounds(s);
        lemma_first_token_is_well_formed(s);
        match first_lexeme(s) {
            LexemeView::Token { kind, len } => {
                lemma_stream_is_well_formed(s.skip(len as int));
                if let Ok(rest) = token_stream(s.skip(len as int)) {
                    let token = TokenView { kind, text: s.take(len as int) };
                    let tokens = seq![token] + rest;
                    assert forall|i: int| 0 <= i < tokens.len() implies is_well_formed_token(
                        #[trigger] tokens[i],
                    ) by {
                        if i > 0 {
                            assert(tokens[i] == rest[i - 1]);
                        }
                    }
                    assert forall|i: int| 0 <= i < tokens.len() - 1 implies (
                    #[trigger] tokens[i]).kind != TokenKind::EOF by {
                        if i > 0 {
                            assert(tokens[i] == rest[i - 1]);
                        }
                    }
                }
            },
            LexemeView::Blank { len } => {
                lemma_stream_is_well_formed(s.skip(len as int));
            },
            LexemeView::Invalid => {},
        }
    }
}

/// A text of which every character is accepted where it stands is read to
/// its end: it has a token stream, the last token of the stream is the
/// end-of-input token, and that token stands nowhere else in it. Such is
/// every text made of recognized characters only.
pub proof fn lemma_accepted_text_has_stream(s: Seq<char>)
    requires
        forall|i: int| 0 <= i < s.len() ==> is_accepted_at(s, i),
    ensures
        token_stream(s) is Ok,
        ({
            let tokens = token_stream(s)->Ok_0;
            &&& tokens.len() > 0
            &&& tokens.last() == end_of_input()
            &&& forall|i: int|
                0 <= i < tokens.len() - 1 ==> (#[trigger] tokens[i]).kind != TokenKind::EOF
        }),
{
    lemma_error_is_first_unaccepted(s);
    lemma_stream_is_well_formed(s);
}

/// No token holds a space: separators give no token and are part of none.
pub proof fn lemma_no_token_holds_a_space(s: Seq<char>)
    ensures
        token_stream(s) matches Ok(tokens) ==> forall|i: int, j: int|
            0 <= i < tokens.len() && 0 <= j < tokens[i].text.len() ==> !is_space(
                #[trigger] tokens[i].text[j],
            ),
{
    lemma_stream_is_well_formed(s);
    if let Ok(tokens) = token_stream(s) {
        assert forall|i: int, j: int|
            0 <= i < tokens.len() && 0 <= j < tokens[i].text.len() implies !is_space(
            #[trigger] tokens[i].text[j],
        ) by {
            assert(is_well_formed_token(tokens[i]));
        }
    }
}

/// The texts of `tokens`, one behind the other.
pub open spec fn joined_text(tokens: Seq<TokenView>) -> Seq<char>
    decreases tokens.len(),
{
    if tokens.len() == 0 {
        Seq::empty()
    } else {
        tokens[0].text + joined_text(tokens.skip(1))
    }
}

/// `s` without its spaces.
pub open spec fn without_spaces(s: Seq<char>) -> Seq<char> {
    s.filter(|c: char| !is_space(c))
}

/// A text of which every character passes a filter passes it whole.
proof fn lemma_filter_keeps_all(s: Seq<char>, pred: spec_fn(char) -> bool)
    requires
        forall|i: int| 0 <= i < s.len() ==> pred(#[trigger] s[i]),
    ensures
        s.filter(pred) == s,
    decreases s.len(),
{
    reveal(Seq::filter);
    if s.len() > 0 {
        lemma_filter_keeps_all(s.drop_last(), pred);
        assert(s.drop_last().push(s.last()) =~= s);
    }
}

/// Of a text of which no character passes a filter nothing passes it.
proof fn lemma_filter_drops_all(s: Seq<char>, pred: spec_fn(char) -> bool)
    requires
        forall|i: int| 0 <= i < s.len() ==> !pred(#[trigger] s[i]),
    ensures
        s.filter(pred) == Seq::<char>::empty(),
    decreases s.len(),
{
    reveal(Seq::filter);
    if s.len() > 0 {
        lemma_filter_drops_all(s.drop_last(), pred);
    }
}

/// The tokens keep the text: the texts of the tokens before the
/// end-of-input token, one behind the other, are the text without its
/// spaces.
pub proof fn lemma_tokens_keep_the_text(s: Seq<char>)
    ensures
        token_stream(s) matches Ok(tokens) ==> joined_text(tokens.drop_last()) == without_spaces(
            s,
        ),
    decreases s.len(),
{
    let kept = |c: char| !is_space(c);
    if s.len() == 0 {
        reveal(Seq::filter);
        assert(seq![end_of_input()].drop_last() =~= Seq::<TokenView>::empty());
    } else if let Ok(tokens) = token_stream(s) {
        lemma_first_lexeme_bounds(s);
        lemma_run_length_is_maximal(s, CharClass::Space);
        lemma_run_length_is_maximal(s, CharClass::Letter);
        lemma_run_length_is_maximal(s, CharClass::Digit);
        let len: nat = match first_lexeme(s) {
            LexemeView::Token { len, .. } => len,
            LexemeView::Blank { len } => len,
            LexemeView::Invalid => 0,
        };
        let head = s.take(len as int);
        let tail = s.skip(len as int);
        lemma_tokens_keep_the_text(tail);
        lemma_stream_is_well_formed(tail);
        let rest = token_stream(tail)->Ok_0;
        assert(s =~= head + tail);
        Seq::filter_distributes_over_add(head, tail, kept);
        match first_lexeme(s) {
            LexemeView::Token { kind, .. } => {
                let token = TokenView { kind, text: head };
                assert forall|i: int| 0 <= i < head.len() implies kept(#[trigger] head[i]) by {
                    assert(head[i] == s[i]);
                }
                lemma_filter_keeps_all(head, kept);
                assert(tokens.drop_last() =~= seq![token] + rest.drop_last());
                assert(tokens.drop_last().skip(1) =~= rest.drop_last());
            },
            _ => {
                assert forall|i: int| 0 <= i < head.len() implies !kept(#[trigger] head[i]) by {
                    assert(head[i] == s[i]);
                }
                lemma_filter_drops_all(head, kept);
                assert(Seq::<char>::empty() + tail.filter(kept) =~= tail.filter(kept));
            },
        }
    }
}

/// The longest match wins: two characters that form a reserved symbol are
/// read as that symbol, and a run of letters, of digits or of spaces is read
/// up to the first character that does not belong to it.
pub proof fn lemma_lexeme_is_longest(s: Seq<char>)
    requires
        s.len() > 0,
    ensures
        s.len() >= 2 && is_symbol_pair(s[0], s[1]) ==> first_lexeme(s) == (LexemeView::Token {
            kind: TokenKind::Reserved,
            len: 2,
        }),
        match first_lexeme(s) {
            LexemeView::Token { kind: TokenKind::IDENT, len } => len == s.len() || !is_letter(
                s[len as int],
            ),
            LexemeView::Token { kind: TokenKind::RETURN, len } => len == s.len() || !is_letter(
                s[len as int],
            ),
            LexemeView::Token { kind: TokenKind::NUM, len } => len == s.len() || !is_digit(
                s[len as int],
            ),
            LexemeView::Blank { len } => len == s.len() || !is_space(s[len as int]),
            _ => true,
        },
{
    lemma_run_length_is_maximal(s, CharClass::Space);
    lemma_run_length_is_maximal(s, CharClass::Letter);
    lemma_run_length_is_maximal(s, CharClass::Digit);
}

/// The front of a text is the keyword exactly if the text begins with the
/// letters of `return` and no letter follows them.
pub proof fn lemma_keyword_is_a_whole_word(s: Seq<char>)
    requires
        s.len() > 0,
    ensures
        (first_lexeme(s) matches LexemeView::Token { kind: TokenKind::RETURN, .. }) <==> {
            &&& s.len() >= 6
            &&& s.take(6) == return_keyword()
            &&& (s.len() == 6 || !is_letter(s[6]))
        },
        first_lexeme(s) matches LexemeView::Token { kind: TokenKind::RETURN, len } ==> len == 6,
{
    lemma_run_length_is_maximal(s, CharClass::Letter);
    let len: nat = run_length(s, CharClass::Letter);
    if s.len() >= 6 && s.take(6) == return_keyword() && (s.len() == 6 || !is_letter(s[6])) {
        assert forall|i: int| 0 <= i < 6 implies is_letter(#[trigger] s[i]) by {
            assert(s[i] == s.take(6)[i]);
        }
        lemma_run_length_is_unique(s, CharClass::Letter, 6);
    }
    if is_letter(s[0]) && s.take(len as int) == return_keyword() {
        assert(s.take(len as int).len() == 6);
    }
}

} // verus!
