//! The text that reports a lexical error: the source line, and under it a
//! caret below the offending column with the description of the error.

use crate::tokenize::InvalidCharacter;
use vstd::prelude::*;
use vstd::string::StringExecFns;

verus! {

/// Taken on trust from the standard library: `String::push` appends `ch` to
/// the end of the string and leaves what was there as it was.
pub assume_specification[ String::push ](text: &mut String, ch: char)
    ensures
        final(text)@ == old(text)@.push(ch),
;

/// The character of a decimal digit.
pub open spec fn digit_char(digit: nat) -> char
    recommends
        digit < 10,
{
    ('0' as u8 + digit) as char
}

/// The decimal numeral of `n`, without leading zeros.
pub open spec fn decimal(n: nat) -> Seq<char>
    decreases n,
{
    if n < 10 {
        seq![digit_char(n)]
    } else {
        decimal(n / 10).push(digit_char(n % 10))
    }
}

/// `n` spaces.
pub open spec fn spaces(n: nat) -> Seq<char> {
    Seq::new(n, |i: int| ' ')
}

/// The report of the character `character` at column `column` of `line`:
/// the line, then, on a line of its own, a caret under that column and what
/// is wrong there.
pub open spec fn diagnostic(character: char, column: nat, line: Seq<char>) -> Seq<char> {
    line + seq!['\n'] + spaces(column) + "^ Tokenizer error: invalid character "@ + seq![character]
        + " (column "@ + decimal(column) + ")"@
}

/// Appends the decimal numeral of `n` to `text`.
pub fn push_decimal(text: &mut String, n: usize)
    ensures
        final(text)@ == old(text)@ + decimal(n as nat),
    decreases n,
{
    if n >= 10 {
        push_decimal(text, n / 10);
    }
    let digit: u8 = (n % 10) as u8;
    text.push(('0' as u8 + digit) as char);
    proof {
        if n >= 10 {
            assert(old(text)@ + decimal((n / 10) as nat).push(digit_char((n % 10) as nat))
                =~= (old(text)@ + decimal((n / 10) as nat)).push(digit_char((n % 10) as nat)));
        } else {
            assert(old(text)@ + seq![digit_char(n as nat)] =~= old(text)@.push(
                digit_char(n as nat),
            ));
        }
    }
}

/// Appends `n` spaces to `text`.
pub fn push_spaces(text: &mut String, n: usize)
    ensures
        final(text)@ == old(text)@ + spaces(n as nat),
{
    let mut i: usize = 0;
    proof {
        assert(text@ + spaces(0) =~= text@);
    }
    while i < n
        invariant
            i <= n,
            text@ == old(text)@ + spaces(i as nat),
        decreases n - i,
    {
        text.push(' ');
        i += 1;
        proof {
            assert(text@ =~= old(text)@ + spaces(i as nat));
        }
    }
}

impl InvalidCharacter {
    /// The report of this error, in two lines: the text that was read, then a
    /// caret under the offending column followed by the character and the
    /// column.
    pub fn message(&self) -> (text: String)
        ensures
            text@ == diagnostic(self.character, self.column as nat, self.line@),
    {
        let mut text = self.line.clone();
        text.push('\n');
        push_spaces(&mut text, self.column);
        text.append("^ Tokenizer error: invalid character ");
        text.push(self.character);
        text.append(" (column ");
        push_decimal(&mut text, self.column);
        text.append(")");
        proof {
            assert(text@ =~= diagnostic(self.character, self.column as nat, self.line@));
        }
        text
    }
}

} // verus!
