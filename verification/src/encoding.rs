//! How the bytes of a text relate to its characters while the text is ASCII.
//!
//! A `str` is stored as UTF-8, and the tokenizer reads it byte by byte. Every
//! character of a token is ASCII, so the bytes read so far are the characters
//! read so far; the lemmas here say so, and say what the next byte tells about
//! the next character.

use vstd::prelude::*;
use vstd::string::StringSliceAdditionalSpecFns;
use vstd::utf8::*;

verus! {

/// Whether a character is in the ASCII range.
pub open spec fn is_ascii_char(c: char) -> bool {
    (c as u32) < 0x80
}

/// The character that an ASCII byte encodes.
pub open spec fn ascii_char(b: u8) -> char
    recommends
        b < 0x80,
{
    b as char
}

/// The encoding of a text starts with the encoding of its first character:
/// one byte below `0x80` equal to the character where that is ASCII, and a byte
/// from `0x80` upwards where it is not.
pub proof fn lemma_first_byte(s: Seq<char>)
    requires
        s.len() > 0,
    ensures
        encode_utf8(s).len() > 0,
        is_ascii_char(s[0]) <==> encode_utf8(s)[0] < 0x80,
        is_ascii_char(s[0]) ==> {
            &&& s[0] == ascii_char(encode_utf8(s)[0])
            &&& encode_utf8(s).skip(1) == encode_utf8(s.skip(1))
        },
{
    let bytes = encode_utf8(s);
    let c: u32 = s[0] as u32;
    encode_utf8_first_scalar(s);
    char_is_scalar(s[0]);
    assert(s.drop_first() == s.skip(1));
    if has_width_1_encoding(c) {
        let b: u8 = bytes[0];
        assert(b == leading_byte_width_1(c));
        assert(leading_byte_width_1(c) == c as u8 && (c as u8) < 0x80) by (bit_vector)
            requires
                has_width_1_encoding(c),
        ;
        assert(bytes.skip(1) =~= encode_utf8(s.skip(1)));
        char_u32_cast(s[0], c);
    } else {
        assert(encode_scalar(c).len() >= 2);
    }
}

/// While the first `n` bytes of the encoding of a text are ASCII, they are its
/// first `n` characters, the rest of the bytes encode the rest of the text,
/// and the bytes can be split there.
pub proof fn lemma_ascii_prefix(s: Seq<char>, n: int)
    requires
        0 <= n <= encode_utf8(s).len(),
        forall|i: int| 0 <= i < n ==> encode_utf8(s)[i] < 0x80,
    ensures
        n <= s.len(),
        forall|i: int| 0 <= i < n ==> s[i] == ascii_char(#[trigger] encode_utf8(s)[i]),
        encode_utf8(s).take(n) == encode_utf8(s.take(n)),
        encode_utf8(s).skip(n) == encode_utf8(s.skip(n)),
        is_char_boundary(encode_utf8(s), n),
    decreases n,
{
    let bytes = encode_utf8(s);
    encode_utf8_valid_utf8(s);
    if n == 0 {
        assert(s.skip(0) =~= s);
        assert(bytes.skip(0) =~= bytes);
    } else {
        lemma_first_byte(s);
        let rest = s.skip(1);
        assert forall|i: int| 0 <= i < n - 1 implies encode_utf8(rest)[i] < 0x80 by {
            assert(bytes.skip(1)[i] == bytes[i + 1]);
        }
        lemma_ascii_prefix(rest, n - 1);
        assert forall|i: int| 0 <= i < n implies s[i] == ascii_char(#[trigger] bytes[i]) by {
            if i > 0 {
                assert(rest[i - 1] == s[i]);
                assert(bytes.skip(1)[i - 1] == bytes[i]);
            }
        }
        assert(rest.skip(n - 1) =~= s.skip(n));
        assert(bytes.skip(1).skip(n - 1) =~= bytes.skip(n));
        assert(pop_first_scalar(bytes) =~= bytes.skip(1));
        assert(length_of_first_scalar(bytes) == 1);
    }
    let head = s.take(n);
    assert(is_ascii_chars(head)) by {
        assert forall|i: int| 0 <= i < head.len() implies '\0' <= #[trigger] head[i] <= '\u{7f}' by {
            assert(head[i] == ascii_char(bytes[i]));
        }
    }
    is_ascii_chars_encode_utf8(head);
    assert(bytes.take(n) =~= encode_utf8(head)) by {
        assert forall|i: int| 0 <= i < n implies bytes[i] == #[trigger] encode_utf8(head)[i] by {
            assert(head[i] == ascii_char(bytes[i]));
        }
    }
}

/// After an ASCII prefix of `n` bytes, the text ends where its bytes end, and
/// the next byte is below `0x80` exactly when the next character is ASCII, in
/// which case it is that character.
pub proof fn lemma_byte_after_ascii_prefix(s: Seq<char>, n: int)
    requires
        0 <= n <= encode_utf8(s).len(),
        forall|i: int| 0 <= i < n ==> encode_utf8(s)[i] < 0x80,
    ensures
        n <= s.len(),
        n == s.len() <==> n == encode_utf8(s).len(),
        n < s.len() ==> {
            &&& is_ascii_char(s[n]) <==> encode_utf8(s)[n] < 0x80
            &&& is_ascii_char(s[n]) ==> s[n] == ascii_char(encode_utf8(s)[n])
        },
{
    let bytes = encode_utf8(s);
    lemma_ascii_prefix(s, n);
    let rest = s.skip(n);
    if n < s.len() {
        lemma_first_byte(rest);
        assert(bytes.skip(n)[0] == bytes[n]);
        assert(rest[0] == s[n]);
    } else {
        assert(encode_utf8(rest).len() == 0);
        assert(bytes.skip(n).len() == bytes.len() - n);
    }
}

/// While the first `n` characters of a text are ASCII, so are the first `n`
/// bytes of its encoding.
pub proof fn lemma_ascii_chars_prefix(s: Seq<char>, n: int)
    requires
        0 <= n <= s.len(),
        forall|i: int| 0 <= i < n ==> is_ascii_char(s[i]),
    ensures
        n <= encode_utf8(s).len(),
        forall|i: int| 0 <= i < n ==> encode_utf8(s)[i] < 0x80,
    decreases n,
{
    if n > 0 {
        let bytes = encode_utf8(s);
        lemma_first_byte(s);
        let rest = s.skip(1);
        assert forall|i: int| 0 <= i < n - 1 implies is_ascii_char(rest[i]) by {
            assert(rest[i] == s[i + 1]);
        }
        lemma_ascii_chars_prefix(rest, n - 1);
        assert forall|i: int| 0 <= i < n implies bytes[i] < 0x80 by {
            if i > 0 {
                assert(bytes.skip(1)[i - 1] == bytes[i]);
            }
        }
    }
}

/// A text is determined by its encoding.
pub proof fn lemma_encoding_is_injective(s: Seq<char>, t: Seq<char>)
    requires
        encode_utf8(s) == encode_utf8(t),
    ensures
        s == t,
{
    encode_utf8_decode_utf8(s);
    encode_utf8_decode_utf8(t);
}

/// Splits a text behind its first `n` characters, all of which are ASCII.
pub fn split_ascii_prefix(s: &str, n: usize) -> (parts: (&str, &str))
    requires
        n <= s@.len(),
        forall|i: int| 0 <= i < n ==> is_ascii_char(s@[i]),
    ensures
        parts.0@ == s@.take(n as int),
        parts.1@ == s@.skip(n as int),
        parts.1.spec_bytes().len() == s.spec_bytes().len() - n,
{
    proof {
        lemma_ascii_chars_prefix(s@, n as int);
        lemma_ascii_prefix(s@, n as int);
    }
    let parts = s.split_at(n);
    proof {
        let bytes = s.spec_bytes();
        assert(bytes.subrange(0, n as int) =~= bytes.take(n as int));
        assert(bytes.subrange(n as int, bytes.len() as int) =~= bytes.skip(n as int));
        lemma_encoding_is_injective(parts.0@, s@.take(n as int));
        lemma_encoding_is_injective(parts.1@, s@.skip(n as int));
    }
    parts
}

} // verus!
