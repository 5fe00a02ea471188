//! UTF-8: between bytes, strings and sequences of characters.
use vstd::prelude::*;
use vstd::utf8::{decode_utf8, encode_scalar, encode_utf8, valid_utf8};

verus! {

/// The error of `core::str::from_utf8`, carried as an opaque value.
#[verifier::external_type_specification]
#[verifier::external_body]
pub struct ExUtf8Error(core::str::Utf8Error);

/// `core::str::from_utf8` gives the string whose UTF-8 encoding the bytes are,
/// and fails exactly on bytes that are not valid UTF-8.
pub assume_specification<'a>[ core::str::from_utf8 ](bytes: &'a [u8]) -> (result: Result<
    &'a str,
    core::str::Utf8Error,
>)
    ensures
        result is Ok <==> valid_utf8(bytes@),
        result matches Ok(text) ==> encode_utf8(text@) == bytes@,
;

/// `String::push` appends one character.
pub assume_specification[ String::push ](text: &mut String, c: char)
    ensures
        final(text)@ == old(text)@.push(c),
;

/// `char::from_u32` gives the character with that code point, and nothing for
/// surrogates and for numbers above the last code point.
pub assume_specification[ char::from_u32 ](code: u32) -> (result: Option<char>)
    ensures
        match result {
            Some(c) => c as u32 == code,
            None => 0xd800 <= code <= 0xdfff || 0x10ffff < code,
        },
;

/// How many bytes UTF-8 takes for `c`.
pub open spec fn width(c: char) -> nat {
    if c as u32 <= 0x7f {
        1
    } else if c as u32 <= 0x7ff {
        2
    } else if c as u32 <= 0xffff {
        3
    } else {
        4
    }
}

/// How many bytes UTF-8 takes for `s`.
pub open spec fn utf8_len(s: Seq<char>) -> nat {
    encode_utf8(s).len()
}

pub proof fn lemma_width(c: char)
    ensures
        encode_scalar(c as u32).len() == width(c),
{
}

pub proof fn lemma_encode_concat(a: Seq<char>, b: Seq<char>)
    ensures
        encode_utf8(a + b) == encode_utf8(a) + encode_utf8(b),
        utf8_len(a + b) == utf8_len(a) + utf8_len(b),
    decreases a.len(),
{
    if a.len() == 0 {
        assert(a + b =~= b);
        assert(encode_utf8(a) =~= Seq::<u8>::empty());
        assert(encode_utf8(a) + encode_utf8(b) =~= encode_utf8(b));
    } else {
        lemma_encode_concat(a.drop_first(), b);
        assert((a + b).drop_first() =~= a.drop_first() + b);
        assert(encode_utf8(a + b) =~= encode_utf8(a) + encode_utf8(b));
    }
}

pub proof fn lemma_encode_one(c: char)
    ensures
        encode_utf8(seq![c]) == encode_scalar(c as u32),
        utf8_len(seq![c]) == width(c),
{
    lemma_width(c);
    let s = seq![c];
    assert(s.drop_first() =~= Seq::<char>::empty());
    assert(encode_utf8(s.drop_first()) =~= Seq::<u8>::empty());
    assert(encode_utf8(s) =~= encode_scalar(c as u32));
}

pub proof fn lemma_len_push(s: Seq<char>, c: char)
    ensures
        utf8_len(s.push(c)) == utf8_len(s) + width(c),
{
    assert(s.push(c) =~= s + seq![c]);
    lemma_encode_concat(s, seq![c]);
    lemma_encode_one(c);
}

pub proof fn lemma_len_bound(s: Seq<char>)
    ensures
        s.len() <= utf8_len(s),
        utf8_len(s) <= 4 * s.len(),
    decreases s.len(),
{
    if s.len() > 0 {
        lemma_len_bound(s.drop_first());
        lemma_width(s[0]);
    }
}

/// How many bytes UTF-8 takes for `c`.
pub fn width_of(c: char) -> (n: usize)
    ensures
        n == width(c),
{
    let code: u32 = c as u32;
    if code <= 0x7f {
        1
    } else if code <= 0x7ff {
        2
    } else if code <= 0xffff {
        3
    } else {
        4
    }
}

/// How many bytes UTF-8 takes for the characters, capped at the largest `usize`.
pub fn utf8_len_of(chars: &[char]) -> (n: usize)
    ensures
        n == if utf8_len(chars@) <= usize::MAX {
            utf8_len(chars@) as int
        } else {
            usize::MAX as int
        },
{
    let mut n: usize = 0;
    let mut i: usize = 0;
    proof {
        assert(chars@.take(0) =~= Seq::<char>::empty());
    }
    while i < chars.len()
        invariant
            i <= chars.len(),
            n == if utf8_len(chars@.take(i as int)) <= usize::MAX {
                utf8_len(chars@.take(i as int)) as int
            } else {
                usize::MAX as int
            },
        decreases chars.len() - i,
    {
        proof {
            assert(chars@.take(i + 1) =~= chars@.take(i as int).push(chars@[i as int]));
            lemma_len_push(chars@.take(i as int), chars@[i as int]);
        }
        n = n.saturating_add(width_of(chars[i]));
        i += 1;
    }
    assert(chars@.take(i as int) =~= chars@);
    n
}

/// The string of the characters.
pub fn string_of(chars: &[char]) -> (text: String)
    ensures
        text@ == chars@,
{
    let mut text = String::new();
    let mut i: usize = 0;
    while i < chars.len()
        invariant
            i <= chars.len(),
            text@ == chars@.take(i as int),
        decreases chars.len() - i,
    {
        text.push(chars[i]);
        assert(chars@.take(i + 1) =~= chars@.take(i as int).push(chars@[i as int]));
        i += 1;
    }
    assert(chars@.take(i as int) =~= chars@);
    text
}

/// The UTF-8 encoding of the characters.
pub fn bytes_of(chars: &[char]) -> (bytes: Vec<u8>)
    ensures
        bytes@ == encode_utf8(chars@),
{
    let text = string_of(chars);
    text.as_str().as_bytes_vec()
}

/// The characters that the bytes encode, where they are valid UTF-8.
pub fn decoded(bytes: &[u8]) -> (result: Option<Vec<char>>)
    ensures
        match result {
            Some(chars) => valid_utf8(bytes@) && chars@ == decode_utf8(bytes@),
            None => !valid_utf8(bytes@),
        },
{
    match core::str::from_utf8(bytes) {
        Ok(text) => {
            proof {
                vstd::utf8::encode_utf8_decode_utf8(text@);
            }
            Some(crate::text::chars_of(text))
        },
        Err(_) => None,
    }
}

} // verus!
