//! Text in a recording: UTF-8, decoded with the `encoding` crate.

use vstd::prelude::*;
use vstd::string::StringSliceAdditionalSpecFns;
use vstd::utf8::{decode_utf8, encode_utf8_decode_utf8, valid_utf8};
use encoding::all::UTF_8;
use encoding::{DecoderTrap, Encoding};

verus! {

/// The text that the `encoding` crate's UTF-8 decoder gives for `bytes` when it
/// replaces what is malformed instead of failing.
pub uninterp spec fn utf8_lossy(bytes: Seq<u8>) -> Seq<char>;

/// The text that `bytes` hold when malformed UTF-8 is replaced: the characters
/// that well-formed bytes encode, and for other bytes what the decoder makes of
/// them.
pub open spec fn lossy_text(bytes: Seq<u8>) -> Seq<char> {
    if valid_utf8(bytes) {
        decode_utf8(bytes)
    } else {
        utf8_lossy(bytes)
    }
}

/// `encoding::all::UTF_8.decode` with `DecoderTrap::Replace`: the decoder writes
/// U+FFFD for each malformed sequence and goes on, so it always returns text;
/// well-formed input comes out as the characters it encodes.
#[verifier::external_body]
pub(crate) fn decode_replacing(bytes: &[u8]) -> (text: String)
    ensures
        text@ == (if valid_utf8(bytes@) {
            decode_utf8(bytes@)
        } else {
            utf8_lossy(bytes@)
        }),
{
    match UTF_8.decode(bytes, DecoderTrap::Replace) {
        Ok(text) => text,
        Err(_) => String::new(),
    }
}

/// `encoding::all::UTF_8.decode` with `DecoderTrap::Strict`: the decoder accepts
/// exactly the well-formed UTF-8 sequences and returns the characters they encode.
#[verifier::external_body]
pub(crate) fn decode_strict(bytes: &[u8]) -> (text: Option<String>)
    ensures
        text is Some <==> valid_utf8(bytes@),
        text matches Some(t) ==> t@ == decode_utf8(bytes@),
{
    match UTF_8.decode(bytes, DecoderTrap::Strict) {
        Ok(text) => Some(text),
        Err(_) => None,
    }
}

/// The characters of a string that may be absent.
pub open spec fn text_of(text: Option<String>) -> Option<Seq<char>> {
    match text {
        Some(t) => Some(t@),
        None => None,
    }
}

/// `String::push` of std: the string with `c` added at its end.
#[verifier::external_body]
fn push_char(text: &mut String, c: char)
    ensures
        final(text)@ == old(text)@.push(c),
{
    text.push(c)
}

/// The characters of `text`, one element each.
pub fn to_chars(text: &str) -> (chars: Vec<char>)
    ensures
        chars@ == text@,
{
    let mut chars: Vec<char> = Vec::new();
    for c in it: text.chars()
        invariant
            it.seq() == text@,
            chars@ == text@.take(it.index() as int),
    {
        chars.push(c);
    }
    chars
}

/// A string made of `chars`.
pub fn from_chars(chars: &[char]) -> (text: String)
    ensures
        text@ == chars@,
{
    let mut text = String::new();
    let mut i: usize = 0;
    while i < chars.len()
        invariant
            i <= chars.len(),
            text@ == chars@.take(i as int),
        decreases chars.len() - i,
    {
        push_char(&mut text, chars[i]);
        i = i + 1;
    }
    text
}

/// Whether `a` and `b` hold the same bytes.
pub fn bytes_equal(a: &[u8], b: &[u8]) -> (equal: bool)
    ensures
        equal == (a@ == b@),
{
    if a.len() != b.len() {
        return false;
    }
    let mut i: usize = 0;
    while i < a.len()
        invariant
            i <= a.len(),
            a.len() == b.len(),
            a@.take(i as int) == b@.take(i as int),
        decreases a.len() - i,
    {
        if a[i] != b[i] {
            return false;
        }
        i = i + 1;
    }
    assert(a@.take(a.len() as int) == a@ && b@.take(b.len() as int) == b@);
    true
}

/// Whether `a` and `b` hold the same characters.
pub fn same_text(a: &str, b: &str) -> (same: bool)
    ensures
        same == (a@ == b@),
{
    proof {
        encode_utf8_decode_utf8(a@);
        encode_utf8_decode_utf8(b@);
    }
    bytes_equal(a.as_bytes(), b.as_bytes())
}

} // verus!
