//! Byte and text encodings that the record format relies on: base64 (through
//! the `base64` crate), UTF-8, and case folding.
use base64::Engine;
use vstd::prelude::*;
use vstd::utf8::{decode_utf8, valid_utf8};

verus! {

/// The text that the `base64` crate's standard engine (RFC 4648 alphabet, with
/// padding) produces for `bytes`.
pub uninterp spec fn base64_standard_encoding(bytes: Seq<u8>) -> Seq<char>;

/// What the `base64` crate's standard engine decodes `text` to; `None` where it
/// reports an error.
pub uninterp spec fn base64_standard_decoding(text: Seq<char>) -> Option<Seq<u8>>;

/// The text that `str::to_lowercase` produces for `text`.
pub uninterp spec fn lowercase_text(text: Seq<char>) -> Seq<char>;

/// A character of the standard base64 alphabet, or the padding `=`.
pub open spec fn is_base64_char(c: char) -> bool {
    ||| 'A' <= c <= 'Z'
    ||| 'a' <= c <= 'z'
    ||| '0' <= c <= '9'
    ||| c == '+'
    ||| c == '/'
    ||| c == '='
}

/// Calls `base64::engine::general_purpose::STANDARD.encode`. Claimed of it: the
/// result is named by `base64_standard_encoding`, uses only the standard alphabet
/// and `=`, and decodes back to `bytes` (the crate's round-trip property).
#[verifier::external_body]
pub(crate) fn base64_encode(bytes: &[u8]) -> (res: String)
    ensures
        res@ == base64_standard_encoding(bytes@),
        forall|i: int| 0 <= i < res@.len() ==> is_base64_char(#[trigger] res@[i]),
        base64_standard_decoding(res@) == Some(bytes@),
{
    base64::engine::general_purpose::STANDARD.encode(bytes)
}

/// Calls `base64::engine::general_purpose::STANDARD.decode` on the UTF-8 bytes of
/// `text`. Claimed of it: the outcome is named by `base64_standard_decoding`,
/// with a decoding error as `None`.
#[verifier::external_body]
pub(crate) fn base64_decode(text: &str) -> (res: Option<Vec<u8>>)
    ensures
        res is Some == base64_standard_decoding(text@) is Some,
        res matches Some(b) ==> Some(b@) == base64_standard_decoding(text@),
{
    base64::engine::general_purpose::STANDARD.decode(text).ok()
}

/// Calls `String::from_utf8`. Claimed of it, as std documents: it succeeds
/// exactly on valid UTF-8, and then holds the characters that the bytes encode.
#[verifier::external_body]
pub(crate) fn utf8_string(bytes: Vec<u8>) -> (res: Option<String>)
    ensures
        res is Some <==> valid_utf8(bytes@),
        res matches Some(s) ==> s@ == decode_utf8(bytes@),
{
    String::from_utf8(bytes).ok()
}

/// Calls `String::push`. Claimed of it, as std documents: the character is
/// appended at the end.
#[verifier::external_body]
fn push_char(s: &mut String, c: char)
    ensures
        final(s)@ == old(s)@.push(c),
{
    s.push(c)
}

/// A `String` holding exactly `chars`, in order.
pub fn string_from_chars(chars: &[char]) -> (res: String)
    ensures
        res@ == chars@,
{
    let mut out = String::new();
    let mut i: usize = 0;
    while i < chars.len()
        invariant
            i <= chars@.len(),
            out@ == chars@.take(i as int),
        decreases chars@.len() - i,
    {
        push_char(&mut out, chars[i]);
        assert(out@ =~= chars@.take(i + 1));
        i = i + 1;
    }
    assert(chars@.take(chars@.len() as int) =~= chars@);
    out
}

/// Calls `str::to_lowercase`. Claimed of it: the result is named by `lowercase_text`.
#[verifier::external_body]
pub(crate) fn to_lowercase(text: &str) -> (res: String)
    ensures
        res@ == lowercase_text(text@),
{
    text.to_lowercase()
}

} // verus!
