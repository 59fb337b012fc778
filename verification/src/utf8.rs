//! From bytes to text and back.

use crate::error::Error;
use vstd::prelude::*;
use vstd::utf8::*;

verus! {

/// What `String::from_utf8_lossy` makes of `bytes`: their text, with a replacement
/// character for each part that is not UTF-8.
pub uninterp spec fn lossy_text(bytes: Seq<u8>) -> Seq<char>;

/// Calls `std::str::from_utf8`. The call succeeds exactly on UTF-8, and the text
/// that it then returns is the one that these bytes encode.
#[verifier::external_body]
pub(crate) fn checked_text(bytes: &[u8]) -> (r: Option<&str>)
    ensures
        r is Some <==> valid_utf8(bytes@),
        r matches Some(text) ==> encode_utf8(text@) == bytes@,
{
    std::str::from_utf8(bytes).ok()
}

/// Calls `String::from_utf8_lossy`, which never fails. On UTF-8 it returns the text
/// that the bytes encode, unchanged.
#[verifier::external_body]
pub(crate) fn replaced_text(bytes: &[u8]) -> (r: String)
    ensures
        r@ == lossy_text(bytes@),
        valid_utf8(bytes@) ==> r@ == decode_utf8(bytes@),
{
    String::from_utf8_lossy(bytes).into_owned()
}

/// A text has no more characters than its encoding has bytes.
pub proof fn lemma_chars_fit_bytes(text: Seq<char>)
    ensures
        text.len() <= encode_utf8(text).len(),
    decreases text.len(),
{
    if text.len() > 0 {
        lemma_chars_fit_bytes(text.drop_first());
    }
}

/// The text that `bytes` encode, or `None` where they are not UTF-8.
pub fn decode(bytes: &[u8]) -> (r: Option<&str>)
    ensures
        r is Some <==> valid_utf8(bytes@),
        r matches Some(text) ==> text@ == decode_utf8(bytes@) && encode_utf8(text@) == bytes@
            && text@.len() <= bytes@.len(),
{
    let r = checked_text(bytes);
    proof {
        if let Some(text) = r {
            encode_utf8_decode_utf8(text@);
            lemma_chars_fit_bytes(text@);
        }
    }
    r
}

/// What a read reports of bytes that are not UTF-8.
pub open spec fn not_utf8() -> Seq<char> {
    "stream did not contain valid UTF-8"@
}

/// The failure of a read that met bytes that are not UTF-8.
pub fn not_utf8_error() -> (e: Error)
    ensures
        e is Read,
        e.message() == not_utf8(),
{
    Error::Read(String::from_str("stream did not contain valid UTF-8"))
}

/// Two encodings joined are the encoding of the two texts joined.
pub proof fn lemma_decode_joined(a: Seq<u8>, b: Seq<u8>)
    requires
        valid_utf8(a),
        valid_utf8(b),
    ensures
        valid_utf8(a + b),
        decode_utf8(a + b) == decode_utf8(a) + decode_utf8(b),
    decreases a.len(),
{
    valid_utf8_concat(a, b);
    if a.len() == 0 {
        assert(a + b =~= b);
        assert(decode_utf8(a) + decode_utf8(b) =~= decode_utf8(b));
    } else {
        let rest = pop_first_scalar(a);
        assert(pop_first_scalar(a + b) =~= rest + b);
        assert(decode_first_scalar(a + b) == decode_first_scalar(a));
        lemma_decode_joined(rest, b);
        assert(decode_utf8(a + b) =~= decode_utf8(a) + decode_utf8(b));
    }
}

/// A text whose encoding ends with a line feed ends with the line feed character.
pub proof fn lemma_decode_ends_line(a: Seq<u8>)
    requires
        valid_utf8(a),
        a.len() > 0,
        a.last() == 10,
    ensures
        decode_utf8(a).len() > 0,
        decode_utf8(a).last() == '\n',
{
    let n = (a.len() - 1) as int;
    is_char_boundary_iff_not_is_continuation_byte(a, n);
    valid_utf8_split(a, n);
    decode_utf8_split(a, n);
    let end = a.subrange(n, a.len() as int);
    assert(end =~= seq![10u8]);
    assert(10u8 & 0x7F == 10u8) by (bit_vector);
    assert(pop_first_scalar(end) =~= Seq::<u8>::empty());
    assert(decode_utf8(pop_first_scalar(end)) =~= Seq::<char>::empty());
    assert(decode_utf8(end) =~= seq!['\n']);
}

} // verus!
