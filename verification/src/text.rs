//! Bytes read as text.
use vstd::prelude::*;
use vstd::string::StringSliceAdditionalSpecFns;
use vstd::utf8::*;

use crate::grammar::ascii_chars;

verus! {

/// Calls `std::str::from_utf8`. Claimed of it: it gives a string exactly when
/// the bytes are valid UTF-8, and that string is made of those very bytes.
#[verifier::external_body]
pub(crate) fn str_from_utf8<'a>(v: &'a [u8]) -> (r: Option<&'a str>)
    ensures
        r is Some <==> valid_utf8(v@),
        r matches Some(s) ==> s.spec_bytes() == v@,
{
    std::str::from_utf8(v).ok()
}

/// ASCII bytes are valid UTF-8, and decode to the characters with the same codes.
pub proof fn lemma_ascii_utf8(b: Seq<u8>)
    requires
        forall|k: int| 0 <= k < b.len() ==> #[trigger] b[k] < 128,
    ensures
        valid_utf8(b),
        decode_utf8(b) == ascii_chars(b),
{
    let c = ascii_chars(b);
    assert(is_ascii_chars(c)) by {
        assert forall|k: int| 0 <= k < c.len() implies '\0' <= #[trigger] c[k] <= '\u{7f}' by {
            assert(b[k] < 128);
        }
    }
    is_ascii_chars_encode_utf8(c);
    assert forall|k: int| 0 <= k < b.len() implies #[trigger] encode_utf8(c)[k] == b[k] by {
        let x = b[k];
        assert(c[k] == x as char);
        assert((x as char) as u8 == x);
    }
    assert(encode_utf8(c) =~= b);
    encode_utf8_valid_utf8(c);
    encode_utf8_decode_utf8(c);
}

/// A string whose bytes are valid UTF-8 reads as their decoding.
pub proof fn lemma_str_of_bytes(s: &str, b: Seq<u8>)
    requires
        s.spec_bytes() == b,
    ensures
        s@ == decode_utf8(b),
{
    encode_utf8_decode_utf8(s@);
}

} // verus!
