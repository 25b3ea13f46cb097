//! Thin bindings whose contracts Verus believes: the base64 engine and
//! std's UTF-8 validation. Everything else in the crate is verified
//! against these contracts.

use vstd::prelude::*;
use vstd::utf8::{valid_utf8, decode_utf8, encode_utf8};
use base64::Engine;

verus! {

/// The characters the standard base64 alphabet with padding can emit:
/// `A`..`Z`, `a`..`z`, `0`..`9`, `+`, `/` and `=`.
pub open spec fn is_base64_char(c: char) -> bool {
    ||| ('A' <= c && c <= 'Z')
    ||| ('a' <= c && c <= 'z')
    ||| ('0' <= c && c <= '9')
    ||| c == '+'
    ||| c == '/'
    ||| c == '='
}

/// The base64 text that the standard padded engine emits for these bytes.
pub uninterp spec fn base64_of(data: Seq<u8>) -> Seq<char>;

/// The bytes the standard padded engine decodes this text to, `None` where
/// it rejects the text.
pub uninterp spec fn base64_decoded(text: Seq<u8>) -> Option<Seq<u8>>;

/// Relies on base64's `STANDARD` engine: `encode` emits only characters of
/// the standard alphabet with padding (so no whitespace and no newline),
/// emits nothing for no bytes, and `decode` inverts it.
#[verifier::external_body]
pub(crate) fn b64_encode(data: &[u8]) -> (r: String)
    ensures
        r@ == base64_of(data@),
        forall|k: int| 0 <= k < r@.len() ==> is_base64_char(#[trigger] r@[k]),
        r@.len() == 0 <==> data@.len() == 0,
        base64_decoded(encode_utf8(r@)) == Some(data@),
{
    base64::engine::general_purpose::STANDARD.encode(data)
}

/// Relies on base64's `STANDARD` engine: `decode` returns the decoded bytes
/// or rejects the input.
#[verifier::external_body]
pub(crate) fn b64_decode(text: &[u8]) -> (r: Option<Vec<u8>>)
    ensures
        r is Some <==> base64_decoded(text@) is Some,
        r matches Some(v) ==> base64_decoded(text@) == Some(v@),
{
    base64::engine::general_purpose::STANDARD.decode(text).ok()
}

/// Relies on std::str::from_utf8: `Some` exactly on valid UTF-8, giving
/// its decoding.
#[verifier::external_body]
pub(crate) fn bytes_to_str(v: &[u8]) -> (r: Option<&str>)
    ensures
        r is Some <==> valid_utf8(v@),
        r matches Some(t) ==> t@ == decode_utf8(v@),
{
    std::str::from_utf8(v).ok()
}

} // verus!
