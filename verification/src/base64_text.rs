use vstd::prelude::*;
use base64::Engine;

verus! {

/// The `base64` crate's decoding error.
#[verifier::external_type_specification]
#[verifier::external_body]
pub struct ExDecodeError(base64::DecodeError);

/// What `base64::engine::general_purpose::STANDARD.encode` returns for `bytes`.
pub uninterp spec fn base64_standard_encode(bytes: Seq<u8>) -> Seq<char>;

/// What `base64::engine::general_purpose::STANDARD.decode` returns for `text`:
/// `None` where it returns an error.
pub uninterp spec fn base64_standard_decode(text: Seq<char>) -> Option<Seq<u8>>;

/// What `base64::engine::general_purpose::URL_SAFE_NO_PAD.encode` returns for `bytes`.
pub uninterp spec fn base64_url_encode(bytes: Seq<u8>) -> Seq<char>;

/// What `base64::engine::general_purpose::URL_SAFE_NO_PAD.decode` returns for
/// `text`: `None` where it returns an error.
pub uninterp spec fn base64_url_decode(text: Seq<char>) -> Option<Seq<u8>>;

/// The length of the base64 text of `n` bytes, with or without `=` padding.
pub open spec fn base64_encoded_len(n: nat, padding: bool) -> nat {
    let rem = n % 3;
    let body = n / 3 * 4;
    if rem == 0 {
        body
    } else if padding {
        body + 4
    } else {
        body + rem + 1
    }
}

pub open spec fn is_ascii_letter_or_digit(c: char) -> bool {
    ('A' <= c && c <= 'Z') || ('a' <= c && c <= 'z') || ('0' <= c && c <= '9')
}

/// A character of the standard alphabet, or its padding.
pub open spec fn in_standard_alphabet(c: char) -> bool {
    is_ascii_letter_or_digit(c) || c == '+' || c == '/' || c == '='
}

/// A character of the URL-safe alphabet.
pub open spec fn in_url_alphabet(c: char) -> bool {
    is_ascii_letter_or_digit(c) || c == '-' || c == '_'
}

/// Calls `STANDARD.encode` (padded standard alphabet). Claimed: the result is
/// the named encoding of `bytes`, has the documented length, uses only the
/// alphabet's characters, and `STANDARD.decode` gives `bytes` back from it.
/// The crate panics where the length of the text would overflow `usize`.
#[verifier::external_body]
pub(crate) fn standard_encode(bytes: &[u8]) -> (res: String)
    requires
        base64_encoded_len(bytes@.len(), true) <= usize::MAX,
    ensures
        res@ == base64_standard_encode(bytes@),
        res@.len() == base64_encoded_len(bytes@.len(), true),
        forall|i: int| 0 <= i < res@.len() ==> #[trigger] in_standard_alphabet(res@[i]),
        base64_standard_decode(res@) == Some(bytes@),
{
    base64::engine::general_purpose::STANDARD.encode(bytes)
}

/// Calls `STANDARD.decode` on the bytes of `text`. Claimed: the result is the
/// named decoding of `text`.
#[verifier::external_body]
pub(crate) fn standard_decode(text: &str) -> (res: Result<Vec<u8>, base64::DecodeError>)
    ensures
        res is Ok <==> base64_standard_decode(text@) is Some,
        res matches Ok(v) ==> v@ == base64_standard_decode(text@)->0,
{
    base64::engine::general_purpose::STANDARD.decode(text)
}

/// Calls `URL_SAFE_NO_PAD.encode`. Claimed: the result is the named encoding of
/// `bytes`, has the documented length, uses only the URL-safe alphabet, and
/// `URL_SAFE_NO_PAD.decode` gives `bytes` back from it. The crate panics where
/// the length of the text would overflow `usize`.
#[verifier::external_body]
pub(crate) fn url_encode(bytes: &[u8]) -> (res: String)
    requires
        base64_encoded_len(bytes@.len(), false) <= usize::MAX,
    ensures
        res@ == base64_url_encode(bytes@),
        res@.len() == base64_encoded_len(bytes@.len(), false),
        forall|i: int| 0 <= i < res@.len() ==> #[trigger] in_url_alphabet(res@[i]),
        base64_url_decode(res@) == Some(bytes@),
{
    base64::engine::general_purpose::URL_SAFE_NO_PAD.encode(bytes)
}

/// Calls `URL_SAFE_NO_PAD.decode` on the bytes of `text`. Claimed: the result is
/// the named decoding of `text`.
#[verifier::external_body]
pub(crate) fn url_decode(text: &str) -> (res: Result<Vec<u8>, base64::DecodeError>)
    ensures
        res is Ok <==> base64_url_decode(text@) is Some,
        res matches Ok(v) ==> v@ == base64_url_decode(text@)->0,
{
    base64::engine::general_purpose::URL_SAFE_NO_PAD.decode(text)
}

} // verus!
