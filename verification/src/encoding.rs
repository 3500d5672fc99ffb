//! Base64 (standard alphabet, padded) through the `base64` crate, and
//! UTF-8 decoding of received bytes.
use vstd::prelude::*;
use vstd::utf8::{decode_utf8, valid_utf8};

verus! {

/// What `base64::engine::general_purpose::STANDARD.encode` returns.
pub uninterp spec fn base64_encode(data: Seq<u8>) -> Seq<char>;

/// What `base64::engine::general_purpose::STANDARD.decode` gives: the bytes,
/// or `None` when it reports an error.
pub uninterp spec fn base64_decode(text: Seq<char>) -> Option<Seq<u8>>;

/// The encoded length of `n` bytes (four characters for each started group
/// of three) fits in a `usize`; `encode` panics otherwise.
pub open spec fn encoded_len_fits(n: nat) -> bool {
    (n / 3) * 4 + (if n % 3 == 0 {
        0int
    } else {
        4int
    }) <= usize::MAX
}

/// Whether `n` bytes can be encoded: their encoded length fits in a
/// `usize`.
pub fn encoded_len_fits_exec(n: usize) -> (b: bool)
    ensures
        b == encoded_len_fits(n as nat),
{
    let groups = n / 3;
    let extra: usize = if n % 3 == 0 { 0 } else { 4 };
    match groups.checked_mul(4) {
        Some(m) => m.checked_add(extra).is_some(),
        None => false,
    }
}

/// `STANDARD.encode` of the bytes: the result is named by `base64_encode`.
#[verifier::external_body]
pub(crate) fn encode_base64(data: &[u8]) -> (s: String)
    requires
        encoded_len_fits(data@.len()),
    ensures
        s@ == base64_encode(data@),
{
    base64::Engine::encode(&base64::engine::general_purpose::STANDARD, data)
}

/// `STANDARD.decode` of the text, its error dropped: the result is named by
/// `base64_decode`; decoding what `encode` made gives back the bytes, as the
/// crate's documentation of the round trip says.
#[verifier::external_body]
pub(crate) fn decode_base64(text: &str) -> (r: Option<Vec<u8>>)
    ensures
        r is Some <==> base64_decode(text@) is Some,
        r matches Some(v) ==> base64_decode(text@) == Some(v@),
        r matches Some(v) ==> forall|data: Seq<u8>| text@ == base64_encode(data) ==> v@ == data,
        r is None ==> forall|data: Seq<u8>| text@ != base64_encode(data),
{
    base64::Engine::decode(&base64::engine::general_purpose::STANDARD, text).ok()
}

/// `String::from_utf8`, its error dropped: the text the bytes encode when
/// they are valid UTF-8.
#[verifier::external_body]
pub(crate) fn utf8_to_string(bytes: Vec<u8>) -> (r: Option<String>)
    ensures
        r is Some <==> valid_utf8(bytes@),
        r matches Some(s) ==> s@ == decode_utf8(bytes@),
{
    String::from_utf8(bytes).ok()
}

/// Decodes the raw output (base64) that a session reports.
pub fn decode_raw_output(raw_b64: &str) -> (r: Option<Vec<u8>>)
    ensures
        r is Some <==> base64_decode(raw_b64@) is Some,
        r matches Some(v) ==> base64_decode(raw_b64@) == Some(v@),
        forall|data: Seq<u8>|
            raw_b64@ == base64_encode(data) ==> (r matches Some(v) && v@ == data),
{
    decode_base64(raw_b64)
}

} // verus!
