//! The base64 boundary. Payloads travel base64-encoded so that they are
//! inert element text to an HTML parser. What the outside encoder returns
//! byte for byte is beyond a short statement, so the two results carry
//! names, tied to each other by the round trip the encoder's contract
//! promises.

use vstd::prelude::*;

use base64::Engine;

verus! {

/// The bytes the standard, padded base64 alphabet encodes `data` as.
pub uninterp spec fn base64_of(data: Seq<u8>) -> Seq<u8>;

/// What decoding `text` under the same alphabet yields: the original bytes,
/// or nothing when `text` is no valid encoding.
pub uninterp spec fn base64_decode_of(text: Seq<u8>) -> Option<Seq<u8>>;

/// Is `b` a byte the padded standard alphabet can produce?
pub open spec fn base64_alphabet(b: u8) -> bool {
    (65 <= b <= 90)  // A-Z
     || (97 <= b <= 122)  // a-z
     || (48 <= b <= 57)  // 0-9
     || b == 43  // +
     || b == 47  // /
     || b == 61  // =

}

/// Relies on base64's `Engine::encode` with the `STANDARD` engine: the
/// result is a function of the input bytes alone, four output bytes for
/// every three input bytes with `=` padding, all from the standard
/// alphabet, and `Engine::decode` inverts it.
#[verifier::external_body]
pub(crate) fn base64_encode(data: &Vec<u8>) -> (r: Vec<u8>)
    requires
        4 * ((data@.len() + 2) / 3) <= usize::MAX,
    ensures
        r@ == base64_of(data@),
        r@.len() == 4 * ((data@.len() + 2) / 3),
        forall|i: int| 0 <= i < r@.len() ==> base64_alphabet(#[trigger] r@[i]),
        base64_decode_of(r@) == Some(data@),
{
    base64::engine::general_purpose::STANDARD.encode(data).into_bytes()
}

/// Relies on base64's `Engine::decode` with the `STANDARD` engine: the
/// result is a function of the input bytes alone, and fails exactly on
/// inputs that are no valid encoding.
#[verifier::external_body]
pub(crate) fn base64_decode(text: &Vec<u8>) -> (r: Option<Vec<u8>>)
    ensures
        match r {
            Some(v) => base64_decode_of(text@) == Some(v@),
            None => base64_decode_of(text@) is None,
        },
{
    base64::engine::general_purpose::STANDARD.decode(text).ok()
}

} // verus!
