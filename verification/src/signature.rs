//! GitHub webhook signatures: `X-Hub-Signature-256` holds `sha256=` and the
//! hexadecimal HMAC-SHA256 tag of the request body under the shared secret.
use vstd::prelude::*;
use hmac::{Hmac, Mac};
use sha2::Sha256;
use vstd::string::StringSliceAdditionalSpecFns;

verus! {

/// The HMAC-SHA256 tag (RFC 2104 over SHA-256) of `message` under `key`.
pub uninterp spec fn hmac_sha256(key: Seq<u8>, message: Seq<u8>) -> Seq<u8>;

/// Checks `tag` against the HMAC-SHA256 tag of `message` under `key`.
/// Calls `Hmac::<Sha256>::new_from_slice`, `Mac::update` and `Mac::verify_slice`
/// of the `hmac` crate. The claim: the check succeeds exactly when `tag` is the
/// tag; `new_from_slice` accepts keys of every length for `Hmac`, and
/// `verify_slice` refuses a tag whose length is not the 32 bytes of SHA-256.
#[verifier::external_body]
fn hmac_sha256_verify(key: &[u8], message: &[u8], tag: &[u8]) -> (ok: bool)
    ensures
        ok == (tag@ == hmac_sha256(key@, message@)),
        ok ==> tag@.len() == 32,
{
    match Hmac::<Sha256>::new_from_slice(key) {
        Ok(mut mac) => {
            mac.update(message);
            mac.verify_slice(tag).is_ok()
        },
        Err(_) => false,
    }
}

/// The value of one hexadecimal digit, upper or lower case.
pub open spec fn hex_digit_value(c: u8) -> Option<u8> {
    if 48 <= c <= 57 {
        Some((c - 48) as u8)
    } else if 65 <= c <= 70 {
        Some((c - 55) as u8)
    } else if 97 <= c <= 102 {
        Some((c - 87) as u8)
    } else {
        None
    }
}

/// The bytes that a hexadecimal text denotes: two digits per byte, the high
/// digit first; `None` for a text of odd length or with another character.
pub open spec fn hex_decode(text: Seq<u8>) -> Option<Seq<u8>>
    decreases text.len(),
{
    if text.len() == 0 {
        Some(Seq::empty())
    } else if text.len() == 1 {
        None
    } else {
        match (hex_digit_value(text[0]), hex_digit_value(text[1]), hex_decode(text.skip(2))) {
            (Some(high), Some(low), Some(rest)) => Some(seq![(high * 16 + low) as u8] + rest),
            _ => None,
        }
    }
}

/// Decodes hexadecimal text. Calls `hex::decode`, which (in `FromHex for Vec<u8>`)
/// refuses odd lengths and any character outside `0-9`, `a-f`, `A-F`, and turns
/// each pair of digits into one byte, high digit first.
#[verifier::external_body]
fn decode_hex(text: &[u8]) -> (r: Option<Vec<u8>>)
    ensures
        match r {
            Some(bytes) => hex_decode(text@) == Some(bytes@),
            None => hex_decode(text@) is None,
        },
{
    hex::decode(text).ok()
}

/// The bytes of `sha256=`.
pub open spec fn signature_prefix() -> Seq<u8> {
    seq![115u8, 104u8, 97u8, 50u8, 53u8, 54u8, 61u8]
}

/// Whether `signature` (the bytes of the header) is `sha256=` followed by the
/// hexadecimal HMAC-SHA256 tag of `body` under `secret`.
pub open spec fn signature_matches(secret: Seq<u8>, body: Seq<u8>, signature: Seq<u8>) -> bool {
    &&& signature.len() >= 7
    &&& signature.take(7) == signature_prefix()
    &&& hex_decode(signature.skip(7)) == Some(hmac_sha256(secret, body))
}

/// Checks the signature header of a delivery against its body.
pub fn valid_signature(secret: &str, body: &[u8], signature: &str) -> (ok: bool)
    ensures
        ok == signature_matches(secret.spec_bytes(), body@, signature.spec_bytes()),
{
    let header = signature.as_bytes();
    if header.len() < 7 {
        return false;
    }
    if !(header[0] == 115u8 && header[1] == 104u8 && header[2] == 97u8 && header[3] == 50u8
        && header[4] == 53u8 && header[5] == 54u8 && header[6] == 61u8) {
        assert(header@.take(7)[0] == header@[0]);
        assert(header@.take(7)[1] == header@[1]);
        assert(header@.take(7)[2] == header@[2]);
        assert(header@.take(7)[3] == header@[3]);
        assert(header@.take(7)[4] == header@[4]);
        assert(header@.take(7)[5] == header@[5]);
        assert(header@.take(7)[6] == header@[6]);
        return false;
    }
    assert(header@.take(7) == signature_prefix());
    let mut hex_text: Vec<u8> = Vec::new();
    let mut i: usize = 7;
    while i < header.len()
        invariant
            7 <= i <= header@.len(),
            hex_text@ == header@.subrange(7, i as int),
        decreases header@.len() - i,
    {
        hex_text.push(header[i]);
        i = i + 1;
    }
    assert(hex_text@ == header@.skip(7));
    match decode_hex(hex_text.as_slice()) {
        None => false,
        Some(tag) => hmac_sha256_verify(secret.as_bytes(), body, tag.as_slice()),
    }
}

/// The lower-case hexadecimal digit of a value below 16.
pub open spec fn hex_digit_char(d: u8) -> u8 {
    if d < 10 {
        (d + 48) as u8
    } else {
        (d + 87) as u8
    }
}

/// The lower-case hexadecimal text of `bytes`, as GitHub writes the tag.
pub open spec fn hex_encode(bytes: Seq<u8>) -> Seq<u8>
    decreases bytes.len(),
{
    if bytes.len() == 0 {
        Seq::empty()
    } else {
        seq![hex_digit_char(bytes[0] / 16), hex_digit_char(bytes[0] % 16)] + hex_encode(
            bytes.drop_first(),
        )
    }
}

/// Decoding undoes lower-case hexadecimal encoding.
pub proof fn hex_decode_undoes_encode(bytes: Seq<u8>)
    ensures
        hex_decode(hex_encode(bytes)) == Some(bytes),
    decreases bytes.len(),
{
    if bytes.len() > 0 {
        let text = hex_encode(bytes);
        hex_decode_undoes_encode(bytes.drop_first());
        assert(text.skip(2) == hex_encode(bytes.drop_first()));
        let b = bytes[0];
        assert(hex_digit_value(hex_digit_char(b / 16)) == Some(b / 16));
        assert(hex_digit_value(hex_digit_char(b % 16)) == Some(b % 16));
        assert(((b / 16) * 16 + b % 16) as u8 == b);
        assert(seq![b] + bytes.drop_first() == bytes);
    }
}

/// A delivery signed as GitHub signs it (`sha256=` and the lower-case hexadecimal
/// HMAC-SHA256 tag of the body under the shared secret) passes the check.
pub proof fn signed_delivery_is_accepted(secret: Seq<u8>, body: Seq<u8>)
    ensures
        signature_matches(
            secret,
            body,
            signature_prefix() + hex_encode(hmac_sha256(secret, body)),
        ),
{
    let signature = signature_prefix() + hex_encode(hmac_sha256(secret, body));
    hex_decode_undoes_encode(hmac_sha256(secret, body));
    assert(signature.take(7) == signature_prefix());
    assert(signature.skip(7) == hex_encode(hmac_sha256(secret, body)));
}

} // verus!
