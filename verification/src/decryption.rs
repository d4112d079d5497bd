//! Decoding one obfuscated credential field.
//!
//! A field is standard base64 text; the decoded bytes run through the keyed
//! cipher with the fixed key, and the result counts as a credential only
//! when it is valid text. Both failure modes are ordinary outcomes here: the
//! record parser calls this speculatively on many candidate slicings and
//! treats every failure as "try the next candidate".

use vstd::prelude::*;

verus! {

use vstd::string::StringSliceAdditionalSpecFns;
use vstd::utf8::{valid_utf8, decode_utf8};
use crate::cipher::{cipher, eh_decrypt_data};

/// The fixed key the target application obfuscates passwords with: the
/// ASCII bytes of `2pAuzgX9Ns`.
pub open spec fn key_seq() -> Seq<u8> {
    seq![50u8, 112u8, 65u8, 117u8, 122u8, 103u8, 88u8, 57u8, 78u8, 115u8]
}

/// The fixed key as an owned buffer.
pub fn fixed_key() -> (r: Vec<u8>)
    ensures
        r@ == key_seq(),
{
    let mut v: Vec<u8> = Vec::new();
    v.push(50);
    v.push(112);
    v.push(65);
    v.push(117);
    v.push(122);
    v.push(103);
    v.push(88);
    v.push(57);
    v.push(78);
    v.push(115);
    proof {
        assert(v@ =~= key_seq());
    }
    v
}

#[verifier::external_type_specification]
#[verifier::external_body]
pub struct ExDecodeError(base64::DecodeError);

#[verifier::external_type_specification]
#[verifier::external_body]
pub struct ExFromUtf8Error(std::string::FromUtf8Error);

/// Why a field failed to decode: it was not well-formed base64, or the
/// deciphered bytes were not valid text.
#[derive(Debug)]
pub enum Error {
    Base64Decode(base64::DecodeError),
    UTF8Decode(std::string::FromUtf8Error),
}

/// What decoding standard base64 returns on the given input: the decoded
/// bytes, or nothing when the input is rejected. The result depends on the
/// input alone.
pub uninterp spec fn b64_standard_decode(input: Seq<u8>) -> Option<Seq<u8>>;

/// Relies on base64::Engine::decode with the standard engine
/// (base64::prelude::BASE64_STANDARD): whether the input is accepted and
/// which bytes come back are a function of the input bytes alone.
#[verifier::external_body]
fn base64_decode(input: &[u8]) -> (r: Result<Vec<u8>, base64::DecodeError>)
    ensures
        match r {
            Ok(decoded) => b64_standard_decode(input@) == Some(decoded@),
            Err(_) => b64_standard_decode(input@) is None,
        },
{
    base64::Engine::decode(&base64::prelude::BASE64_STANDARD, input)
}

/// Relies on String::from_utf8: it succeeds exactly on valid UTF-8 and
/// returns the text those bytes encode.
#[verifier::external_body]
pub(crate) fn string_from_utf8(bytes: Vec<u8>) -> (r: Result<String, std::string::FromUtf8Error>)
    ensures
        r is Ok <==> valid_utf8(bytes@),
        r matches Ok(s) ==> s@ == decode_utf8(bytes@),
{
    String::from_utf8(bytes)
}

/// The text one obfuscated field yields: base64-decode it, run the cipher
/// with the fixed key over the result, and read the bytes as text. Nothing
/// when either step rejects.
pub open spec fn decrypt_spec(field: Seq<u8>) -> Option<Seq<char>> {
    match b64_standard_decode(field) {
        Some(enc) => {
            let plain = cipher(enc, key_seq(), 0);
            if valid_utf8(plain) {
                Some(decode_utf8(plain))
            } else {
                None
            }
        },
        None => None,
    }
}

/// Decode one obfuscated field given as raw bytes. Succeeds exactly when
/// the field is well-formed standard base64 and the deciphered bytes are
/// valid text; the error says which of the two steps rejected.
pub fn decrypt_password_bytes(field: &[u8]) -> (r: Result<String, Error>)
    ensures
        match r {
            Ok(s) => decrypt_spec(field@) == Some(s@),
            Err(e) => decrypt_spec(field@) is None && (e is Base64Decode <==> b64_standard_decode(
                field@,
            ) is None) && (e is UTF8Decode <==> (b64_standard_decode(field@) is Some && !valid_utf8(
                cipher(b64_standard_decode(field@).unwrap(), key_seq(), 0),
            ))),
        },
{
    let enc = match base64_decode(field) {
        Ok(v) => v,
        Err(e) => {
            return Err(Error::Base64Decode(e));
        },
    };
    let key = fixed_key();
    let plain = eh_decrypt_data(enc.as_slice(), key.as_slice(), 0);
    match string_from_utf8(plain) {
        Ok(s) => Ok(s),
        Err(e) => Err(Error::UTF8Decode(e)),
    }
}

/// Decode one obfuscated base64 field, as handed over as text. Succeeds
/// exactly when [`decrypt_password_bytes`] succeeds on the field's bytes.
pub fn decrypt_password(passw_b64: &str) -> (r: Result<String, Error>)
    ensures
        match r {
            Ok(s) => decrypt_spec(passw_b64.spec_bytes()) == Some(s@),
            Err(_) => decrypt_spec(passw_b64.spec_bytes()) is None,
        },
{
    decrypt_password_bytes(passw_b64.as_bytes())
}

} // verus!
