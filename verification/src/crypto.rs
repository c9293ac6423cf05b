//! The cryptographic functions that browser cookies are protected with.
use vstd::prelude::*;

use cbc::cipher::block_padding::Pkcs7;
use cbc::cipher::{BlockDecryptMut, KeyIvInit};
use sha2::Digest;

use crate::text::Text;

verus! {

/// The SHA-256 hash of some bytes.
pub uninterp spec fn sha256_of(data: Seq<u8>) -> Seq<u8>;

/// The key that PBKDF2 with HMAC-SHA-1 derives from a password.
pub uninterp spec fn pbkdf2_sha1_of(
    password: Seq<u8>,
    salt: Seq<u8>,
    rounds: int,
    len: int,
) -> Seq<u8>;

/// What AES-128 in CBC mode with PKCS #7 padding decrypts some bytes to, none where the padding is
/// malformed.
pub uninterp spec fn aes128_cbc_of(key: Seq<u8>, iv: Seq<u8>, data: Seq<u8>) -> Option<Seq<u8>>;

/// What `String::from_utf8` says of bytes that are no UTF-8.
pub uninterp spec fn utf8_fault(bytes: Seq<u8>) -> Text;

/// `sha2::Sha256::digest`: the hash depends on the bytes alone, and has 32 bytes.
#[verifier::external_body]
pub(crate) fn sha256(data: &[u8]) -> (r: Vec<u8>)
    ensures
        r@ == sha256_of(data@),
        r@.len() == 32,
{
    sha2::Sha256::digest(data).to_vec()
}

/// `pbkdf2::pbkdf2_hmac` with `sha1::Sha1`: it fills the key, which depends on the arguments alone.
#[verifier::external_body]
pub(crate) fn pbkdf2_sha1(password: &[u8], salt: &[u8], rounds: u32, len: usize) -> (r: Vec<u8>)
    requires
        len <= u32::MAX,
    ensures
        r@ == pbkdf2_sha1_of(password@, salt@, rounds as int, len as int),
        r@.len() == len,
{
    let mut key = vec![0u8; len];
    pbkdf2::pbkdf2_hmac::<sha1::Sha1>(password, salt, rounds, &mut key);
    key
}

/// Why a decryption failed.
#[derive(Debug)]
pub enum CipherFault {
    /// The key or the initial vector has a wrong length.
    Length(String),
    /// The padding is malformed.
    Padding(String),
}

/// `cbc::Decryptor::<aes::Aes128>` with `new_from_slices` and `decrypt_padded_mut::<Pkcs7>`: a key
/// or initial vector of other than 16 bytes is refused as "Invalid Length"; the rest depends on the
/// arguments alone, and is refused as "UnpadError" at least where the data are no whole number of
/// blocks of 16 bytes.
#[verifier::external_body]
pub(crate) fn aes128_cbc(key: &[u8], iv: &[u8], data: &[u8]) -> (r: Result<Vec<u8>, CipherFault>)
    ensures
        match r {
            Ok(plain) => key@.len() == 16 && iv@.len() == 16 && aes128_cbc_of(key@, iv@, data@)
                == Some(plain@),
            Err(CipherFault::Length(e)) => !(key@.len() == 16 && iv@.len() == 16) && e@
                == "Invalid Length"@,
            Err(CipherFault::Padding(e)) => key@.len() == 16 && iv@.len() == 16 && aes128_cbc_of(
                key@,
                iv@,
                data@,
            ) is None && e@ == "UnpadError"@,
        },
        r is Ok ==> data@.len() > 0 && data@.len() % 16 == 0,
{
    let mut buf = data.to_vec();
    let cipher = cbc::Decryptor::<aes::Aes128>::new_from_slices(key, iv)
        .map_err(|e| CipherFault::Length(e.to_string()))?;
    let plain = cipher.decrypt_padded_mut::<Pkcs7>(&mut buf)
        .map_err(|e| CipherFault::Padding(format!("{e:?}")))?;
    Ok(plain.to_vec())
}

/// `String::from_utf8`: the text that the bytes encode, where they are UTF-8; else a message that
/// depends on the bytes alone.
#[verifier::external_body]
pub(crate) fn utf8_text(bytes: Vec<u8>) -> (r: Result<String, String>)
    ensures
        match r {
            Ok(s) => vstd::utf8::valid_utf8(bytes@) && s@ == vstd::utf8::decode_utf8(bytes@),
            Err(e) => !vstd::utf8::valid_utf8(bytes@) && e@ == utf8_fault(bytes@),
        },
{
    String::from_utf8(bytes).map_err(|e| e.to_string())
}

} // verus!
