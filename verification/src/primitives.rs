//! The ciphers and encodings that the container is built from.
//!
//! These are the calls into the `aes`, `ecb` and `base64` crates. What they return is taken on
//! trust; each contract says what of it.
use aes::cipher::block_padding::Pkcs7;
use aes::cipher::{BlockModeDecrypt, BlockModeEncrypt, KeyInit};
use base64::prelude::BASE64_STANDARD;
use base64::Engine;
use vstd::prelude::*;

verus! {

/// The error of removing a block padding.
#[verifier::external_type_specification]
#[verifier::external_body]
pub struct ExPaddingError(aes::cipher::block_padding::Error);

/// The error of decoding base64 text.
#[verifier::external_type_specification]
#[verifier::external_body]
pub struct ExDecodeError(base64::DecodeError);

/// The AES-128-ECB ciphertext of `plain`, padded as PKCS#7 says, under `key`.
pub uninterp spec fn aes_encrypted(key: Seq<u8>, plain: Seq<u8>) -> Seq<u8>;

/// The plaintext of the AES-128-ECB ciphertext `data` under `key`; `None` if `data` is not made of
/// whole blocks or does not end in a PKCS#7 padding.
pub uninterp spec fn aes_decrypted(key: Seq<u8>, data: Seq<u8>) -> Option<Seq<u8>>;

/// The standard, padded base64 text of `data`.
pub uninterp spec fn base64_encoded(data: Seq<u8>) -> Seq<u8>;

/// The bytes that the standard base64 text `text` stands for; `None` if it is no such text.
pub uninterp spec fn base64_decoded(text: Seq<u8>) -> Option<Seq<u8>>;

/// The length of an AES ciphertext: whole blocks of 16, the last one always holding padding.
pub open spec fn aes_len(plain_len: int) -> int {
    (plain_len / 16 + 1) * 16
}

/// The length of a padded base64 text: four characters for each three bytes begun.
pub open spec fn base64_len(data_len: int) -> int {
    (data_len + 2) / 3 * 4
}

/// `ecb::Decryptor::<aes::Aes128>::decrypt_padded` with PKCS#7 padding.
///
/// Trusted: the result depends on the key and the data alone, and the data of a plaintext has the
/// padded length of it. Otherwise the result is named, not described.
#[verifier::external_body]
pub(crate) fn aes_decrypt(key: &[u8; 16], data: &[u8]) -> (plain: Result<
    Vec<u8>,
    aes::cipher::block_padding::Error,
>)
    ensures
        match plain {
            Ok(bytes) => aes_decrypted(key@, data@) == Some(bytes@),
            Err(_) => aes_decrypted(key@, data@) is None,
        },
        plain matches Ok(bytes) ==> data@.len() == aes_len(bytes@.len() as int),
{
    let mut buf = data.to_vec();
    let aes = ecb::Decryptor::<aes::Aes128>::new_from_slice(key).unwrap();
    aes.decrypt_padded::<Pkcs7>(&mut buf).map(|plain| plain.to_vec())
}

/// `ecb::Encryptor::<aes::Aes128>::encrypt_padded_vec` with PKCS#7 padding.
///
/// Trusted: the result depends on the key and the plaintext alone, has the padded length, and
/// decrypts under the same key to the plaintext. Each block is encrypted on its own, so plaintexts
/// that share a whole first block have ciphertexts that do. A ciphertext too long to allocate is
/// left out.
#[verifier::external_body]
pub(crate) fn aes_encrypt(key: &[u8; 16], plain: &[u8]) -> (data: Vec<u8>)
    requires
        aes_len(plain@.len() as int) <= isize::MAX,
    ensures
        data@ == aes_encrypted(key@, plain@),
        data@.len() == aes_len(plain@.len() as int),
        aes_decrypted(key@, data@) == Some(plain@),
        forall|other: Seq<u8>|
            16 <= plain@.len() && plain@.take(16).is_prefix_of(other) && aes_len(other.len() as int)
                <= isize::MAX ==> data@.take(16).is_prefix_of(
                #[trigger] aes_encrypted(key@, other),
            ),
{
    let aes = ecb::Encryptor::<aes::Aes128>::new_from_slice(key).unwrap();
    aes.encrypt_padded_vec::<Pkcs7>(plain)
}

/// `Engine::decode` of the `base64` crate's standard engine.
///
/// Trusted: the result depends on the text alone. It is named, not described.
#[verifier::external_body]
pub(crate) fn base64_decode(text: &[u8]) -> (data: Result<Vec<u8>, base64::DecodeError>)
    ensures
        match data {
            Ok(bytes) => base64_decoded(text@) == Some(bytes@),
            Err(_) => base64_decoded(text@) is None,
        },
{
    BASE64_STANDARD.decode(text)
}

/// `Engine::encode` of the `base64` crate's standard engine, its text taken as bytes.
///
/// Trusted: the result depends on the data alone, has the padded length, and decodes to the data.
/// A text too long to allocate is left out.
#[verifier::external_body]
pub(crate) fn base64_encode(data: &[u8]) -> (text: Vec<u8>)
    requires
        base64_len(data@.len() as int) <= isize::MAX,
    ensures
        text@ == base64_encoded(data@),
        text@.len() == base64_len(data@.len() as int),
        base64_decoded(text@) == Some(data@),
{
    BASE64_STANDARD.encode(data).into_bytes()
}

/// An AES ciphertext is made of whole blocks and longer than its plaintext, by one block at most.
pub proof fn law_aes_len_is_the_next_block(n: int)
    requires
        0 <= n,
    ensures
        aes_len(n) % 16 == 0,
        n < aes_len(n) <= n + 16,
{
}

/// A base64 text is made of groups of four characters, the fewest that hold its bytes.
pub proof fn law_base64_len_is_the_fewest_groups(n: int)
    requires
        0 <= n,
    ensures
        base64_len(n) % 4 == 0,
        3 * base64_len(n) >= 4 * n,
        n == 0 ==> base64_len(n) == 0,
        n > 0 ==> 3 * (base64_len(n) - 4) < 4 * n,
{
}

} // verus!
