//! The encrypted key and metadata blobs of a `.ncm` container.
use crate::error::{invalid, NcmError};
use crate::octets::{mask_bytes, strip_magic};
use crate::primitives::{aes_decrypt, base64_decode};
use vstd::prelude::*;

verus! {

use crate::error::outcome;
use crate::octets::{after_magic, masked};
use crate::primitives::{aes_decrypted, aes_len, base64_decoded};

/// The AES key of the key blob: `hzHRAmso5kInbaxW`.
pub const CORE_KEY: [u8; 16] = [
    0x68, 0x7a, 0x48, 0x52, 0x41, 0x6d, 0x73, 0x6f, 0x35, 0x6b, 0x49, 0x6e, 0x62, 0x61, 0x78, 0x57,
];

/// The AES key of the metadata blob: `#14ljk_!\]&0U<'(`.
pub const META_KEY: [u8; 16] = [
    0x23, 0x31, 0x34, 0x6c, 0x6a, 0x6b, 0x5f, 0x21, 0x5c, 0x5d, 0x26, 0x30, 0x55, 0x3c, 0x27, 0x28,
];

/// The mask on every byte of the key blob.
pub const KEY_MASK: u8 = 0x64;

/// The mask on every byte of the metadata blob.
pub const META_MASK: u8 = 0x63;

/// What the decrypted key blob begins with: `neteasecloudmusic`.
pub const KEY_MAGIC: [u8; 17] = [
    0x6e, 0x65, 0x74, 0x65, 0x61, 0x73, 0x65, 0x63, 0x6c, 0x6f, 0x75, 0x64, 0x6d, 0x75, 0x73, 0x69,
    0x63,
];

/// What the unmasked metadata blob begins with: `163 key(Don't modify):`.
pub const META_MAGIC: [u8; 22] = [
    0x31, 0x36, 0x33, 0x20, 0x6b, 0x65, 0x79, 0x28, 0x44, 0x6f, 0x6e, 0x27, 0x74, 0x20, 0x6d, 0x6f,
    0x64, 0x69, 0x66, 0x79, 0x29, 0x3a,
];

/// What the decrypted metadata begins with: `music:`.
pub const META_MARKER: [u8; 6] = [0x6d, 0x75, 0x73, 0x69, 0x63, 0x3a];

/// The content key in the plaintext of a key blob, or what is wrong with it; `None` stands for a
/// blob that could not be decrypted.
pub open spec fn key_in_plaintext(plain: Option<Seq<u8>>) -> Result<Seq<u8>, Seq<char>> {
    match plain {
        None => Err("Failed to decrypt key"@),
        Some(bytes) => match after_magic(bytes, KEY_MAGIC@) {
            None => Err("Invalid key header"@),
            Some(key_data) => Ok(key_data),
        },
    }
}

/// The content key in a key blob, or what is wrong with the blob.
pub open spec fn key_in_blob(blob: Seq<u8>) -> Result<Seq<u8>, Seq<char>> {
    key_in_plaintext(aes_decrypted(CORE_KEY@, masked(blob, KEY_MASK)))
}

/// The base64 text in a metadata blob, or what is wrong with the blob.
pub open spec fn text_in_meta_blob(blob: Seq<u8>) -> Result<Seq<u8>, Seq<char>> {
    match after_magic(masked(blob, META_MASK), META_MAGIC@) {
        None => Err("Invalid metadata header"@),
        Some(text) => Ok(text),
    }
}

/// The JSON text in the plaintext of a metadata blob, or what is wrong with it; `None` stands for
/// a blob that could not be decrypted.
pub open spec fn json_in_plaintext(plain: Option<Seq<u8>>) -> Result<Seq<u8>, Seq<char>> {
    match plain {
        None => Err("Failed to decrypt metadata"@),
        Some(bytes) => match after_magic(bytes, META_MARKER@) {
            None => Err("Invalid meta marker"@),
            Some(json) => Ok(json),
        },
    }
}

/// The JSON text in a metadata blob, or what is wrong with the blob.
pub open spec fn json_in_blob(blob: Seq<u8>) -> Result<Seq<u8>, Seq<char>> {
    match text_in_meta_blob(blob) {
        Err(message) => Err(message),
        Ok(text) => match base64_decoded(text) {
            None => Err("Failed to decode base64 metadata"@),
            Some(cipher) => json_in_plaintext(aes_decrypted(META_KEY@, cipher)),
        },
    }
}

/// A decryption's outcome by what it stands for.
pub open spec fn plain_view(plain: Option<Vec<u8>>) -> Option<Seq<u8>> {
    match plain {
        Some(bytes) => Some(bytes@),
        None => None,
    }
}

/// Takes the content key out of the plaintext of a key blob; `None` stands for a blob that could
/// not be decrypted.
pub fn open_key_plaintext(plain: Option<Vec<u8>>) -> (key_data: Result<Vec<u8>, NcmError>)
    ensures
        outcome(key_data) == key_in_plaintext(plain_view(plain)),
{
    match plain {
        None => Err(invalid("Failed to decrypt key")),
        Some(bytes) => match strip_magic(bytes.as_slice(), &KEY_MAGIC) {
            None => Err(invalid("Invalid key header")),
            Some(rest) => Ok(vstd::slice::slice_to_vec(rest)),
        },
    }
}

/// Decrypts a key blob (the bytes that follow its length) into the raw content key.
///
/// The length of the blob is that of the key behind its magic, padded: a blob of any other length
/// is refused. One that is not made of whole blocks, or of none, cannot be decrypted.
pub fn decrypt_key_blob(blob: &[u8]) -> (key_data: Result<Vec<u8>, NcmError>)
    ensures
        outcome(key_data) == key_in_blob(blob@),
        key_data matches Ok(key) ==> blob@.len() == aes_len(17 + key@.len() as int),
        blob@.len() == 0 || blob@.len() % 16 != 0 ==> outcome(key_data) == Err::<Seq<u8>, _>(
            "Failed to decrypt key"@,
        ),
{
    let cipher: Vec<u8> = mask_bytes(blob, KEY_MASK);
    match aes_decrypt(&CORE_KEY, cipher.as_slice()) {
        Ok(plain) => open_key_plaintext(Some(plain)),
        Err(_) => open_key_plaintext(None),
    }
}

/// Unmasks a metadata blob and takes out the base64 text behind its header.
pub fn meta_blob_text(blob: &[u8]) -> (text: Result<Vec<u8>, NcmError>)
    ensures
        outcome(text) == text_in_meta_blob(blob@),
{
    let plain: Vec<u8> = mask_bytes(blob, META_MASK);
    match strip_magic(plain.as_slice(), &META_MAGIC) {
        None => Err(invalid("Invalid metadata header")),
        Some(text) => Ok(vstd::slice::slice_to_vec(text)),
    }
}

/// Takes the JSON text out of the plaintext of a metadata blob; `None` stands for a blob that
/// could not be decrypted.
pub fn open_meta_plaintext(plain: Option<Vec<u8>>) -> (json: Result<Vec<u8>, NcmError>)
    ensures
        outcome(json) == json_in_plaintext(plain_view(plain)),
{
    match plain {
        None => Err(invalid("Failed to decrypt metadata")),
        Some(bytes) => match strip_magic(bytes.as_slice(), &META_MARKER) {
            None => Err(invalid("Invalid meta marker")),
            Some(rest) => Ok(vstd::slice::slice_to_vec(rest)),
        },
    }
}

/// Decrypts a metadata blob (the bytes that follow its length) into the JSON text it holds.
///
/// A base64 text of bytes that are not made of whole blocks, or of none, cannot be decrypted.
pub fn decrypt_meta_blob(blob: &[u8]) -> (json: Result<Vec<u8>, NcmError>)
    ensures
        outcome(json) == json_in_blob(blob@),
        text_in_meta_blob(blob@) matches Ok(text) ==> base64_decoded(text) matches Some(cipher)
            ==> (cipher.len() == 0 || cipher.len() % 16 != 0) ==> outcome(json) == Err::<
            Seq<u8>,
            _,
        >("Failed to decrypt metadata"@),
{
    let text: Vec<u8> = match meta_blob_text(blob) {
        Ok(text) => text,
        Err(error) => return Err(error),
    };
    let cipher: Vec<u8> = match base64_decode(text.as_slice()) {
        Ok(cipher) => cipher,
        Err(_) => return Err(invalid("Failed to decode base64 metadata")),
    };
    match aes_decrypt(&META_KEY, cipher.as_slice()) {
        Ok(plain) => open_meta_plaintext(Some(plain)),
        Err(_) => open_meta_plaintext(None),
    }
}

/// The magics, the marker and the cipher keys spell what they are known by.
pub proof fn law_constants_spell(i: int)
    ensures
        0 <= i < 16 ==> CORE_KEY@[i] as char == "hzHRAmso5kInbaxW"@[i],
        0 <= i < 16 ==> META_KEY@[i] as char == "#14ljk_!\\]&0U<'("@[i],
        0 <= i < 17 ==> KEY_MAGIC@[i] as char == "neteasecloudmusic"@[i],
        0 <= i < 22 ==> META_MAGIC@[i] as char == "163 key(Don't modify):"@[i],
        0 <= i < 6 ==> META_MARKER@[i] as char == "music:"@[i],
        "hzHRAmso5kInbaxW"@.len() == 16,
        "#14ljk_!\\]&0U<'("@.len() == 16,
        "neteasecloudmusic"@.len() == 17,
        "163 key(Don't modify):"@.len() == 22,
        "music:"@.len() == 6,
{
    reveal_strlit("hzHRAmso5kInbaxW");
    reveal_strlit("#14ljk_!\\]&0U<'(");
    reveal_strlit("neteasecloudmusic");
    reveal_strlit("163 key(Don't modify):");
    reveal_strlit("music:");
}

/// The content key in a plaintext is all that follows the magic, and is found exactly there; a
/// plaintext that begins otherwise has a wrong header.
pub proof fn law_key_follows_its_magic(plain: Seq<u8>, key_data: Seq<u8>)
    ensures
        key_in_plaintext(Some(plain)) == Ok::<_, Seq<char>>(key_data) <==> plain == KEY_MAGIC@
            + key_data,
        key_in_plaintext(Some(plain)) is Err ==> key_in_plaintext(Some(plain)) == Err::<Seq<u8>, _>(
            "Invalid key header"@,
        ),
        key_in_plaintext(None) == Err::<Seq<u8>, _>("Failed to decrypt key"@),
{
    crate::octets::law_magic_is_followed_by_the_rest(plain, KEY_MAGIC@, key_data);
}

/// The JSON text in a plaintext is all that follows the marker, and is found exactly there; a
/// plaintext that begins otherwise has a wrong marker.
pub proof fn law_json_follows_its_marker(plain: Seq<u8>, json: Seq<u8>)
    ensures
        json_in_plaintext(Some(plain)) == Ok::<_, Seq<char>>(json) <==> plain == META_MARKER@
            + json,
        json_in_plaintext(Some(plain)) is Err ==> json_in_plaintext(Some(plain)) == Err::<
            Seq<u8>,
            _,
        >("Invalid meta marker"@),
        json_in_plaintext(None) == Err::<Seq<u8>, _>("Failed to decrypt metadata"@),
{
    crate::octets::law_magic_is_followed_by_the_rest(plain, META_MARKER@, json);
}

/// The key blob that masks a ciphertext holds what the ciphertext decrypts to: a content key behind
/// the magic, or nothing.
pub proof fn law_key_blob_holds_its_ciphertext(blob: Seq<u8>, cipher: Seq<u8>, key_data: Seq<u8>)
    requires
        blob.len() == cipher.len(),
        forall|i: int| 0 <= i < blob.len() ==> #[trigger] blob[i] == cipher[i] ^ 0x64,
    ensures
        key_in_blob(blob) == Ok::<_, Seq<char>>(key_data) <==> aes_decrypted(CORE_KEY@, cipher)
            == Some(KEY_MAGIC@ + key_data),
        aes_decrypted(CORE_KEY@, cipher) is None ==> key_in_blob(blob) == Err::<Seq<u8>, _>(
            "Failed to decrypt key"@,
        ),
        aes_decrypted(CORE_KEY@, cipher) is Some && key_in_blob(blob) is Err ==> key_in_blob(blob)
            == Err::<Seq<u8>, _>("Invalid key header"@),
{
    assert(blob =~= masked(cipher, 0x64));
    crate::octets::law_mask_is_symmetric(cipher, 0x64);
    if let Some(plain) = aes_decrypted(CORE_KEY@, cipher) {
        law_key_follows_its_magic(plain, key_data);
    }
}

/// The metadata blob that masks the header and a text holds what the text leads to, step by step:
/// base64, then the cipher, then the marker, and each failed step has its own error. A blob that
/// masks anything else has a wrong header.
pub proof fn law_meta_blob_holds_its_text(
    blob: Seq<u8>,
    unmasked: Seq<u8>,
    text: Seq<u8>,
    json: Seq<u8>,
)
    requires
        blob.len() == unmasked.len(),
        forall|i: int| 0 <= i < blob.len() ==> #[trigger] blob[i] == unmasked[i] ^ 0x63,
    ensures
        text_in_meta_blob(blob) == Ok::<_, Seq<char>>(text) <==> unmasked == META_MAGIC@ + text,
        text_in_meta_blob(blob) is Err ==> text_in_meta_blob(blob) == Err::<Seq<u8>, _>(
            "Invalid metadata header"@,
        ) && json_in_blob(blob) == text_in_meta_blob(blob),
        unmasked == META_MAGIC@ + text ==> match base64_decoded(text) {
            None => json_in_blob(blob) == Err::<Seq<u8>, _>("Failed to decode base64 metadata"@),
            Some(cipher) => match aes_decrypted(META_KEY@, cipher) {
                None => json_in_blob(blob) == Err::<Seq<u8>, _>("Failed to decrypt metadata"@),
                Some(plain) => {
                    &&& json_in_blob(blob) == Ok::<_, Seq<char>>(json) <==> plain == META_MARKER@
                        + json
                    &&& json_in_blob(blob) is Err ==> json_in_blob(blob) == Err::<Seq<u8>, _>(
                        "Invalid meta marker"@,
                    )
                },
            },
        },
{
    assert(blob =~= masked(unmasked, 0x63));
    crate::octets::law_mask_is_symmetric(unmasked, 0x63);
    crate::octets::law_magic_is_followed_by_the_rest(unmasked, META_MAGIC@, text);
    if unmasked == META_MAGIC@ + text {
        if let Some(cipher) = base64_decoded(text) {
            if let Some(plain) = aes_decrypted(META_KEY@, cipher) {
                law_json_follows_its_marker(plain, json);
            }
        }
    }
}

/// A decryption's outcome stands for its whole bytes.
pub proof fn law_plain_view_is_faithful(bytes: Vec<u8>)
    ensures
        plain_view(Some(bytes)) == Some(bytes@),
        plain_view(None) is None,
{
}

} // verus!
