//! Encoding audio into the `.ncm` container.
//!
//! This is the inverse of decoding: given the track metadata, a raw content key and plaintext
//! audio, it makes a container that decodes to them again.
use crate::blob::{
    CORE_KEY, KEY_MAGIC, KEY_MASK, META_KEY, META_MAGIC, META_MARKER, META_MASK,
};
use crate::decode::Skipping;
use crate::header::MAGIC;
use crate::key::Key;
use crate::meta::Meta;
use crate::octets::{append_bytes, append_le32, mask_bytes};
use crate::primitives::{aes_encrypt, base64_encode};
use vstd::prelude::*;

verus! {

use crate::blob::{json_in_blob, key_in_blob};
use crate::decode::{contents_of, Contents, Fault};
use crate::key::{law_transform_in_chunks, law_transform_is_symmetric, KeyView};
use crate::layout::{law_well_formed_container_decodes, Layout};
use crate::octets::{law_mask_is_symmetric, le32, masked};
use crate::primitives::{aes_encrypted, aes_len, base64_encoded, base64_len};
use crate::stream::{law_chunks_join, transform_chunks};

/// The two bytes after the magic: a version or flag that decoding ignores.
pub const GAP: [u8; 2] = [0x01, 0x70];

/// The five reserved bytes between the metadata blob and the cover frame. Decoding skips them.
pub const CRC: [u8; 5] = [0, 0, 0, 0, 0];

/// The number of audio bytes that are encrypted at a time.
pub const CHUNK: usize = 8192;

/// The key blob of a content key.
pub open spec fn key_blob(key_data: Seq<u8>) -> Seq<u8> {
    masked(aes_encrypted(CORE_KEY@, KEY_MAGIC@ + key_data), KEY_MASK)
}

/// The length of the key blob of a content key of `key_len` bytes.
pub open spec fn key_blob_len(key_len: int) -> int {
    aes_len(17 + key_len)
}

/// The metadata blob of a JSON text.
pub open spec fn meta_blob(json: Seq<u8>) -> Seq<u8> {
    masked(
        META_MAGIC@ + base64_encoded(aes_encrypted(META_KEY@, META_MARKER@ + json)),
        META_MASK,
    )
}

/// The length of the metadata blob of a JSON text of `json_len` bytes.
pub open spec fn meta_blob_len(json_len: int) -> int {
    22 + base64_len(aes_len(6 + json_len))
}

/// The parts of the container that encoding makes.
pub open spec fn encoded_layout(
    json: Seq<u8>,
    cover: Seq<u8>,
    key_data: Seq<u8>,
    audio: Seq<u8>,
) -> Layout {
    Layout {
        gap: GAP@,
        key_blob: key_blob(key_data),
        meta_blob: meta_blob(json),
        crc: CRC@,
        image: cover,
        padding: Seq::empty(),
        body: KeyView::from_key_data(key_data).transform(audio),
    }
}

/// A container up to and including its key blob.
pub open spec fn preamble(key_data: Seq<u8>) -> Seq<u8> {
    MAGIC@ + GAP@ + le32(key_blob(key_data).len() as int) + key_blob(key_data)
}

/// The part of a container from its metadata blob up to its audio body.
pub open spec fn metadata_section(json: Seq<u8>, cover: Seq<u8>) -> Seq<u8> {
    le32(meta_blob(json).len() as int) + meta_blob(json) + CRC@ + le32(cover.len() as int) + le32(
        cover.len() as int,
    ) + cover
}

/// Encodes a raw content key into a key blob, without its length.
///
/// Decrypting the blob gives the key back. The first block of the blob is the same for all keys: it
/// holds nothing but the beginning of the magic.
pub fn encode_key_blob(key_data: &[u8]) -> (blob: Vec<u8>)
    requires
        key_blob_len(key_data@.len() as int) <= isize::MAX,
    ensures
        blob@ == key_blob(key_data@),
        blob@.len() == key_blob_len(key_data@.len() as int),
        key_in_blob(blob@) == Ok::<_, Seq<char>>(key_data@),
        forall|other: Seq<u8>|
            key_blob_len(other.len() as int) <= isize::MAX ==> blob@.take(16).is_prefix_of(
                #[trigger] key_blob(other),
            ),
{
    let mut plain: Vec<u8> = Vec::with_capacity(KEY_MAGIC.len() + key_data.len());
    append_bytes(&mut plain, &KEY_MAGIC);
    append_bytes(&mut plain, key_data);
    assert(plain@ =~= KEY_MAGIC@ + key_data@);
    let cipher: Vec<u8> = aes_encrypt(&CORE_KEY, plain.as_slice());
    proof {
        law_mask_is_symmetric(cipher@, KEY_MASK);
        lemma_strip_prepended(KEY_MAGIC@, key_data@);
        assert forall|other: Seq<u8>|
            key_blob_len(other.len() as int) <= isize::MAX implies masked(
            cipher@,
            KEY_MASK,
        ).take(16).is_prefix_of(#[trigger] key_blob(other)) by {
            let whole = aes_encrypted(CORE_KEY@, KEY_MAGIC@ + other);
            assert(plain@.take(16) =~= (KEY_MAGIC@ + other).subrange(0, 16));
            assert(cipher@.take(16).is_prefix_of(whole));
            assert forall|i: int| 0 <= i < 16 implies cipher@[i] == whole[i] by {
                assert(cipher@.take(16)[i] == whole.subrange(0, 16)[i]);
            }
            assert(masked(cipher@, KEY_MASK).take(16) =~= key_blob(other).subrange(0, 16));
        }
    }
    mask_bytes(cipher.as_slice(), KEY_MASK)
}

proof fn lemma_strip_prepended(magic: Seq<u8>, rest: Seq<u8>)
    ensures
        crate::octets::after_magic(magic + rest, magic) == Some(rest),
{
    assert(magic =~= (magic + rest).subrange(0, magic.len() as int));
    assert((magic + rest).skip(magic.len() as int) =~= rest);
}

/// Encodes the JSON text of the metadata into a metadata blob, without its length.
///
/// Decrypting the blob gives the text back.
pub fn encode_meta_blob(json: &[u8]) -> (blob: Vec<u8>)
    requires
        meta_blob_len(json@.len() as int) <= isize::MAX,
    ensures
        blob@ == meta_blob(json@),
        blob@.len() == meta_blob_len(json@.len() as int),
        json_in_blob(blob@) == Ok::<_, Seq<char>>(json@),
{
    let mut plain: Vec<u8> = Vec::with_capacity(META_MARKER.len() + json.len());
    append_bytes(&mut plain, &META_MARKER);
    append_bytes(&mut plain, json);
    assert(plain@ =~= META_MARKER@ + json@);
    let cipher: Vec<u8> = aes_encrypt(&META_KEY, plain.as_slice());
    let text: Vec<u8> = base64_encode(cipher.as_slice());
    let mut out: Vec<u8> = Vec::with_capacity(META_MAGIC.len() + text.len());
    append_bytes(&mut out, &META_MAGIC);
    append_bytes(&mut out, text.as_slice());
    assert(out@ =~= META_MAGIC@ + text@);
    proof {
        law_mask_is_symmetric(out@, META_MASK);
        lemma_strip_prepended(META_MAGIC@, text@);
        lemma_strip_prepended(META_MARKER@, json@);
    }
    mask_bytes(out.as_slice(), META_MASK)
}

/// Appends the length of `blob`, as four little-endian bytes, and `blob`.
pub fn write_len_prefixed(out: &mut Vec<u8>, blob: &[u8])
    ensures
        final(out)@ == old(out)@ + le32(blob@.len() as int) + blob@,
        final(out)@.len() == old(out)@.len() + 4 + blob@.len(),
        ({
            let at = old(out)@.len() as int;
            &&& final(out)@[at] == blob@.len() as int % 256
            &&& final(out)@[at + 1] == blob@.len() as int / 0x100 % 256
            &&& final(out)@[at + 2] == blob@.len() as int / 0x1_0000 % 256
            &&& final(out)@[at + 3] == blob@.len() as int / 0x100_0000 % 256
            &&& final(out)@.skip(at + 4) == blob@
        }),
{
    proof {
        crate::octets::law_le32_digits(blob@.len() as int);
    }
    append_le32(out, blob.len());
    append_bytes(out, blob);
    assert(out@.skip((old(out)@.len() + 4) as int) =~= blob@);
}

/// Encodes what a container begins with: the magic and the content key.
pub fn encode_preamble(key_data: &[u8]) -> (out: Vec<u8>)
    requires
        key_blob_len(key_data@.len() as int) <= isize::MAX,
    ensures
        out@ == preamble(key_data@),
        key_blob(key_data@).len() == key_blob_len(key_data@.len() as int),
        key_in_blob(key_blob(key_data@)) == Ok::<_, Seq<char>>(key_data@),
{
    let mut out: Vec<u8> = Vec::new();
    append_bytes(&mut out, &MAGIC);
    append_bytes(&mut out, &GAP);
    write_len_prefixed(&mut out, encode_key_blob(key_data).as_slice());
    assert(out@ =~= preamble(key_data@));
    out
}

/// Encodes what stands between the content key and the audio: the metadata and the cover image.
///
/// The cover frame is written without padding, so its length is that of the image.
pub fn encode_metadata(json: &[u8], cover: &[u8]) -> (out: Vec<u8>)
    requires
        meta_blob_len(json@.len() as int) <= isize::MAX,
    ensures
        out@ == metadata_section(json@, cover@),
        meta_blob(json@).len() == meta_blob_len(json@.len() as int),
        json_in_blob(meta_blob(json@)) == Ok::<_, Seq<char>>(json@),
{
    let mut out: Vec<u8> = Vec::new();
    write_len_prefixed(&mut out, encode_meta_blob(json).as_slice());
    append_bytes(&mut out, &CRC);
    append_le32(&mut out, cover.len());
    append_le32(&mut out, cover.len());
    append_bytes(&mut out, cover);
    assert(out@ =~= metadata_section(json@, cover@));
    out
}

/// What to do after audio has been read.
#[derive(Debug)]
pub enum BodyStep {
    /// Write these bytes, then read on.
    Write(Vec<u8>),
    /// The audio has ended: flush what was written.
    Finish,
}

/// Encrypts the audio body of a container chunk by chunk.
#[derive(Debug)]
pub struct BodyEncoder {
    key: Key,
}

impl View for BodyEncoder {
    type V = KeyView;

    closed spec fn view(&self) -> KeyView {
        self.key@
    }
}

impl BodyEncoder {
    /// An encoder at the start of the body.
    pub fn new(key_data: &[u8]) -> (encoder: Self)
        requires
            key_data@.len() > 0,
        ensures
            encoder@ == KeyView::from_key_data(key_data@),
    {
        BodyEncoder { key: Key::from_key_data(key_data) }
    }

    /// Takes the next audio that was read. That nothing was read means that the audio has ended.
    pub fn encode_chunk(&mut self, audio: &[u8]) -> (step: BodyStep)
        ensures
            match step {
                BodyStep::Write(bytes) => {
                    &&& audio@.len() > 0
                    &&& bytes@ == old(self)@.transform(audio@)
                    &&& 0 <= old(self)@.pos < 256
                    &&& final(self)@ == old(self)@.advance(audio@.len() as int)
                },
                BodyStep::Finish => audio@.len() == 0 && final(self)@ == old(self)@,
            },
    {
        if audio.len() == 0 {
            return BodyStep::Finish;
        }
        let mut bytes: Vec<u8> = vstd::slice::slice_to_vec(audio);
        self.key.apply(bytes.as_mut_slice());
        BodyStep::Write(bytes)
    }
}

/// Encodes `audio` into a container.
///
/// `meta` gives the cover image that is embedded, `json` the text of the metadata, and `key_data`
/// the raw content key. Where the lengths fit their four bytes, the container decodes to what it
/// was made from.
pub fn encode_ncm(meta: &Meta, json: &[u8], key_data: &[u8], audio: &[u8]) -> (out: Vec<u8>)
    requires
        key_data@.len() > 0,
        key_blob_len(key_data@.len() as int) <= isize::MAX,
        meta_blob_len(json@.len() as int) <= isize::MAX,
    ensures
        out@ == encoded_layout(json@, meta.cover@, key_data@, audio@).bytes(),
        key_blob_len(key_data@.len() as int) < 0x1_0000_0000 && meta_blob_len(
            json@.len() as int,
        ) < 0x1_0000_0000 && meta.cover@.len() < 0x1_0000_0000 ==> forall|skipping: Skipping|
            #[trigger] contents_of(out@, skipping) == Ok::<_, Fault>(
                (Contents { key_data: key_data@, json: json@, cover: meta.cover@, audio: audio@ }),
            ),
{
    let mut out: Vec<u8> = encode_preamble(key_data);
    append_bytes(&mut out, encode_metadata(json, meta.cover.as_slice()).as_slice());
    let ghost header = out@;
    let ghost start = KeyView::from_key_data(key_data@);
    let mut encoder = BodyEncoder::new(key_data);
    let mut pos: usize = 0;
    assert(start.transform(audio@.take(0)) =~= Seq::<u8>::empty());
    loop
        invariant
            pos <= audio@.len(),
            start == KeyView::from_key_data(key_data@),
            encoder@ == start.advance(pos as int),
            out@ == header + start.transform(audio@.take(pos as int)),
        ensures
            out@ == header + start.transform(audio@),
        decreases audio@.len() - pos,
    {
        let end: usize = if audio.len() - pos < CHUNK {
            audio.len()
        } else {
            pos + CHUNK
        };
        let chunk: &[u8] = &audio[pos..end];
        match encoder.encode_chunk(chunk) {
            BodyStep::Finish => {
                assert(audio@.take(pos as int) =~= audio@);
                break;
            },
            BodyStep::Write(bytes) => {
                proof {
                    law_transform_in_chunks(start, audio@.take(pos as int), chunk@);
                    assert(audio@.take(pos as int) + chunk@ =~= audio@.take(end as int));
                }
                append_bytes(&mut out, bytes.as_slice());
                pos = end;
                assert(out@ =~= header + start.transform(audio@.take(pos as int)));
            },
        }
    }
    proof {
        let l = encoded_layout(json@, meta.cover@, key_data@, audio@);
        assert(l.image + l.padding =~= l.image);
        assert(out@ =~= l.bytes());
        if l.sized() {
            assert forall|skipping: Skipping| #[trigger]
                contents_of(out@, skipping) == Ok::<_, Fault>(
                    (Contents {
                        key_data: key_data@,
                        json: json@,
                        cover: meta.cover@,
                        audio: audio@,
                    }),
                ) by {
                law_encoded_container_decodes(json@, meta.cover@, key_data@, audio@, skipping);
            }
        }
    }
    out
}

/// A container that encoding made decodes to what it was made from, where the lengths fit their
/// four bytes. That the two blobs decrypt again is what [`encode_preamble`] and
/// [`encode_metadata`] give.
pub proof fn law_encoded_container_decodes(
    json: Seq<u8>,
    cover: Seq<u8>,
    key_data: Seq<u8>,
    audio: Seq<u8>,
    skipping: Skipping,
)
    requires
        key_data.len() > 0,
        key_in_blob(key_blob(key_data)) == Ok::<_, Seq<char>>(key_data),
        json_in_blob(meta_blob(json)) == Ok::<_, Seq<char>>(json),
        encoded_layout(json, cover, key_data, audio).sized(),
    ensures
        contents_of(encoded_layout(json, cover, key_data, audio).bytes(), skipping) == Ok::<
            _,
            Fault,
        >((Contents { key_data, json, cover, audio })),
{
    let l = encoded_layout(json, cover, key_data, audio);
    law_transform_is_symmetric(KeyView::from_key_data(key_data), audio);
    law_well_formed_container_decodes(l, skipping);
}

/// A container written in pieces, its audio chunk by chunk, is the container that encoding the
/// audio as a whole makes, however the audio is cut.
pub proof fn law_streamed_encoding_matches_whole(
    json: Seq<u8>,
    cover: Seq<u8>,
    key_data: Seq<u8>,
    chunks: Seq<Seq<u8>>,
)
    ensures
        preamble(key_data) + metadata_section(json, cover) + transform_chunks(
            KeyView::from_key_data(key_data),
            chunks,
        ).flatten() == encoded_layout(json, cover, key_data, chunks.flatten()).bytes(),
{
    let l = encoded_layout(json, cover, key_data, chunks.flatten());
    law_chunks_join(KeyView::from_key_data(key_data), chunks);
    assert(l.image + l.padding =~= l.image);
    assert(preamble(key_data) + metadata_section(json, cover) + l.body =~= l.bytes());
}

/// Two content keys have the same key blob only if they are the same key. That their blobs decrypt
/// again is what [`encode_key_blob`] gives.
pub proof fn law_key_blobs_tell_keys_apart(a: Seq<u8>, b: Seq<u8>)
    requires
        key_in_blob(key_blob(a)) == Ok::<_, Seq<char>>(a),
        key_in_blob(key_blob(b)) == Ok::<_, Seq<char>>(b),
    ensures
        key_blob(a) == key_blob(b) <==> a == b,
{
}

/// Every byte of a key blob differs by the mask from that of the ciphertext of the magic and the
/// key, whole.
pub proof fn law_key_blob_masks_the_ciphertext(key_data: Seq<u8>, i: int)
    ensures
        ({
            let cipher = aes_encrypted(CORE_KEY@, KEY_MAGIC@ + key_data);
            &&& key_blob(key_data).len() == cipher.len()
            &&& 0 <= i < cipher.len() ==> cipher[i] ^ key_blob(key_data)[i] == 0x64
        }),
{
    let cipher = aes_encrypted(CORE_KEY@, KEY_MAGIC@ + key_data);
    crate::octets::law_mask_is_the_difference(cipher, KEY_MASK);
}

/// Every byte of a metadata blob differs by the mask from that of the header and the base64 text of
/// the ciphertext of the marker and the JSON text, whole.
pub proof fn law_meta_blob_masks_the_text(json: Seq<u8>, i: int)
    ensures
        ({
            let text = META_MAGIC@ + base64_encoded(aes_encrypted(META_KEY@, META_MARKER@ + json));
            &&& meta_blob(json).len() == text.len()
            &&& 0 <= i < text.len() ==> text[i] ^ meta_blob(json)[i] == 0x63
        }),
{
    let text = META_MAGIC@ + base64_encoded(aes_encrypted(META_KEY@, META_MARKER@ + json));
    crate::octets::law_mask_is_the_difference(text, META_MASK);
}

/// A key blob has the fewest blocks of 16 that hold the magic, the key and at least one byte of
/// padding; a metadata blob has its header and four characters for each three bytes begun of the
/// blocks that hold the marker and the text in the same way.
pub proof fn law_blob_lengths(n: int)
    requires
        0 <= n,
    ensures
        key_blob_len(n) == 16 * ((17 + n) / 16 + 1),
        17 + n < key_blob_len(n) <= 33 + n,
        meta_blob_len(n) == 22 + 4 * ((16 * ((6 + n) / 16 + 1) + 2) / 3),
{
}

/// The parts of the container that encoding makes: the version bytes, the blobs of the key and of
/// the text, zeros, the whole cover without padding, and a body as long as the audio, each byte of
/// which differs from that of the audio by the keystream byte of its place.
pub proof fn law_encoded_parts(
    json: Seq<u8>,
    cover: Seq<u8>,
    key_data: Seq<u8>,
    audio: Seq<u8>,
    n: int,
)
    ensures
        ({
            let l = encoded_layout(json, cover, key_data, audio);
            let s = crate::key::key_box(key_data);
            let i = (n + 1) % 256;
            &&& l.gap == seq![1u8, 0x70]
            &&& l.key_blob == key_blob(key_data)
            &&& l.meta_blob == meta_blob(json)
            &&& l.crc == seq![0u8, 0, 0, 0, 0]
            &&& l.image == cover
            &&& l.padding.len() == 0
            &&& l.body.len() == audio.len()
            &&& 0 <= n < audio.len() ==> audio[n] ^ l.body[n] == s[(s[i] + s[(s[i] + i) % 256])
                % 256]
        }),
{
    let l = encoded_layout(json, cover, key_data, audio);
    assert(l.gap =~= seq![1u8, 0x70]);
    assert(l.crc =~= seq![0u8, 0, 0, 0, 0]);
    crate::key::law_keystream_begins_at_the_start(key_data);
    if 0 <= n < audio.len() {
        crate::key::law_transform_is_the_keystream(KeyView::from_key_data(key_data), audio, n);
    }
}

/// The pieces of a container that is written in pieces are cut right after its key blob and right
/// after its cover.
pub proof fn law_pieces_are_cut_in_order(
    json: Seq<u8>,
    cover: Seq<u8>,
    key_data: Seq<u8>,
    audio: Seq<u8>,
)
    ensures
        ({
            let d = encoded_layout(json, cover, key_data, audio).bytes();
            let k = 14 + key_blob(key_data).len();
            let m = k + 17 + meta_blob(json).len() + cover.len();
            &&& preamble(key_data) == d.take(k as int)
            &&& metadata_section(json, cover) == d.subrange(k as int, m as int)
            &&& KeyView::from_key_data(key_data).transform(audio) == d.skip(m as int)
        }),
{
    let l = encoded_layout(json, cover, key_data, audio);
    let (a, b, c) = (preamble(key_data), metadata_section(json, cover), l.body);
    assert(l.image + l.padding =~= l.image);
    assert(a + b + c =~= l.bytes());
    crate::octets::law_le32_digits(l.key_blob.len() as int);
    crate::octets::law_le32_digits(l.meta_blob.len() as int);
    crate::octets::law_le32_digits(cover.len() as int);
    let d = l.bytes();
    assert(a =~= d.take(a.len() as int));
    assert(b =~= d.subrange(a.len() as int, (a.len() + b.len()) as int));
    assert(c =~= d.skip((a.len() + b.len()) as int));
}

} // verus!
